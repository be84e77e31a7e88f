//! Lines of a text.
//!
//! A line ends with a line feed, or with a carriage return and a line feed;
//! neither belongs to the line. The last line may go without an ending.

use crate::chars::{lemma_run_len_is, run_len, CharClass};
use crate::record::texts;
use crate::utf8::{
    char_width, encoded_len, lemma_encoded_len_step, lemma_encoded_prefix, lemma_encoded_single,
    split_at_char,
};
use vstd::prelude::*;
use vstd::std_specs::iter::IteratorSpec;

verus! {

/// `line` without the carriage return that it may end with.
pub open spec fn without_return(line: Seq<char>) -> Seq<char> {
    if line.len() > 0 && line.last() == '\r' {
        line.drop_last()
    } else {
        line
    }
}

/// The lines of `text`, in order.
///
/// An empty text has no line. Text behind the last line feed is a line of its
/// own, and keeps a carriage return that it ends with.
pub open spec fn lines_of(text: Seq<char>) -> Seq<Seq<char>>
    decreases text.len(),
{
    let n = run_len(text, CharClass::Not('\n')) as int;
    if text.len() == 0 {
        Seq::empty()
    } else if n >= text.len() {
        seq![text]
    } else {
        seq![without_return(text.take(n))] + lines_of(text.skip(n + 1))
    }
}

/// Cuts the first line off `text`: the line, and the text behind its ending.
/// An empty text has no first line.
pub fn split_first_line<'a>(text: &'a str) -> (parts: Option<(&'a str, &'a str)>)
    ensures
        match parts {
            Some((line, rest)) => {
                &&& text@.len() > 0
                &&& rest@.len() < text@.len()
                &&& lines_of(text@) == seq![line@] + lines_of(rest@)
            },
            None => text@.len() == 0,
        },
{
    let total: usize = text.as_bytes().len();
    let mut it = text.chars();
    let mut bytes: usize = 0;
    let mut after_return: bool = false;
    let ghost mut k: int = 0;
    proof {
        assert(text@.take(0) == Seq::<char>::empty());
        assert(text@.skip(0) == text@);
        lemma_encoded_prefix(text@, 0);
    }
    loop
        invariant
            it.decrease() is Some,
            0 <= k <= text@.len(),
            it.remaining() == text@.skip(k),
            bytes == encoded_len(text@.take(k)),
            total == encoded_len(text@),
            k <= bytes <= total,
            forall|i: int| 0 <= i < k ==> text@[i] != '\n',
            after_return == (k > 0 && text@[k - 1] == '\r'),
        decreases it.decrease()->0,
    {
        match it.next() {
            Some(c) => {
                assert(c == text@[k]);
                assert(text@.skip(k).drop_first() == text@.skip(k + 1));
                if c == '\n' {
                    let (head, tail) = split_at_char(text, Ghost(k), bytes);
                    proof {
                        assert(tail@.take(1) == seq!['\n']);
                        lemma_encoded_single('\n');
                        assert(tail@.skip(1) == text@.skip(k + 1));
                        lemma_run_len_is(text@, CharClass::Not('\n'), k);
                    }
                    let (_, rest) = split_at_char(tail, Ghost(1), 1);
                    if after_return {
                        proof {
                            lemma_encoded_prefix(head@, k - 1);
                            assert(head@.skip(k - 1) == seq!['\r']);
                            lemma_encoded_single('\r');
                            assert(head@.take(k - 1) == head@.drop_last());
                        }
                        let (line, _) = split_at_char(head, Ghost(k - 1), bytes - 1);
                        return Some((line, rest));
                    }
                    return Some((head, rest));
                }
                proof {
                    lemma_encoded_len_step(text@, k);
                    lemma_encoded_prefix(text@, k + 1);
                    k = k + 1;
                }
                after_return = c == '\r';
                bytes = bytes + char_width(c);
            },
            None => {
                assert(k == text@.len());
                if bytes == 0 {
                    return None;
                }
                proof {
                    lemma_run_len_is(text@, CharClass::Not('\n'), k);
                    assert(text@.take(k) == text@);
                }
                let (line, rest) = split_at_char(text, Ghost(k), bytes);
                assert(lines_of(rest@) == Seq::<Seq<char>>::empty());
                assert(seq![line@] + Seq::<Seq<char>>::empty() == seq![line@]);
                return Some((line, rest));
            },
        }
    }
}

/// The lines of `text`, in order.
pub fn split_lines<'a>(text: &'a str) -> (lines: Vec<&'a str>)
    ensures
        texts(lines@) == lines_of(text@),
{
    let mut lines: Vec<&'a str> = Vec::new();
    let mut rest: &'a str = text;
    assert(texts(lines@) + lines_of(rest@) == lines_of(text@));
    loop
        invariant
            texts(lines@) + lines_of(rest@) == lines_of(text@),
        ensures
            texts(lines@) == lines_of(text@),
        decreases rest@.len(),
    {
        match split_first_line(rest) {
            Some((line, tail)) => {
                assert(texts(lines@.push(line)) == texts(lines@) + seq![line@]);
                assert((texts(lines@) + seq![line@]) + lines_of(tail@) == texts(lines@) + (
                seq![line@] + lines_of(tail@)));
                lines.push(line);
                rest = tail;
            },
            None => {
                assert(texts(lines@) + Seq::<Seq<char>>::empty() == texts(lines@));
                break ;
            },
        }
    }
    lines
}

} // verus!
