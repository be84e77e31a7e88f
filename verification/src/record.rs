//! The record parser: one blob of lines in, one blame record out.
//!
//! A blob is the run of lines that `git blame --line-porcelain` prints for one
//! line of the file: a header, any number of `key value` lines, and the line
//! itself behind a tab.

use crate::blame::{Blame, ParseError, Record};
use crate::chars::{chars_eq, chars_of, run_len, scan_run, CharClass};
use crate::number::{line_number_or_zero, number_or_zero, seconds_or_zero};
use crate::utf8::{lemma_encoded_single, split_at_char};
use vstd::prelude::*;
use vstd::slice::slice_subrange;
use vstd::std_specs::iter::IteratorSpec;

verus! {

/// The words of `s`: its longest runs of characters that are not whitespace,
/// in order.
pub open spec fn tokens(s: Seq<char>) -> Seq<Seq<char>>
    decreases s.len(),
    via tokens_decreases
{
    let word = s.skip(run_len(s, CharClass::Whitespace) as int);
    if word.len() == 0 {
        Seq::empty()
    } else {
        let n = run_len(word, CharClass::NonWhitespace) as int;
        seq![word.take(n)] + tokens(word.skip(n))
    }
}

#[via_fn]
proof fn tokens_decreases(s: Seq<char>) {
    let start = run_len(s, CharClass::Whitespace) as int;
    crate::chars::lemma_run_len_bounds(s, CharClass::Whitespace);
    let word = s.skip(start);
    if word.len() != 0 {
        crate::chars::lemma_run_len_bounds(word, CharClass::NonWhitespace);
        assert(word[0] == s[start]);
        assert(run_len(word, CharClass::NonWhitespace) > 0);
    }
}

/// What the header line says: the commit is its first word, the line numbers
/// its second and third. A line number that is missing or no number is zero.
/// A header without a word says nothing.
pub open spec fn header_record(header: Seq<char>) -> Option<Record> {
    let words = tokens(header);
    if words.len() == 0 {
        None
    } else {
        Some(
            Record {
                commit: words[0],
                original_line_no: if words.len() > 1 {
                    number_or_zero(words[1], usize::MAX as nat)
                } else {
                    0
                },
                final_line_no: if words.len() > 2 {
                    number_or_zero(words[2], usize::MAX as nat)
                } else {
                    0
                },
                ..Record::empty()
            },
        )
    }
}

/// The keys of the `key value` lines that the parser reads.
#[derive(Clone, Copy, Debug)]
pub enum FieldKey {
    Filename,
    Summary,
    Author,
    AuthorMail,
    AuthorTime,
    AuthorTz,
    Committer,
    CommitterMail,
    CommitterTime,
    CommitterTz,
    Previous,
}

impl FieldKey {
    /// The key as the output spells it.
    pub open spec fn name(self) -> Seq<char> {
        match self {
            FieldKey::Filename => "filename"@,
            FieldKey::Summary => "summary"@,
            FieldKey::Author => "author"@,
            FieldKey::AuthorMail => "author-mail"@,
            FieldKey::AuthorTime => "author-time"@,
            FieldKey::AuthorTz => "author-tz"@,
            FieldKey::Committer => "committer"@,
            FieldKey::CommitterMail => "committer-mail"@,
            FieldKey::CommitterTime => "committer-time"@,
            FieldKey::CommitterTz => "committer-tz"@,
            FieldKey::Previous => "previous"@,
        }
    }

    /// The key that `name` spells, if it spells one.
    pub open spec fn of_name(name: Seq<char>) -> Option<FieldKey> {
        if name == FieldKey::Filename.name() {
            Some(FieldKey::Filename)
        } else if name == FieldKey::Summary.name() {
            Some(FieldKey::Summary)
        } else if name == FieldKey::Author.name() {
            Some(FieldKey::Author)
        } else if name == FieldKey::AuthorMail.name() {
            Some(FieldKey::AuthorMail)
        } else if name == FieldKey::AuthorTime.name() {
            Some(FieldKey::AuthorTime)
        } else if name == FieldKey::AuthorTz.name() {
            Some(FieldKey::AuthorTz)
        } else if name == FieldKey::Committer.name() {
            Some(FieldKey::Committer)
        } else if name == FieldKey::CommitterMail.name() {
            Some(FieldKey::CommitterMail)
        } else if name == FieldKey::CommitterTime.name() {
            Some(FieldKey::CommitterTime)
        } else if name == FieldKey::CommitterTz.name() {
            Some(FieldKey::CommitterTz)
        } else if name == FieldKey::Previous.name() {
            Some(FieldKey::Previous)
        } else {
            None
        }
    }

    /// Looks `name` up among the keys.
    pub fn from_name(name: &[char]) -> (key: Option<FieldKey>)
        ensures
            key == FieldKey::of_name(name@),
    {
        if chars_eq(name, "filename") {
            Some(FieldKey::Filename)
        } else if chars_eq(name, "summary") {
            Some(FieldKey::Summary)
        } else if chars_eq(name, "author") {
            Some(FieldKey::Author)
        } else if chars_eq(name, "author-mail") {
            Some(FieldKey::AuthorMail)
        } else if chars_eq(name, "author-time") {
            Some(FieldKey::AuthorTime)
        } else if chars_eq(name, "author-tz") {
            Some(FieldKey::AuthorTz)
        } else if chars_eq(name, "committer") {
            Some(FieldKey::Committer)
        } else if chars_eq(name, "committer-mail") {
            Some(FieldKey::CommitterMail)
        } else if chars_eq(name, "committer-time") {
            Some(FieldKey::CommitterTime)
        } else if chars_eq(name, "committer-tz") {
            Some(FieldKey::CommitterTz)
        } else if chars_eq(name, "previous") {
            Some(FieldKey::Previous)
        } else {
            None
        }
    }
}

/// The previous commit and the path of the file in it, as the value of a
/// `previous` line gives them: what stands before its first space and what
/// stands behind it. A value without a space gives nothing.
pub open spec fn previous_of(value: Seq<char>) -> Option<(Seq<char>, Seq<char>)> {
    let n = run_len(value, CharClass::Not(' ')) as int;
    if n < value.len() {
        Some((value.take(n), value.skip(n + 1)))
    } else {
        None
    }
}

/// The record `r` after a line with the key `key` and the value `value`.
pub open spec fn with_field(r: Record, key: FieldKey, value: Seq<char>) -> Record {
    match key {
        FieldKey::Filename => Record { filename: value, ..r },
        FieldKey::Summary => Record { summary: value, ..r },
        FieldKey::Author => Record { author: value, ..r },
        FieldKey::AuthorMail => Record { author_mail: value, ..r },
        FieldKey::AuthorTime => Record {
            author_time: number_or_zero(value, u64::MAX as nat),
            ..r
        },
        FieldKey::AuthorTz => Record { author_tz: value, ..r },
        FieldKey::Committer => Record { committer: value, ..r },
        FieldKey::CommitterMail => Record { committer_mail: value, ..r },
        FieldKey::CommitterTime => Record {
            committer_time: number_or_zero(value, u64::MAX as nat),
            ..r
        },
        FieldKey::CommitterTz => Record { committer_tz: value, ..r },
        FieldKey::Previous => match previous_of(value) {
            Some(pair) => Record { previous: Some(pair), ..r },
            None => r,
        },
    }
}

/// Whether `line` is a content line: one that starts with a tab.
pub open spec fn is_content_line(line: Seq<char>) -> bool {
    line.len() > 0 && line[0] == '\t'
}

/// The record `r` after the line `line` of the blob's body.
///
/// A content line sets the content to what follows its tab. Any other line
/// with a space is a key, the space, and a value; a key that is not known
/// changes nothing. A line without a space changes nothing either, unless it
/// is the word `boundary`.
pub open spec fn with_line(r: Record, line: Seq<char>) -> Record {
    if is_content_line(line) {
        Record { content: line.drop_first(), ..r }
    } else {
        let n = run_len(line, CharClass::Not(' ')) as int;
        if n < line.len() {
            match FieldKey::of_name(line.take(n)) {
                Some(key) => with_field(r, key, line.skip(n + 1)),
                None => r,
            }
        } else if line == "boundary"@ {
            Record { boundary: true, ..r }
        } else {
            r
        }
    }
}

/// The record `r` after the lines `lines`, taken in order.
pub open spec fn with_lines(r: Record, lines: Seq<Seq<char>>) -> Record
    decreases lines.len(),
{
    if lines.len() == 0 {
        r
    } else {
        with_line(with_lines(r, lines.drop_last()), lines.last())
    }
}

/// The record that a blob describes: what its header says, after the lines
/// that follow the header. A blob without lines, or with a header without a
/// word, describes none.
pub open spec fn blob_record(blob: Seq<Seq<char>>) -> Option<Record> {
    if blob.len() == 0 {
        None
    } else {
        match header_record(blob[0]) {
            Some(r) => Some(with_lines(r, blob.skip(1))),
            None => None,
        }
    }
}

/// The texts of `lines`.
pub open spec fn texts(lines: Seq<&str>) -> Seq<Seq<char>> {
    lines.map_values(|line: &str| line@)
}

/// Whether `line` is a content line: whether it starts with a tab.
pub fn starts_with_tab(line: &str) -> (b: bool)
    ensures
        b == is_content_line(line@),
{
    let mut it = line.chars();
    match it.next() {
        Some(c) => c == '\t',
        None => false,
    }
}

/// Finds the next word of `chars` at or behind `from`: where it starts and
/// where it ends. Where no word is left, it starts at the end.
fn next_token(chars: &[char], from: usize) -> (word: (usize, usize))
    requires
        from <= chars@.len(),
    ensures
        from <= word.0 <= word.1 <= chars@.len(),
        word.0 < chars@.len() ==> word.0 < word.1,
        tokens(chars@.skip(from as int)) == if word.0 == chars@.len() {
            Seq::<Seq<char>>::empty()
        } else {
            seq![chars@.subrange(word.0 as int, word.1 as int)] + tokens(
                chars@.skip(word.1 as int),
            )
        },
{
    let start = scan_run(chars, from, CharClass::Whitespace);
    let end = scan_run(chars, start, CharClass::NonWhitespace);
    proof {
        let s = chars@.skip(from as int);
        let word = s.skip(run_len(s, CharClass::Whitespace) as int);
        assert(word == chars@.skip(start as int));
        if word.len() != 0 {
            let n = run_len(word, CharClass::NonWhitespace) as int;
            crate::chars::lemma_run_len_bounds(
                chars@.skip(from as int),
                CharClass::Whitespace,
            );
            assert(word[0] == s[start - from]);
            assert(n > 0);
            assert(word.take(n) == chars@.subrange(start as int, end as int));
            assert(word.skip(n) == chars@.skip(end as int));
        }
    }
    (start, end)
}

/// Reads the header line of a blob.
fn parse_header(header: &str) -> (parsed: Option<Blame>)
    ensures
        match parsed {
            Some(blame) => header_record(header@) == Some(blame@) && blame.wf(),
            None => header_record(header@) is None,
        },
{
    let chars = chars_of(header);
    let len = chars.len();
    assert(chars@.skip(0) == header@);
    let (start, end) = next_token(chars.as_slice(), 0);
    if start == len {
        return None;
    }
    let mut blame = Blame::default();
    blame.commit = header.substring_char(start, end).to_owned();
    let (start, end) = next_token(chars.as_slice(), end);
    if start < len {
        blame.original_line_no = line_number_or_zero(slice_subrange(chars.as_slice(), start, end));
        let (start, end) = next_token(chars.as_slice(), end);
        if start < len {
            blame.final_line_no = line_number_or_zero(
                slice_subrange(chars.as_slice(), start, end),
            );
        }
    }
    Some(blame)
}

/// Stores the value of a `key value` line in the field that the key names.
fn set_field(blame: &mut Blame, key: FieldKey, value: &str, value_chars: &[char])
    requires
        value@ == value_chars@,
    ensures
        final(blame)@ == with_field(old(blame)@, key, value@),
        old(blame).wf() ==> final(blame).wf(),
{
    match key {
        FieldKey::Filename => {
            blame.filename = value.to_owned();
        },
        FieldKey::Summary => {
            blame.summary = value.to_owned();
        },
        FieldKey::Author => {
            blame.author = value.to_owned();
        },
        FieldKey::AuthorMail => {
            blame.author_mail = value.to_owned();
        },
        FieldKey::AuthorTime => {
            blame.author_time = seconds_or_zero(value_chars);
        },
        FieldKey::AuthorTz => {
            blame.author_tz = value.to_owned();
        },
        FieldKey::Committer => {
            blame.committer = value.to_owned();
        },
        FieldKey::CommitterMail => {
            blame.committer_mail = value.to_owned();
        },
        FieldKey::CommitterTime => {
            blame.committer_time = seconds_or_zero(value_chars);
        },
        FieldKey::CommitterTz => {
            blame.committer_tz = value.to_owned();
        },
        FieldKey::Previous => {
            let len = value_chars.len();
            assert(value_chars@.skip(0) == value_chars@);
            let n = scan_run(value_chars, 0, CharClass::Not(' '));
            if n < len {
                assert(value@.subrange(0, n as int) == value@.take(n as int));
                assert(value@.subrange(n + 1, len as int) == value@.skip(n + 1));
                blame.previous_commit = Some(value.substring_char(0, n).to_owned());
                blame.previous_filepath = Some(value.substring_char(n + 1, len).to_owned());
            }
        },
    }
}

/// Reads one line of a blob's body into the record.
fn apply_line(blame: &mut Blame, line: &str)
    ensures
        final(blame)@ == with_line(old(blame)@, line@),
        old(blame).wf() ==> final(blame).wf(),
{
    if starts_with_tab(line) {
        proof {
            assert(line@.take(1) == seq!['\t']);
            lemma_encoded_single('\t');
        }
        let (_, content) = split_at_char(line, Ghost(1), 1);
        blame.content = content.to_owned();
        return ;
    }
    let chars = chars_of(line);
    let len = chars.len();
    assert(chars@.skip(0) == chars@);
    let n = scan_run(chars.as_slice(), 0, CharClass::Not(' '));
    if n < len {
        assert(chars@.subrange(0, n as int) == line@.take(n as int));
        assert(chars@.subrange(n + 1, len as int) == line@.skip(n + 1));
        assert(line@.subrange(n + 1, len as int) == line@.skip(n + 1));
        match FieldKey::from_name(slice_subrange(chars.as_slice(), 0, n)) {
            Some(key) => {
                set_field(
                    blame,
                    key,
                    line.substring_char(n + 1, len),
                    slice_subrange(chars.as_slice(), n + 1, len),
                );
            },
            None => {},
        }
    } else if chars_eq(chars.as_slice(), "boundary") {
        blame.boundary = true;
    }
}

/// Parses the porcelain format output corresponding to a single line to
/// construct a Blame object.
///
/// The first line is the header, the others are the body. The only failure is
/// a blob whose header names no commit: no line at all, or a header without a
/// word. Everything else that is missing or malformed leaves its field at zero,
/// empty or absent.
pub fn parse_one_blame(porcelain: &[&str]) -> (result: Result<Blame, ParseError>)
    ensures
        result is Ok <==> porcelain@.len() > 0 && tokens(porcelain@[0]@).len() > 0,
        match result {
            Ok(blame) => blob_record(texts(porcelain@)) == Some(blame@) && blame.wf(),
            Err(error) => blob_record(texts(porcelain@)) is None && error@ == "no header"@,
        },
{
    let ghost blob = texts(porcelain@);
    if porcelain.len() == 0 {
        return Err(ParseError::new("no header"));
    }
    assert(blob[0] == porcelain@[0]@);
    let mut blame = match parse_header(porcelain[0]) {
        Some(blame) => blame,
        None => {
            return Err(ParseError::new("no header"));
        },
    };
    let ghost header = blame@;
    let mut i: usize = 1;
    assert(blob.skip(1).take(0) == Seq::<Seq<char>>::empty());
    while i < porcelain.len()
        invariant
            1 <= i <= porcelain@.len(),
            blob == texts(porcelain@),
            blame.wf(),
            blame@ == with_lines(header, blob.skip(1).take(i - 1)),
        decreases porcelain@.len() - i,
    {
        proof {
            let body = blob.skip(1);
            assert(body.take(i as int).drop_last() == body.take(i - 1));
            assert(body.take(i as int).last() == porcelain@[i as int]@);
        }
        apply_line(&mut blame, porcelain[i]);
        i = i + 1;
    }
    assert(blob.skip(1).take(i - 1) == blob.skip(1));
    Ok(blame)
}

} // verus!
