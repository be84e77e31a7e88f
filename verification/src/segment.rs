//! The segmenter: the whole output of `git blame --line-porcelain` in, one
//! blame record per blob out.
//!
//! A content line ends a blob. Lines behind the last content line belong to no
//! blob and are dropped.

use crate::blame::{Blame, ParseError, Record};
use crate::laws::{law_blob_count, law_empty_text, law_parse_fails};
use crate::lines::{lines_of, split_lines};
use crate::record::{
    blob_record, is_content_line, parse_one_blame, starts_with_tab, texts, tokens,
};
use vstd::prelude::*;

verus! {

/// The number of lines in front of the first content line of `lines`; the
/// number of all lines where none is a content line.
pub open spec fn lead_len(lines: Seq<Seq<char>>) -> nat
    decreases lines.len(),
{
    if lines.len() > 0 && !is_content_line(lines[0]) {
        1 + lead_len(lines.drop_first())
    } else {
        0
    }
}

/// The blobs of `lines`, in order: each runs up to and includes the next
/// content line.
pub open spec fn blobs_of(lines: Seq<Seq<char>>) -> Seq<Seq<Seq<char>>>
    decreases lines.len(),
{
    let n = lead_len(lines) as int;
    if n >= lines.len() {
        Seq::empty()
    } else {
        seq![lines.take(n + 1)] + blobs_of(lines.skip(n + 1))
    }
}

/// The number of content lines among `lines`.
pub open spec fn content_line_count(lines: Seq<Seq<char>>) -> nat
    decreases lines.len(),
{
    if lines.len() == 0 {
        0
    } else if is_content_line(lines[0]) {
        1 + content_line_count(lines.drop_first())
    } else {
        content_line_count(lines.drop_first())
    }
}

/// Whether one of the blobs of `lines` has a header without a word.
pub open spec fn headless_blob(lines: Seq<Seq<char>>) -> bool {
    exists|k: int|
        0 <= k < blobs_of(lines).len() && tokens((#[trigger] blobs_of(lines)[k])[0]).len() == 0
}

/// The records that `blobs` describe, in order; none where a blob describes no
/// record.
pub open spec fn records_of(blobs: Seq<Seq<Seq<char>>>) -> Option<Seq<Record>> {
    if forall|i: int| 0 <= i < blobs.len() ==> (#[trigger] blob_record(blobs[i])) is Some {
        Some(blobs.map_values(|blob: Seq<Seq<char>>| blob_record(blob)->0))
    } else {
        None
    }
}

/// The records that the text `text` describes, one for each of its blobs.
pub open spec fn blame_records(text: Seq<char>) -> Option<Seq<Record>> {
    records_of(blobs_of(lines_of(text)))
}

/// What the blames `blames` say.
pub open spec fn views(blames: Seq<Blame>) -> Seq<Record> {
    blames.map_values(|blame: Blame| blame@)
}

/// The lead ends inside the lines, holds no content line, and is followed by
/// a content line unless it reaches the end.
pub proof fn lemma_lead_len_bounds(lines: Seq<Seq<char>>)
    ensures
        lead_len(lines) <= lines.len(),
        forall|i: int| 0 <= i < lead_len(lines) ==> !is_content_line(#[trigger] lines[i]),
        lead_len(lines) < lines.len() ==> is_content_line(lines[lead_len(lines) as int]),
    decreases lines.len(),
{
    if lines.len() > 0 && !is_content_line(lines[0]) {
        let rest = lines.drop_first();
        lemma_lead_len_bounds(rest);
        assert forall|i: int| 0 <= i < lead_len(lines) implies !is_content_line(
            #[trigger] lines[i],
        ) by {
            if i > 0 {
                assert(lines[i] == rest[i - 1]);
            }
        }
        if lead_len(lines) < lines.len() {
            assert(lines[lead_len(lines) as int] == rest[lead_len(rest) as int]);
        }
    }
}

/// Lines in front of a content line, none of them a content line, are the
/// lead.
pub proof fn lemma_lead_len_is(lines: Seq<Seq<char>>, n: int)
    requires
        0 <= n <= lines.len(),
        forall|i: int| 0 <= i < n ==> !is_content_line(#[trigger] lines[i]),
        n < lines.len() ==> is_content_line(lines[n]),
    ensures
        lead_len(lines) == n,
    decreases n,
{
    if n > 0 {
        let rest = lines.drop_first();
        assert(!is_content_line(lines[0]));
        assert forall|i: int| 0 <= i < n - 1 implies !is_content_line(#[trigger] rest[i]) by {
            assert(rest[i] == lines[i + 1]);
        }
        if n - 1 < rest.len() {
            assert(rest[n - 1] == lines[n]);
        }
        lemma_lead_len_is(rest, n - 1);
    }
}

/// Parses the output of `git blame` command in the porcelain format.
/// the output must be generated using the `--line-porcelain` option.
///
/// The blames come in the order of the blobs, one for each content line of
/// the text. The parse fails as a whole where one blob has a header without a
/// word.
pub fn parse(porcelain: &str) -> (result: Result<Vec<Blame>, ParseError>)
    ensures
        result is Err <==> headless_blob(lines_of(porcelain@)),
        porcelain@.len() == 0 ==> result is Ok,
        match result {
            Ok(blames) => {
                &&& blame_records(porcelain@) == Some(views(blames@))
                &&& blames@.len() == content_line_count(lines_of(porcelain@))
                &&& forall|i: int| 0 <= i < blames@.len() ==> (#[trigger] blames@[i]).wf()
            },
            Err(error) => blame_records(porcelain@) is None && error@ == "no header"@,
        },
{
    proof {
        law_parse_fails(porcelain@);
        law_blob_count(lines_of(porcelain@));
        if porcelain@.len() == 0 {
            law_empty_text();
            assert(porcelain@ == Seq::<char>::empty());
        }
    }
    let lines = split_lines(porcelain);
    let ghost all = texts(lines@);
    let mut blames: Vec<Blame> = Vec::new();
    let mut blob: Vec<&str> = Vec::new();
    let ghost mut done: Seq<Seq<Seq<char>>> = Seq::empty();
    let mut i: usize = 0;
    proof {
        assert(all.skip(0) == all);
        assert(done + blobs_of(all) == blobs_of(all));
        assert(texts(blob@) == all.subrange(0, 0));
    }
    while i < lines.len()
        invariant
            i <= lines@.len(),
            all == texts(lines@),
            all == lines_of(porcelain@),
            blob@.len() <= i,
            texts(blob@) == all.subrange(i - blob@.len(), i as int),
            forall|j: int| i - blob@.len() <= j < i ==> !is_content_line(#[trigger] all[j]),
            blobs_of(all) == done + blobs_of(all.skip(i - blob@.len())),
            done.len() == blames@.len(),
            forall|j: int|
                0 <= j < done.len() ==> blob_record(#[trigger] done[j]) == Some(blames@[j]@),
            forall|j: int| 0 <= j < blames@.len() ==> (#[trigger] blames@[j]).wf(),
        decreases lines@.len() - i,
    {
        let line: &str = lines[i];
        let ghost start = i - blob@.len();
        assert(all[i as int] == line@);
        assert(texts(blob@.push(line)) == all.subrange(start, i + 1)) by {
            assert(texts(blob@.push(line)) == texts(blob@).push(line@));
            assert(all.subrange(start, i as int).push(all[i as int]) == all.subrange(start, i + 1));
        }
        blob.push(line);
        if starts_with_tab(line) {
            let ghost tail = all.skip(start);
            let ghost current = texts(blob@);
            proof {
                assert forall|j: int| 0 <= j < i - start implies !is_content_line(
                    #[trigger] tail[j],
                ) by {
                    assert(tail[j] == all[start + j]);
                }
                assert(tail[i - start] == all[i as int]);
                lemma_lead_len_is(tail, i - start);
                assert(tail.take(i - start + 1) == current);
                assert(tail.skip(i - start + 1) == all.skip(i + 1));
                assert(blobs_of(tail) == seq![current] + blobs_of(all.skip(i + 1)));
                assert(blobs_of(all) == done.push(current) + blobs_of(all.skip(i + 1))) by {
                    assert(done + (seq![current] + blobs_of(all.skip(i + 1))) == done.push(current)
                        + blobs_of(all.skip(i + 1)));
                }
            }
            match parse_one_blame(blob.as_slice()) {
                Ok(blame) => {
                    blames.push(blame);
                    proof {
                        done = done.push(current);
                    }
                },
                Err(error) => {
                    assert(blobs_of(all)[done.len() as int] == current);
                    assert(blob_record(blobs_of(all)[done.len() as int]) is None);
                    return Err(error);
                },
            }
            blob.clear();
            assert(texts(blob@) == all.subrange(i + 1, i + 1));
        }
        i = i + 1;
    }
    proof {
        let start = i - blob@.len();
        let tail = all.skip(start);
        assert forall|j: int| 0 <= j < tail.len() implies !is_content_line(#[trigger] tail[j]) by {
            assert(tail[j] == all[start + j]);
        }
        lemma_lead_len_is(tail, tail.len() as int);
        assert(blobs_of(tail) == Seq::<Seq<Seq<char>>>::empty());
        assert(done + blobs_of(tail) == done);
        assert(done.map_values(|blob: Seq<Seq<char>>| blob_record(blob)->0) == views(blames@));
    }
    Ok(blames)
}

} // verus!
