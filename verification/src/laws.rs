//! What holds of the parser on every input, stated over the model and proved.

use crate::blame::{Blame, Record};
use crate::chars::{lemma_run_len_bounds, lemma_run_len_is, run_len, CharClass};
use crate::lines::lines_of;
use crate::record::{
    blob_record, header_record, is_content_line, previous_of, texts, tokens, with_field,
    with_line, with_lines, FieldKey,
};
use crate::segment::{
    blame_records, blobs_of, content_line_count, headless_blob, lead_len, lemma_lead_len_bounds,
    records_of, views,
};
use vstd::prelude::*;

verus! {

/// Whether the body of a blob passes over `line`: it is no content line, and
/// either its key is none of the known keys, or it has no space and is not
/// the word `boundary`.
pub open spec fn is_ignored(line: Seq<char>) -> bool {
    let n = run_len(line, CharClass::Not(' ')) as int;
    !is_content_line(line) && if n < line.len() {
        FieldKey::of_name(line.take(n)) is None
    } else {
        line != "boundary"@
    }
}

/// The previous commit and path that `line` sets, if it sets them: `line` is
/// a `previous` line whose value holds a space.
pub open spec fn previous_in(line: Seq<char>) -> Option<(Seq<char>, Seq<char>)> {
    let n = run_len(line, CharClass::Not(' ')) as int;
    if !is_content_line(line) && n < line.len() && FieldKey::of_name(line.take(n)) == Some(
        FieldKey::Previous,
    ) {
        previous_of(line.skip(n + 1))
    } else {
        None
    }
}

/// Whether two blames agree in every field.
pub open spec fn same_fields(a: Blame, b: Blame) -> bool {
    &&& a.commit@ == b.commit@
    &&& a.original_line_no == b.original_line_no
    &&& a.final_line_no == b.final_line_no
    &&& a.filename@ == b.filename@
    &&& a.summary@ == b.summary@
    &&& a.content@ == b.content@
    &&& a.previous_commit is Some <==> b.previous_commit is Some
    &&& a.previous_commit is Some ==> a.previous_commit->0@ == b.previous_commit->0@
    &&& a.previous_filepath is Some <==> b.previous_filepath is Some
    &&& a.previous_filepath is Some ==> a.previous_filepath->0@ == b.previous_filepath->0@
    &&& a.boundary == b.boundary
    &&& a.author@ == b.author@
    &&& a.author_mail@ == b.author_mail@
    &&& a.author_time == b.author_time
    &&& a.author_tz@ == b.author_tz@
    &&& a.committer@ == b.committer@
    &&& a.committer_mail@ == b.committer_mail@
    &&& a.committer_time == b.committer_time
    &&& a.committer_tz@ == b.committer_tz@
}

/// The word `boundary` is eight characters, none of them a space or a tab.
proof fn lemma_boundary_word()
    ensures
        "boundary"@.len() == 8,
        !is_content_line("boundary"@),
        run_len("boundary"@, CharClass::Not(' ')) == 8,
{
    reveal_strlit("boundary");
    lemma_run_len_is("boundary"@, CharClass::Not(' '), 8);
}

/// Every key is found again under its name, and no name holds a space, starts
/// with a tab or is empty.
pub proof fn law_key_names(key: FieldKey)
    ensures
        FieldKey::of_name(key.name()) == Some(key),
        key.name().len() > 0,
        key.name()[0] != '\t',
        forall|i: int| 0 <= i < key.name().len() ==> key.name()[i] != ' ',
{
    reveal_strlit("filename");
    reveal_strlit("summary");
    reveal_strlit("author");
    reveal_strlit("author-mail");
    reveal_strlit("author-time");
    reveal_strlit("author-tz");
    reveal_strlit("committer");
    reveal_strlit("committer-mail");
    reveal_strlit("committer-time");
    reveal_strlit("committer-tz");
    reveal_strlit("previous");
    assert("filename"@.len() == 8 && "filename"@[0] == 'f');
    assert("summary"@.len() == 7);
    assert("author"@.len() == 6);
    assert("author-mail"@.len() == 11 && "author-mail"@[7] == 'm');
    assert("author-time"@.len() == 11 && "author-time"@[7] == 't');
    assert("author-tz"@.len() == 9 && "author-tz"@[0] == 'a');
    assert("committer"@.len() == 9 && "committer"@[0] == 'c');
    assert("committer-mail"@.len() == 14 && "committer-mail"@[10] == 'm');
    assert("committer-time"@.len() == 14 && "committer-time"@[10] == 't');
    assert("committer-tz"@.len() == 12);
    assert("previous"@.len() == 8 && "previous"@[0] == 'p');
}

/// A line made of a key's name, a space and a value stores the value in the
/// field of that key.
pub proof fn law_key_line(r: Record, key: FieldKey, value: Seq<char>)
    ensures
        with_line(r, key.name() + seq![' '] + value) == with_field(r, key, value),
{
    let name = key.name();
    let line = name + seq![' '] + value;
    let n = name.len() as int;
    law_key_names(key);
    assert(line[0] == name[0]);
    assert forall|i: int| 0 <= i < n implies CharClass::Not(' ').holds(#[trigger] line[i]) by {
        assert(line[i] == name[i]);
    }
    assert(line[n] == ' ');
    lemma_run_len_is(line, CharClass::Not(' '), n);
    assert(line.take(n) == name);
    assert(line.skip(n + 1) == value);
}

/// A `previous` line with a commit, a space and a path sets both: the
/// commit is what stands in front of the first space of the value.
pub proof fn law_previous_line_sets_both(r: Record, commit: Seq<char>, path: Seq<char>)
    requires
        forall|i: int| 0 <= i < commit.len() ==> commit[i] != ' ',
    ensures
        with_line(r, "previous"@ + seq![' '] + (commit + seq![' '] + path)) == (Record {
            previous: Some((commit, path)),
            ..r
        }),
{
    let value = commit + seq![' '] + path;
    let n = commit.len() as int;
    law_key_line(r, FieldKey::Previous, value);
    assert forall|i: int| 0 <= i < n implies CharClass::Not(' ').holds(#[trigger] value[i]) by {
        assert(value[i] == commit[i]);
    }
    assert(value[n] == ' ');
    lemma_run_len_is(value, CharClass::Not(' '), n);
    assert(value.take(n) == commit);
    assert(value.skip(n + 1) == path);
}

/// A `previous` line whose value holds no space sets neither the commit nor
/// the path, and neither does the word `previous` alone.
pub proof fn law_previous_line_without_path(r: Record, value: Seq<char>)
    requires
        forall|i: int| 0 <= i < value.len() ==> value[i] != ' ',
    ensures
        with_line(r, "previous"@ + seq![' '] + value) == r,
        with_line(r, "previous"@) == r,
{
    law_key_line(r, FieldKey::Previous, value);
    lemma_run_len_is(value, CharClass::Not(' '), value.len() as int);
    reveal_strlit("previous");
    reveal_strlit("boundary");
    lemma_run_len_is("previous"@, CharClass::Not(' '), 8);
}

/// A line that the body passes over leaves the record as it was.
pub proof fn law_ignored_line(r: Record, line: Seq<char>)
    requires
        is_ignored(line),
    ensures
        with_line(r, line) == r,
{
}

/// Reading two runs of lines one after the other is reading their
/// concatenation.
pub proof fn lemma_with_lines_concat(r: Record, a: Seq<Seq<char>>, b: Seq<Seq<char>>)
    ensures
        with_lines(r, a + b) == with_lines(with_lines(r, a), b),
    decreases b.len(),
{
    if b.len() == 0 {
        assert(a + b == a);
    } else {
        lemma_with_lines_concat(r, a, b.drop_last());
        assert((a + b).drop_last() == a + b.drop_last());
        assert((a + b).last() == b.last());
    }
}

/// Reading one line is reading the run that holds it alone.
pub proof fn lemma_with_lines_one(r: Record, line: Seq<char>)
    ensures
        with_lines(r, seq![line]) == with_line(r, line),
{
    let one = seq![line];
    assert(one.drop_last() == Seq::<Seq<char>>::empty());
    assert(with_lines(r, one.drop_last()) == r);
    assert(one.last() == line);
}

/// A line that the body passes over can be put anywhere behind the header of
/// a blob: the blob describes the same record as without it.
pub proof fn law_ignored_line_anywhere(blob: Seq<Seq<char>>, i: int, line: Seq<char>)
    requires
        1 <= i <= blob.len(),
        is_ignored(line),
    ensures
        blob_record(blob.insert(i, line)) == blob_record(blob),
{
    let longer = blob.insert(i, line);
    assert(longer[0] == blob[0]);
    if header_record(blob[0]) is Some {
        let r = header_record(blob[0])->0;
        let body = blob.skip(1);
        let front = body.take(i - 1);
        let back = body.skip(i - 1);
        assert(longer.skip(1) == front + seq![line] + back);
        assert(body == front + back);
        lemma_with_lines_concat(r, front + seq![line], back);
        lemma_with_lines_concat(r, front, seq![line]);
        lemma_with_lines_concat(r, front, back);
        lemma_with_lines_one(with_lines(r, front), line);
    }
}

/// A line sets the boundary flag if it is the word `boundary`, and no line
/// clears it.
pub proof fn lemma_with_line_boundary(r: Record, line: Seq<char>)
    ensures
        with_line(r, line).boundary == (r.boundary || line == "boundary"@),
{
    lemma_boundary_word();
}

/// After a run of lines the boundary flag is set if it was set before or one
/// of the lines is the word `boundary`.
pub proof fn lemma_with_lines_boundary(r: Record, lines: Seq<Seq<char>>)
    ensures
        with_lines(r, lines).boundary == (r.boundary || exists|i: int|
            0 <= i < lines.len() && lines[i] == "boundary"@),
    decreases lines.len(),
{
    if lines.len() > 0 {
        let front = lines.drop_last();
        lemma_with_lines_boundary(r, front);
        lemma_with_line_boundary(with_lines(r, front), lines.last());
        if with_lines(r, lines).boundary && !r.boundary {
            if lines.last() == "boundary"@ {
                assert(lines[lines.len() - 1] == "boundary"@);
            } else {
                let i = choose|i: int| 0 <= i < front.len() && front[i] == "boundary"@;
                assert(lines[i] == "boundary"@);
            }
        }
        if exists|i: int| 0 <= i < lines.len() && lines[i] == "boundary"@ {
            let i = choose|i: int| 0 <= i < lines.len() && lines[i] == "boundary"@;
            if i < front.len() {
                assert(front[i] == "boundary"@);
            }
        }
    }
}

/// The record of a blob marks a boundary exactly if a line behind the header
/// is the word `boundary`.
pub proof fn law_boundary(blob: Seq<Seq<char>>)
    requires
        blob_record(blob) is Some,
    ensures
        blob_record(blob)->0.boundary <==> exists|i: int|
            1 <= i < blob.len() && blob[i] == "boundary"@,
{
    let r = header_record(blob[0])->0;
    let body = blob.skip(1);
    lemma_with_lines_boundary(r, body);
    if exists|i: int| 0 <= i < body.len() && body[i] == "boundary"@ {
        let i = choose|i: int| 0 <= i < body.len() && body[i] == "boundary"@;
        assert(blob[i + 1] == "boundary"@);
    }
    if exists|i: int| 1 <= i < blob.len() && blob[i] == "boundary"@ {
        let i = choose|i: int| 1 <= i < blob.len() && blob[i] == "boundary"@;
        assert(body[i - 1] == "boundary"@);
    }
}

/// A line replaces the previous commit and path if it sets them, and leaves
/// them as they were if it does not.
pub proof fn lemma_with_line_previous(r: Record, line: Seq<char>)
    ensures
        with_line(r, line).previous == if previous_in(line) is Some {
            previous_in(line)
        } else {
            r.previous
        },
{
}

/// After a run of lines there is a previous commit if there was one before or
/// one of the lines sets it.
pub proof fn lemma_with_lines_previous(r: Record, lines: Seq<Seq<char>>)
    ensures
        with_lines(r, lines).previous is Some <==> r.previous is Some || exists|i: int|
            0 <= i < lines.len() && previous_in(lines[i]) is Some,
    decreases lines.len(),
{
    if lines.len() > 0 {
        let front = lines.drop_last();
        lemma_with_lines_previous(r, front);
        lemma_with_line_previous(with_lines(r, front), lines.last());
        if with_lines(r, lines).previous is Some && !(r.previous is Some) {
            if previous_in(lines.last()) is Some {
                assert(previous_in(lines[lines.len() - 1]) is Some);
            } else {
                let i = choose|i: int| 0 <= i < front.len() && previous_in(front[i]) is Some;
                assert(previous_in(lines[i]) is Some);
            }
        }
        if exists|i: int| 0 <= i < lines.len() && previous_in(lines[i]) is Some {
            let i = choose|i: int| 0 <= i < lines.len() && previous_in(lines[i]) is Some;
            if i < front.len() {
                assert(previous_in(front[i]) is Some);
            }
        }
    }
}

/// The record of a blob has a previous commit and path exactly if a line
/// behind the header sets them.
pub proof fn law_previous(blob: Seq<Seq<char>>)
    requires
        blob_record(blob) is Some,
    ensures
        blob_record(blob)->0.previous is Some <==> exists|i: int|
            1 <= i < blob.len() && previous_in(blob[i]) is Some,
{
    let r = header_record(blob[0])->0;
    let body = blob.skip(1);
    lemma_with_lines_previous(r, body);
    if exists|i: int| 0 <= i < body.len() && previous_in(body[i]) is Some {
        let i = choose|i: int| 0 <= i < body.len() && previous_in(body[i]) is Some;
        assert(previous_in(blob[i + 1]) is Some);
    }
    if exists|i: int| 1 <= i < blob.len() && previous_in(blob[i]) is Some {
        let i = choose|i: int| 1 <= i < blob.len() && previous_in(blob[i]) is Some;
        assert(previous_in(body[i - 1]) is Some);
    }
}

/// No line changes the commit or the line numbers that the header gave.
pub proof fn law_header_fields_stay(r: Record, lines: Seq<Seq<char>>)
    ensures
        with_lines(r, lines).commit == r.commit,
        with_lines(r, lines).original_line_no == r.original_line_no,
        with_lines(r, lines).final_line_no == r.final_line_no,
    decreases lines.len(),
{
    if lines.len() > 0 {
        law_header_fields_stay(r, lines.drop_last());
    }
}

/// The content of a record is what follows the tab of the last content line
/// of the body.
pub proof fn law_last_content_line_wins(r: Record, lines: Seq<Seq<char>>, i: int)
    requires
        0 <= i < lines.len(),
        is_content_line(lines[i]),
        forall|j: int| i < j < lines.len() ==> !is_content_line(lines[j]),
    ensures
        with_lines(r, lines).content == lines[i].drop_first(),
    decreases lines.len(),
{
    let front = lines.drop_last();
    if i < lines.len() - 1 {
        assert(front[i] == lines[i]);
        assert forall|j: int| i < j < front.len() implies !is_content_line(front[j]) by {
            assert(front[j] == lines[j]);
        }
        law_last_content_line_wins(r, front, i);
        assert(!is_content_line(lines.last()));
    }
}

/// A blob describes a record exactly if it has a header with a word in it.
pub proof fn law_no_header(blob: Seq<Seq<char>>)
    ensures
        blob_record(blob) is None <==> blob.len() == 0 || tokens(blob[0]).len() == 0,
{
}

/// Every word is non-empty and free of whitespace.
pub proof fn law_tokens_are_words(s: Seq<char>, i: int)
    requires
        0 <= i < tokens(s).len(),
    ensures
        tokens(s)[i].len() > 0,
        forall|j: int|
            0 <= j < tokens(s)[i].len() ==> !crate::chars::is_whitespace(tokens(s)[i][j]),
    decreases s.len(),
{
    let start = run_len(s, CharClass::Whitespace) as int;
    lemma_run_len_bounds(s, CharClass::Whitespace);
    let word = s.skip(start);
    lemma_run_len_bounds(word, CharClass::NonWhitespace);
    let n = run_len(word, CharClass::NonWhitespace) as int;
    assert(word[0] == s[start]);
    if i == 0 {
        assert forall|j: int| 0 <= j < word.take(n).len() implies !crate::chars::is_whitespace(
            word.take(n)[j],
        ) by {
            assert(CharClass::NonWhitespace.holds(word[j]));
        }
    } else {
        assert(tokens(s)[i] == tokens(word.skip(n))[i - 1]);
        law_tokens_are_words(word.skip(n), i - 1);
    }
}

/// Two blames that say the same, each with its previous commit and path
/// together, agree in every field.
pub proof fn law_view_fixes_fields(a: Blame, b: Blame)
    requires
        a.previous_paired(),
        b.previous_paired(),
        a@ == b@,
    ensures
        same_fields(a, b),
{
}

/// Parsing one blob is deterministic: whatever two parses of blobs with the
/// same text return, they return the same blame field for field, or both
/// fail.
pub proof fn law_blob_parse_deterministic(
    first: Seq<&str>,
    second: Seq<&str>,
    a: Option<Blame>,
    b: Option<Blame>,
)
    requires
        texts(first) == texts(second),
        a is Some ==> a->0.wf() && blob_record(texts(first)) == Some(a->0@),
        a is None ==> blob_record(texts(first)) is None,
        b is Some ==> b->0.wf() && blob_record(texts(second)) == Some(b->0@),
        b is None ==> blob_record(texts(second)) is None,
    ensures
        a is Some <==> b is Some,
        a is Some ==> same_fields(a->0, b->0),
{
}

/// Parsing a text is deterministic: whatever two parses of the same text
/// return, they return as many blames, the same field for field and in the
/// same order, or both fail.
pub proof fn law_parse_deterministic(
    first: Seq<char>,
    second: Seq<char>,
    a: Option<Seq<Blame>>,
    b: Option<Seq<Blame>>,
)
    requires
        first == second,
        a is Some ==> blame_records(first) == Some(views(a->0)),
        a is Some ==> forall|i: int| 0 <= i < a->0.len() ==> (#[trigger] a->0[i]).wf(),
        a is None ==> blame_records(first) is None,
        b is Some ==> blame_records(second) == Some(views(b->0)),
        b is Some ==> forall|i: int| 0 <= i < b->0.len() ==> (#[trigger] b->0[i]).wf(),
        b is None ==> blame_records(second) is None,
    ensures
        a is Some <==> b is Some,
        a is Some ==> a->0.len() == b->0.len(),
        a is Some ==> forall|i: int|
            0 <= i < a->0.len() ==> same_fields(#[trigger] a->0[i], b->0[i]),
{
    if a is Some {
        let x = a->0;
        let y = b->0;
        assert(views(x) == views(y));
        assert(x.len() == views(x).len());
        assert forall|i: int| 0 <= i < x.len() implies same_fields(#[trigger] x[i], y[i]) by {
            assert(views(x)[i] == x[i]@);
            assert(views(y)[i] == y[i]@);
            assert(y[i].wf());
        }
    }
}

/// No line holds a line feed.
pub proof fn law_lines_hold_no_line_feed(text: Seq<char>, i: int, j: int)
    requires
        0 <= i < lines_of(text).len(),
        0 <= j < lines_of(text)[i].len(),
    ensures
        lines_of(text)[i][j] != '\n',
    decreases text.len(),
{
    let n = run_len(text, CharClass::Not('\n')) as int;
    lemma_run_len_bounds(text, CharClass::Not('\n'));
    if n >= text.len() {
        assert(CharClass::Not('\n').holds(text[j]));
    } else if i == 0 {
        assert(CharClass::Not('\n').holds(text[j]));
        assert(text.take(n)[j] == text[j]);
    } else {
        assert(lines_of(text)[i] == lines_of(text.skip(n + 1))[i - 1]);
        law_lines_hold_no_line_feed(text.skip(n + 1), i - 1, j);
    }
}

/// An empty text has no line, no blob and no record: parsing it gives an
/// empty sequence, not an error.
pub proof fn law_empty_text()
    ensures
        lines_of(Seq::<char>::empty()) == Seq::<Seq<char>>::empty(),
        blame_records(Seq::<char>::empty()) == Some(Seq::<Record>::empty()),
{
    let lines = lines_of(Seq::<char>::empty());
    assert(lines.len() == 0);
    let blobs = blobs_of(lines);
    assert(blobs.len() == 0);
    assert(records_of(blobs)->0 == Seq::<Record>::empty());
}

/// How the blobs of some lines follow from the blobs of the lines behind the
/// first: a content line in front is a blob of its own; any other line joins
/// the first blob behind it, and is dropped where no blob is behind it.
proof fn lemma_blobs_of_step(lines: Seq<Seq<char>>)
    requires
        lines.len() > 0,
    ensures
        is_content_line(lines[0]) ==> blobs_of(lines) == seq![seq![lines[0]]] + blobs_of(
            lines.drop_first(),
        ),
        !is_content_line(lines[0]) && blobs_of(lines.drop_first()).len() == 0 ==> blobs_of(
            lines,
        ).len() == 0,
        !is_content_line(lines[0]) && blobs_of(lines.drop_first()).len() > 0 ==> blobs_of(lines)
            == seq![seq![lines[0]] + blobs_of(lines.drop_first())[0]] + blobs_of(
            lines.drop_first(),
        ).drop_first(),
{
    let rest = lines.drop_first();
    if is_content_line(lines[0]) {
        assert(lines.take(1) == seq![lines[0]]);
        assert(lines.skip(1) == rest);
    } else {
        let m = lead_len(rest) as int;
        lemma_lead_len_bounds(rest);
        if m < rest.len() {
            assert(lines.take(m + 2) == seq![lines[0]] + rest.take(m + 1));
            assert(lines.skip(m + 2) == rest.skip(m + 1));
            let tail = blobs_of(rest.skip(m + 1));
            assert(blobs_of(rest) == seq![rest.take(m + 1)] + tail);
            assert(blobs_of(rest).drop_first() == tail);
            assert(blobs_of(rest)[0] == rest.take(m + 1));
        }
    }
}

/// There are as many blobs as content lines.
pub proof fn law_blob_count(lines: Seq<Seq<char>>)
    ensures
        blobs_of(lines).len() == content_line_count(lines),
    decreases lines.len(),
{
    if lines.len() > 0 {
        law_blob_count(lines.drop_first());
        lemma_blobs_of_step(lines);
        lemma_no_blob_without_content_line(lines.drop_first());
    }
}

/// Lines without a blob hold no content line.
proof fn lemma_no_blob_without_content_line(lines: Seq<Seq<char>>)
    ensures
        blobs_of(lines).len() == 0 <==> content_line_count(lines) == 0,
    decreases lines.len(),
{
    if lines.len() > 0 {
        lemma_no_blob_without_content_line(lines.drop_first());
        lemma_blobs_of_step(lines);
    }
}

/// The blobs keep the order of the lines: put end to end they are the lines
/// up to the last content line, and no line behind them is a content line.
/// Every blob ends with a content line and holds no other.
pub proof fn law_blobs_in_order(lines: Seq<Seq<char>>)
    ensures
        blobs_of(lines).flatten().len() <= lines.len(),
        blobs_of(lines).flatten() == lines.take(blobs_of(lines).flatten().len() as int),
        forall|i: int|
            blobs_of(lines).flatten().len() <= i < lines.len() ==> !is_content_line(
                #[trigger] lines[i],
            ),
        forall|k: int|
            0 <= k < blobs_of(lines).len() ==> {
                let blob = #[trigger] blobs_of(lines)[k];
                &&& blob.len() > 0
                &&& is_content_line(blob.last())
                &&& forall|j: int| 0 <= j < blob.len() - 1 ==> !is_content_line(#[trigger] blob[j])
            },
    decreases lines.len(),
{
    let n = lead_len(lines) as int;
    lemma_lead_len_bounds(lines);
    let blobs = blobs_of(lines);
    if n < lines.len() {
        let first = lines.take(n + 1);
        let rest = lines.skip(n + 1);
        law_blobs_in_order(rest);
        let later = blobs_of(rest);
        assert(blobs == seq![first] + later);
        assert(blobs.first() == first);
        assert(blobs.drop_first() == later);
        let joined = blobs.flatten();
        assert(joined == first + later.flatten());
        let m = later.flatten().len() as int;
        assert(joined == lines.take(n + 1 + m)) by {
            assert(later.flatten() == rest.take(m));
            assert(first + rest.take(m) == lines.take(n + 1 + m));
        }
        assert forall|i: int| joined.len() <= i < lines.len() implies !is_content_line(
            #[trigger] lines[i],
        ) by {
            assert(lines[i] == rest[i - (n + 1)]);
        }
        assert forall|k: int| 0 <= k < blobs.len() implies {
            let blob = #[trigger] blobs[k];
            &&& blob.len() > 0
            &&& is_content_line(blob.last())
            &&& forall|j: int| 0 <= j < blob.len() - 1 ==> !is_content_line(#[trigger] blob[j])
        } by {
            if k == 0 {
                assert(first.last() == lines[n]);
            } else {
                assert(blobs[k] == later[k - 1]);
            }
        }
    } else {
        assert(blobs.flatten() == Seq::<Seq<char>>::empty());
        assert(lines.take(0) == Seq::<Seq<char>>::empty());
    }
}

/// A text gives one record for each content line among its lines, unless a
/// blob has a header without a word.
pub proof fn law_record_count(text: Seq<char>)
    requires
        blame_records(text) is Some,
    ensures
        blame_records(text)->0.len() == content_line_count(lines_of(text)),
{
    law_blob_count(lines_of(text));
}

/// The records come in the order of the blobs: each is the record of the blob
/// at its place.
pub proof fn law_records_in_order(text: Seq<char>, k: int)
    requires
        blame_records(text) is Some,
        0 <= k < blame_records(text)->0.len(),
    ensures
        k < blobs_of(lines_of(text)).len(),
        blob_record(blobs_of(lines_of(text))[k]) == Some(blame_records(text)->0[k]),
{
}

/// The parse of a text fails exactly if one of its blobs has a header
/// without a word.
pub proof fn law_parse_fails(text: Seq<char>)
    ensures
        blame_records(text) is None <==> headless_blob(lines_of(text)),
{
    let blobs = blobs_of(lines_of(text));
    law_blobs_in_order(lines_of(text));
    if blame_records(text) is None {
        let k = choose|k: int| 0 <= k < blobs.len() && !(#[trigger] blob_record(blobs[k]) is Some);
        assert(blobs[k].len() > 0);
        assert(tokens(blobs[k][0]).len() == 0);
    }
    if exists|k: int| 0 <= k < blobs.len() && tokens((#[trigger] blobs[k])[0]).len() == 0 {
        let k = choose|k: int| 0 <= k < blobs.len() && tokens((#[trigger] blobs[k])[0]).len() == 0;
        assert(blob_record(blobs[k]) is None);
    }
}

} // verus!
