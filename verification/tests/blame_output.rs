use git_blame_parser::{parse, Blame};

const FIRST_BLOB: &str = "c9a79e91e05355fc42ec519593806466c2f66de0 1 1 3
author mitsu-ksgr
author-mail <mitsu-ksgr@users.noreply.github.com>
author-time 1744981061
author-tz +0900
committer GitHub
committer-mail <noreply@github.com>
committer-time 1744981061
committer-tz +0900
summary Update README.md
previous 5d31b11bd146562bb1b472e1334233a6a8ef66e5 README.md
filename README.md
\t<div align=\"center\">
";

const ONE_LINE: &str = "6cebf082a694d9dec6c1928531fcb649791885ec 1 1 1
author mitsu-ksgr
author-mail <mitsu-ksgr@users.noreply.github.com>
author-time 1744898015
author-tz +0900
committer mitsu-ksgr
committer-mail <mitsu-ksgr@users.noreply.github.com>
committer-time 1744898015
committer-tz +0900
summary Initial commit
boundary
filename README.md
\t# git-blame-parser
";

const NOT_COMMITTED: &str = "0000000000000000000000000000000000000000 1 1 1
author Not Committed Yet
author-mail <not.committed.yet>
author-time 1745000000
author-tz +0900
committer Not Committed Yet
committer-mail <not.committed.yet>
committer-time 1745000000
committer-tz +0900
summary Version of README.md from README.md
previous 6cebf082a694d9dec6c1928531fcb649791885ec README.md
filename README.md
\t# git-blame-parser (work in progress)
";

/// A blame of a file of 43 lines: the first line from one commit, the others
/// from its parent.
fn sample_blame() -> String {
    let mut text = String::from(FIRST_BLOB);
    for line in 2..=43 {
        text.push_str(&format!(
            "5d31b11bd146562bb1b472e1334233a6a8ef66e5 {} {}\n",
            line, line
        ));
        text.push_str("author mitsu-ksgr\n");
        text.push_str("author-mail <mitsu-ksgr@users.noreply.github.com>\n");
        text.push_str("author-time 1744898015\n");
        text.push_str("author-tz +0900\n");
        text.push_str("committer mitsu-ksgr\n");
        text.push_str("committer-mail <mitsu-ksgr@users.noreply.github.com>\n");
        text.push_str("committer-time 1744898015\n");
        text.push_str("committer-tz +0900\n");
        text.push_str("summary Add README.md\n");
        text.push_str("filename README.md\n");
        text.push_str(&format!("\tline {} of the file\n", line));
    }
    text
}

#[test]
fn it_works() {
    let raw_blame = sample_blame();

    let blames = parse(&raw_blame);
    assert!(blames.is_ok());

    let blames = blames.unwrap();
    assert_eq!(blames.len(), 43);

    let first = blames.first().unwrap();

    assert_eq!(first.commit, "c9a79e91e05355fc42ec519593806466c2f66de0");
    assert_eq!(first.original_line_no, 1);
    assert_eq!(first.final_line_no, 1);
    assert_eq!(first.boundary, false);

    assert_eq!(first.filename, "README.md");
    assert_eq!(first.summary, "Update README.md");
    assert_eq!(first.content, "<div align=\"center\">");

    assert_eq!(first.author, "mitsu-ksgr");
    assert_eq!(first.author_mail, "<mitsu-ksgr@users.noreply.github.com>");
    assert_eq!(first.author_time, 1744981061);
    assert_eq!(first.author_tz, "+0900");

    assert_eq!(first.committer, "GitHub");
    assert_eq!(first.committer_mail, "<noreply@github.com>");
    assert_eq!(first.committer_time, 1744981061);
    assert_eq!(first.committer_tz, "+0900");

    assert!(first.previous_commit.is_some());
    assert!(first.previous_filepath.is_some());

    let prev_commit = first.previous_commit.as_ref().unwrap();
    let prev_filepath = first.previous_filepath.as_ref().unwrap();
    assert_eq!(prev_commit, "5d31b11bd146562bb1b472e1334233a6a8ef66e5");
    assert_eq!(prev_filepath, "README.md");
}

#[test]
fn one_line_blame() {
    let blames = parse(ONE_LINE);
    assert!(blames.is_ok());

    let blames = blames.unwrap();
    assert_eq!(blames.len(), 1);

    let first = blames.first().unwrap();
    assert_eq!(first.commit, "6cebf082a694d9dec6c1928531fcb649791885ec");
    assert_eq!(first.original_line_no, 1);
    assert_eq!(first.final_line_no, 1);
    assert_eq!(first.boundary, true);
    assert_eq!(first.summary, "Initial commit");
    assert_eq!(first.content, "# git-blame-parser");
}

#[test]
fn no_commited_yet() {
    let blames = parse(NOT_COMMITTED);
    assert!(blames.is_ok());

    let blames = blames.unwrap();
    let first = blames.first().unwrap();
    assert_eq!(first.commit, "0000000000000000000000000000000000000000");
    assert_eq!(first.author, "Not Committed Yet");
    assert_eq!(first.author_mail, "<not.committed.yet>");
    assert_eq!(first.committer, "Not Committed Yet");
    assert_eq!(first.committer_mail, "<not.committed.yet>");
}

#[test]
fn test_shor_commit() {
    let mut blame = Blame::default();
    blame.commit = String::from("abcdefghijklmnopqrstuvwxyz1234567890abcd");

    assert_eq!(blame.short_commit(), "abcdefg");
}

#[test]
fn sample_blame_keeps_the_order_of_the_lines() {
    let blames = parse(&sample_blame()).unwrap();
    for (i, blame) in blames.iter().enumerate() {
        assert_eq!(blame.final_line_no, i + 1);
        assert_eq!(blame.original_line_no, i + 1);
        if i > 0 {
            assert_eq!(blame.commit, "5d31b11bd146562bb1b472e1334233a6a8ef66e5");
            assert_eq!(blame.content, format!("line {} of the file", i + 1));
            assert_eq!(blame.summary, "Add README.md");
            assert_eq!(blame.author_time, 1744898015);
            assert!(blame.previous_commit.is_none());
            assert!(blame.previous_filepath.is_none());
        }
    }
}

#[test]
fn not_committed_lines_keep_their_placeholders() {
    let blames = parse(NOT_COMMITTED).unwrap();
    assert_eq!(blames.len(), 1);
    let blame = &blames[0];
    assert_eq!(blame.commit, "0000000000000000000000000000000000000000");
    assert_eq!(blame.commit.len(), 40);
    assert_eq!(blame.short_commit(), "0000000");
    assert_eq!(blame.author, "Not Committed Yet");
    assert_eq!(blame.author_mail, "<not.committed.yet>");
    assert_eq!(blame.author_time, 1745000000);
    assert_eq!(blame.committer, "Not Committed Yet");
    assert_eq!(blame.committer_mail, "<not.committed.yet>");
    assert_eq!(blame.committer_time, 1745000000);
    assert_eq!(blame.summary, "Version of README.md from README.md");
    assert_eq!(
        blame.previous_commit.as_deref(),
        Some("6cebf082a694d9dec6c1928531fcb649791885ec")
    );
    assert_eq!(blame.previous_filepath.as_deref(), Some("README.md"));
    assert_eq!(blame.content, "# git-blame-parser (work in progress)");
    assert!(!blame.boundary);
}
