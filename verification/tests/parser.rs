use git_blame_parser::{parse, parse_one_blame, Blame};

fn assert_same(a: &Blame, b: &Blame) {
    assert_eq!(a.commit, b.commit);
    assert_eq!(a.original_line_no, b.original_line_no);
    assert_eq!(a.final_line_no, b.final_line_no);
    assert_eq!(a.filename, b.filename);
    assert_eq!(a.summary, b.summary);
    assert_eq!(a.content, b.content);
    assert_eq!(a.previous_commit, b.previous_commit);
    assert_eq!(a.previous_filepath, b.previous_filepath);
    assert_eq!(a.boundary, b.boundary);
    assert_eq!(a.author, b.author);
    assert_eq!(a.author_mail, b.author_mail);
    assert_eq!(a.author_time, b.author_time);
    assert_eq!(a.author_tz, b.author_tz);
    assert_eq!(a.committer, b.committer);
    assert_eq!(a.committer_mail, b.committer_mail);
    assert_eq!(a.committer_time, b.committer_time);
    assert_eq!(a.committer_tz, b.committer_tz);
}

const FULL_BLOB: [&str; 13] = [
    "1234567890abcdef1234567890abcdef12345678 12 15 2",
    "author A U Thor",
    "author-mail <author@example.com>",
    "author-time 1700000000",
    "author-tz -0500",
    "committer C O Mitter",
    "committer-mail <committer@example.com>",
    "committer-time 1700000100",
    "committer-tz +0130",
    "summary Fix the  frobnicator ",
    "previous fedcba0987654321fedcba0987654321fedcba09 src/old name.rs",
    "filename src/new name.rs",
    "\t    let x = 1; ",
];

#[test]
fn every_field_is_read() {
    let blame = parse_one_blame(&FULL_BLOB).unwrap();
    assert_eq!(blame.commit, "1234567890abcdef1234567890abcdef12345678");
    assert_eq!(blame.original_line_no, 12);
    assert_eq!(blame.final_line_no, 15);
    assert_eq!(blame.author, "A U Thor");
    assert_eq!(blame.author_mail, "<author@example.com>");
    assert_eq!(blame.author_time, 1700000000);
    assert_eq!(blame.author_tz, "-0500");
    assert_eq!(blame.committer, "C O Mitter");
    assert_eq!(blame.committer_mail, "<committer@example.com>");
    assert_eq!(blame.committer_time, 1700000100);
    assert_eq!(blame.committer_tz, "+0130");
    assert_eq!(blame.summary, "Fix the  frobnicator ");
    assert_eq!(
        blame.previous_commit.as_deref(),
        Some("fedcba0987654321fedcba0987654321fedcba09")
    );
    assert_eq!(blame.previous_filepath.as_deref(), Some("src/old name.rs"));
    assert_eq!(blame.filename, "src/new name.rs");
    assert_eq!(blame.content, "    let x = 1; ");
    assert!(!blame.boundary);
}

#[test]
fn parsing_twice_gives_the_same_record() {
    let a = parse_one_blame(&FULL_BLOB).unwrap();
    let b = parse_one_blame(&FULL_BLOB).unwrap();
    assert_same(&a, &b);

    let text = FULL_BLOB.join("\n") + "\n";
    let first = parse(&text).unwrap();
    let second = parse(&text.clone()).unwrap();
    assert_eq!(first.len(), 1);
    assert_eq!(second.len(), 1);
    assert_same(&first[0], &second[0]);
    assert_same(&first[0], &a);
}

#[test]
fn order_of_the_key_lines_does_not_matter() {
    let mut shuffled = FULL_BLOB.to_vec();
    shuffled[1..12].reverse();
    let a = parse_one_blame(&FULL_BLOB).unwrap();
    let b = parse_one_blame(&shuffled).unwrap();
    assert_same(&a, &b);
}

#[test]
fn previous_with_commit_and_path_sets_both() {
    let blame = parse_one_blame(&["abc 1 1", "previous def456 src/lib.rs", "\tx"]).unwrap();
    assert_eq!(blame.previous_commit.as_deref(), Some("def456"));
    assert_eq!(blame.previous_filepath.as_deref(), Some("src/lib.rs"));
}

#[test]
fn previous_path_may_hold_spaces() {
    let blame = parse_one_blame(&["abc 1 1", "previous def456 my file.txt ", "\tx"]).unwrap();
    assert_eq!(blame.previous_commit.as_deref(), Some("def456"));
    assert_eq!(blame.previous_filepath.as_deref(), Some("my file.txt "));
}

#[test]
fn previous_without_value_sets_neither() {
    let blame = parse_one_blame(&["abc 1 1", "previous", "\tx"]).unwrap();
    assert!(blame.previous_commit.is_none());
    assert!(blame.previous_filepath.is_none());
}

#[test]
fn previous_without_path_sets_neither() {
    let blame = parse_one_blame(&["abc 1 1", "previous def456", "\tx"]).unwrap();
    assert!(blame.previous_commit.is_none());
    assert!(blame.previous_filepath.is_none());

    let blame = parse_one_blame(&["abc 1 1", "previous ", "\tx"]).unwrap();
    assert!(blame.previous_commit.is_none());
    assert!(blame.previous_filepath.is_none());
}

#[test]
fn previous_with_empty_commit_or_path_still_sets_both() {
    let blame = parse_one_blame(&["abc 1 1", "previous  path", "\tx"]).unwrap();
    assert_eq!(blame.previous_commit.as_deref(), Some(""));
    assert_eq!(blame.previous_filepath.as_deref(), Some("path"));

    let blame = parse_one_blame(&["abc 1 1", "previous def456 ", "\tx"]).unwrap();
    assert_eq!(blame.previous_commit.as_deref(), Some("def456"));
    assert_eq!(blame.previous_filepath.as_deref(), Some(""));
}

#[test]
fn malformed_previous_keeps_an_earlier_one() {
    let blame = parse_one_blame(&[
        "abc 1 1",
        "previous def456 a.rs",
        "previous broken",
        "\tx",
    ])
    .unwrap();
    assert_eq!(blame.previous_commit.as_deref(), Some("def456"));
    assert_eq!(blame.previous_filepath.as_deref(), Some("a.rs"));
}

#[test]
fn unknown_key_is_dropped() {
    let mut with_unknown = FULL_BLOB.to_vec();
    with_unknown.insert(5, "tagger T A Gger");
    let a = parse_one_blame(&FULL_BLOB).unwrap();
    let b = parse_one_blame(&with_unknown).unwrap();
    assert_same(&a, &b);
}

#[test]
fn unknown_key_can_stand_anywhere_behind_the_header() {
    let a = parse_one_blame(&FULL_BLOB).unwrap();
    for at in 1..=FULL_BLOB.len() {
        for unknown in ["x-unknown value", "unknown", "Author someone", "author-name x", ""] {
            let mut blob = FULL_BLOB.to_vec();
            blob.insert(at, unknown);
            let b = parse_one_blame(&blob).unwrap();
            assert_same(&a, &b);
        }
    }
}

#[test]
fn keys_are_matched_exactly() {
    let blame = parse_one_blame(&[
        "abc 1 1",
        "Summary upper case",
        "summary: with a colon",
        " summary behind a space",
        "author-name nobody",
        "authors nobody",
        "filenames a b",
        "boundary yes",
        "Boundary",
        "boundary\t",
        "\tx",
    ])
    .unwrap();
    assert_eq!(blame.summary, "");
    assert_eq!(blame.author, "");
    assert_eq!(blame.filename, "");
    assert!(!blame.boundary);
    assert_eq!(blame.content, "x");
}

#[test]
fn key_with_empty_value() {
    let blame = parse_one_blame(&["abc 1 1", "summary first", "summary ", "\tx"]).unwrap();
    assert_eq!(blame.summary, "");
}

#[test]
fn later_key_line_overwrites_earlier() {
    let blame = parse_one_blame(&["abc 1 1", "author one", "author two", "\tx"]).unwrap();
    assert_eq!(blame.author, "two");
}

#[test]
fn key_without_space_is_dropped() {
    let blame = parse_one_blame(&["abc 1 1", "summary", "filename", "author", "\tx"]).unwrap();
    assert_eq!(blame.summary, "");
    assert_eq!(blame.filename, "");
    assert_eq!(blame.author, "");
}

#[test]
fn boundary_line_sets_boundary() {
    let blame = parse_one_blame(&["abc 1 1", "boundary", "\tx"]).unwrap();
    assert!(blame.boundary);
}

#[test]
fn no_boundary_line_leaves_boundary_false() {
    let blame = parse_one_blame(&["abc 1 1", "summary boundary", "\tboundary"]).unwrap();
    assert!(!blame.boundary);
    assert_eq!(blame.summary, "boundary");
    assert_eq!(blame.content, "boundary");
}

#[test]
fn boundary_in_the_header_does_not_count() {
    let blame = parse_one_blame(&["boundary", "\tx"]).unwrap();
    assert!(!blame.boundary);
    assert_eq!(blame.commit, "boundary");
}

#[test]
fn end_to_end_one_blob() {
    let blames = parse("abc123 1 1\nsummary Initial commit\nboundary\n\tHello\n").unwrap();
    assert_eq!(blames.len(), 1);
    let blame = &blames[0];
    assert_eq!(blame.commit, "abc123");
    assert_eq!(blame.original_line_no, 1);
    assert_eq!(blame.final_line_no, 1);
    assert_eq!(blame.summary, "Initial commit");
    assert!(blame.boundary);
    assert_eq!(blame.content, "Hello");
    assert_eq!(blame.short_commit(), "abc123");
}

#[test]
fn end_to_end_key_with_colon_is_unknown() {
    let blames = parse("abc123 1 1\nsummary: Initial commit\nboundary\n\tHello\n").unwrap();
    assert_eq!(blames.len(), 1);
    let blame = &blames[0];
    assert_eq!(blame.commit, "abc123");
    assert_eq!(blame.original_line_no, 1);
    assert_eq!(blame.final_line_no, 1);
    assert_eq!(blame.summary, "");
    assert!(blame.boundary);
    assert_eq!(blame.content, "Hello");
}

#[test]
fn empty_text_gives_no_blames() {
    let blames = parse("");
    assert!(blames.is_ok());
    assert_eq!(blames.unwrap().len(), 0);
}

#[test]
fn text_without_content_line_gives_no_blames() {
    assert_eq!(parse("\n").unwrap().len(), 0);
    assert_eq!(parse("abc 1 1\nauthor me\n").unwrap().len(), 0);
    assert_eq!(parse("   \n\n \n").unwrap().len(), 0);
    assert_eq!(parse("abc 1 1").unwrap().len(), 0);
}

#[test]
fn empty_blob_has_no_header() {
    let result = parse_one_blame(&[]);
    assert!(result.is_err());
    let error = result.unwrap_err();
    assert_eq!(error.message(), "no header");
    assert_eq!(error.to_string(), "Error parsing git-blame: no header");
}

#[test]
fn header_without_word_is_no_header() {
    for header in ["", " ", "\t", " \t \u{3000} ", "\r"] {
        let result = parse_one_blame(&[header, "author me", "\tx"]);
        assert!(result.is_err());
        assert_eq!(result.unwrap_err().message(), "no header");
    }
}

#[test]
fn blob_of_an_empty_content_line_fails_the_parse() {
    let result = parse("\t\n");
    assert!(result.is_err());
    assert_eq!(result.unwrap_err().message(), "no header");

    let result = parse("\t  \n");
    assert!(result.is_err());

    let result = parse("\n\tHello\n");
    assert!(result.is_err());
    assert_eq!(
        result.unwrap_err().to_string(),
        "Error parsing git-blame: no header"
    );
}

#[test]
fn one_bad_blob_fails_the_whole_parse() {
    let result = parse("abc 1 1\n\tfirst\n\t\ndef 2 2\n\tthird\n");
    assert!(result.is_err());
    let result = parse("abc 1 1\n\tfirst\ndef 2 2\n\tsecond\n \n\tthird\n");
    assert!(result.is_err());
}

#[test]
fn content_line_alone_is_its_own_header() {
    let blames = parse("\tHello\n").unwrap();
    assert_eq!(blames.len(), 1);
    assert_eq!(blames[0].commit, "Hello");
    assert_eq!(blames[0].content, "");
    assert_eq!(blames[0].original_line_no, 0);

    let blame = parse_one_blame(&["\tabc 4 5"]).unwrap();
    assert_eq!(blame.commit, "abc");
    assert_eq!(blame.original_line_no, 4);
    assert_eq!(blame.final_line_no, 5);
    assert_eq!(blame.content, "");
}

#[test]
fn blames_come_in_the_order_of_the_blobs() {
    let text = "aaa 1 1\n\tone\nbbb 2 2\nboundary\n\ttwo\nccc 7 3\nsummary s\n\tthree\n";
    let blames = parse(text).unwrap();
    assert_eq!(blames.len(), 3);
    assert_eq!(blames[0].commit, "aaa");
    assert_eq!(blames[0].content, "one");
    assert!(!blames[0].boundary);
    assert_eq!(blames[1].commit, "bbb");
    assert_eq!(blames[1].content, "two");
    assert!(blames[1].boundary);
    assert_eq!(blames[1].summary, "");
    assert_eq!(blames[2].commit, "ccc");
    assert_eq!(blames[2].original_line_no, 7);
    assert_eq!(blames[2].final_line_no, 3);
    assert_eq!(blames[2].content, "three");
    assert_eq!(blames[2].summary, "s");
    assert!(!blames[2].boundary);
}

#[test]
fn one_blame_for_each_content_line() {
    for n in 0..20usize {
        let mut text = String::new();
        for i in 0..n {
            text.push_str(&format!("c{} {} {}\n", i, i, i + 1));
            for _ in 0..(i % 3) {
                text.push_str("author someone\n");
            }
            text.push_str(&format!("\tcontent {}\n", i));
        }
        let markers = text.lines().filter(|l| l.starts_with('\t')).count();
        let blames = parse(&text).unwrap();
        assert_eq!(blames.len(), n);
        assert_eq!(blames.len(), markers);
        for (i, blame) in blames.iter().enumerate() {
            assert_eq!(blame.commit, format!("c{}", i));
            assert_eq!(blame.content, format!("content {}", i));
            assert_eq!(blame.final_line_no, i + 1);
        }
    }
}

#[test]
fn unfinished_last_blob_is_dropped() {
    let blames = parse("aaa 1 1\n\tone\nbbb 2 2\nauthor me\n").unwrap();
    assert_eq!(blames.len(), 1);
    assert_eq!(blames[0].commit, "aaa");
}

#[test]
fn last_line_needs_no_line_feed() {
    let blames = parse("aaa 1 1\n\tone").unwrap();
    assert_eq!(blames.len(), 1);
    assert_eq!(blames[0].content, "one");
}

#[test]
fn empty_content() {
    let blames = parse("aaa 1 1\n\t\n").unwrap();
    assert_eq!(blames.len(), 1);
    assert_eq!(blames[0].content, "");
    assert_eq!(blames[0].commit, "aaa");
}

#[test]
fn content_keeps_its_whitespace() {
    let blame = parse_one_blame(&["aaa 1 1", "\t\t  indented \t "]).unwrap();
    assert_eq!(blame.content, "\t  indented \t ");
    let blame = parse_one_blame(&["aaa 1 1", "\t key value"]).unwrap();
    assert_eq!(blame.content, " key value");
}

#[test]
fn last_content_line_wins() {
    let blame = parse_one_blame(&["aaa 1 1", "\tfirst", "author me", "\tsecond"]).unwrap();
    assert_eq!(blame.content, "second");
    assert_eq!(blame.author, "me");
}

#[test]
fn lines_behind_the_content_line_are_read_too() {
    let blame = parse_one_blame(&["aaa 1 1", "\tcontent", "summary late", "boundary"]).unwrap();
    assert_eq!(blame.content, "content");
    assert_eq!(blame.summary, "late");
    assert!(blame.boundary);
}

#[test]
fn header_with_commit_only() {
    let blame = parse_one_blame(&["abc", "\tx"]).unwrap();
    assert_eq!(blame.commit, "abc");
    assert_eq!(blame.original_line_no, 0);
    assert_eq!(blame.final_line_no, 0);
}

#[test]
fn header_with_one_line_number() {
    let blame = parse_one_blame(&["abc 17", "\tx"]).unwrap();
    assert_eq!(blame.original_line_no, 17);
    assert_eq!(blame.final_line_no, 0);
}

#[test]
fn header_numbers_that_are_no_numbers_are_zero() {
    let blame = parse_one_blame(&["abc x 12", "\tx"]).unwrap();
    assert_eq!(blame.original_line_no, 0);
    assert_eq!(blame.final_line_no, 12);

    let blame = parse_one_blame(&["abc 12 -3", "\tx"]).unwrap();
    assert_eq!(blame.original_line_no, 12);
    assert_eq!(blame.final_line_no, 0);

    let blame = parse_one_blame(&["abc 1.5 0x10", "\tx"]).unwrap();
    assert_eq!(blame.original_line_no, 0);
    assert_eq!(blame.final_line_no, 0);

    let blame = parse_one_blame(&["abc +7 007", "\tx"]).unwrap();
    assert_eq!(blame.original_line_no, 7);
    assert_eq!(blame.final_line_no, 7);

    let blame =
        parse_one_blame(&["abc 99999999999999999999999999 18446744073709551616", "\tx"]).unwrap();
    assert_eq!(blame.original_line_no, 0);
    assert_eq!(blame.final_line_no, 0);
}

#[test]
fn header_words_are_split_at_any_whitespace() {
    let blame = parse_one_blame(&["  \tabc \t 3\u{3000}4   5  ", "\tx"]).unwrap();
    assert_eq!(blame.commit, "abc");
    assert_eq!(blame.original_line_no, 3);
    assert_eq!(blame.final_line_no, 4);

    let blame = parse_one_blame(&["abc\u{a0}1\u{2003}2", "\tx"]).unwrap();
    assert_eq!(blame.commit, "abc");
    assert_eq!(blame.original_line_no, 1);
    assert_eq!(blame.final_line_no, 2);

    let blame = parse_one_blame(&["abc\u{200b}1 2", "\tx"]).unwrap();
    assert_eq!(blame.commit, "abc\u{200b}1");
    assert_eq!(blame.original_line_no, 2);
    assert_eq!(blame.final_line_no, 0);
}

#[test]
fn header_follows_the_standard_split() {
    for header in [
        "abc 1 2",
        "  abc   10   20   30 ",
        "\u{2028}x\u{2029}y\u{85}z",
        "a\u{1680}b\u{202f}c\u{205f}d",
        "é 1 2",
        "\u{b}abc\u{c}5\r6",
    ] {
        let words: Vec<&str> = header.split_whitespace().collect();
        let blame = parse_one_blame(&[header]).unwrap();
        assert_eq!(blame.commit, words[0]);
        assert_eq!(
            blame.original_line_no,
            words.get(1).map_or(0, |w| w.parse::<usize>().unwrap_or(0))
        );
        assert_eq!(
            blame.final_line_no,
            words.get(2).map_or(0, |w| w.parse::<usize>().unwrap_or(0))
        );
    }
}

#[test]
fn times_that_are_no_numbers_are_zero() {
    for (value, expected) in [
        ("1744981061", 1744981061u64),
        ("0", 0),
        ("+12", 12),
        ("0000000000000000000000042", 42),
        ("18446744073709551615", u64::MAX),
        ("18446744073709551616", 0),
        ("99999999999999999999", 0),
        ("-1", 0),
        ("", 0),
        ("+", 0),
        ("++1", 0),
        ("12 ", 0),
        (" 12", 0),
        ("1_000", 0),
        ("12a", 0),
        ("١٢", 0),
        ("1e3", 0),
    ] {
        let author = format!("author-time {}", value);
        let committer = format!("committer-time {}", value);
        let blame =
            parse_one_blame(&["abc 1 1", "author-time 5", "committer-time 6", &author, &committer])
                .unwrap();
        assert_eq!(blame.author_time, expected);
        assert_eq!(blame.committer_time, expected);
        assert_eq!(blame.author_time, value.parse::<u64>().unwrap_or(0));
    }
}

#[test]
fn carriage_returns_in_front_of_line_feeds_are_dropped() {
    let blames = parse("abc 1 2\r\nauthor me\r\nboundary\r\n\tHello\r\n").unwrap();
    assert_eq!(blames.len(), 1);
    assert_eq!(blames[0].commit, "abc");
    assert_eq!(blames[0].final_line_no, 2);
    assert_eq!(blames[0].author, "me");
    assert!(blames[0].boundary);
    assert_eq!(blames[0].content, "Hello");
}

#[test]
fn other_carriage_returns_stay() {
    let blames = parse("abc 1 2\nauthor me\r\r\n\tHel\rlo\r").unwrap();
    assert_eq!(blames.len(), 1);
    assert_eq!(blames[0].author, "me\r");
    assert_eq!(blames[0].content, "Hel\rlo\r");
}

#[test]
fn text_beyond_ascii() {
    let text = "abc 1 1\nauthor José Ünïcødé 日本語\nauthor-mail <josé@例え.jp>\nsummary ✨ sparkle — done\nprevious def pfad/zur/dätei.rs\nfilename 路径/文件.rs\n\tlet s = \"héllo 🌍\";\r\nxyz 2 2\nauthor Ωmega\n\t🌍\n";
    let blames = parse(text).unwrap();
    assert_eq!(blames.len(), 2);
    assert_eq!(blames[0].author, "José Ünïcødé 日本語");
    assert_eq!(blames[0].author_mail, "<josé@例え.jp>");
    assert_eq!(blames[0].summary, "✨ sparkle — done");
    assert_eq!(blames[0].previous_commit.as_deref(), Some("def"));
    assert_eq!(blames[0].previous_filepath.as_deref(), Some("pfad/zur/dätei.rs"));
    assert_eq!(blames[0].filename, "路径/文件.rs");
    assert_eq!(blames[0].content, "let s = \"héllo 🌍\";");
    assert_eq!(blames[1].commit, "xyz");
    assert_eq!(blames[1].author, "Ωmega");
    assert_eq!(blames[1].content, "🌍");
}

#[test]
fn parse_agrees_with_parsing_blob_by_blob() {
    let text = "aaa 1 1\nauthor a\n\tone\r\nbbb 2 2\nboundary\nprevious p q r\n\ttwo\nccc\n\t\n";
    let blames = parse(text).unwrap();
    let lines: Vec<&str> = text.lines().collect();
    let mut start = 0;
    let mut k = 0;
    for (i, line) in lines.iter().enumerate() {
        if line.starts_with('\t') {
            let one = parse_one_blame(&lines[start..=i]).unwrap();
            assert_same(&blames[k], &one);
            start = i + 1;
            k += 1;
        }
    }
    assert_eq!(k, blames.len());
    assert_eq!(k, 3);
}

#[test]
fn default_blame_is_empty() {
    let blame = Blame::default();
    assert_eq!(blame.commit, "");
    assert_eq!(blame.original_line_no, 0);
    assert_eq!(blame.final_line_no, 0);
    assert_eq!(blame.filename, "");
    assert_eq!(blame.summary, "");
    assert_eq!(blame.content, "");
    assert!(blame.previous_commit.is_none());
    assert!(blame.previous_filepath.is_none());
    assert!(!blame.boundary);
    assert_eq!(blame.author, "");
    assert_eq!(blame.author_mail, "");
    assert_eq!(blame.author_time, 0);
    assert_eq!(blame.author_tz, "");
    assert_eq!(blame.committer, "");
    assert_eq!(blame.committer_mail, "");
    assert_eq!(blame.committer_time, 0);
    assert_eq!(blame.committer_tz, "");
    assert_eq!(blame.short_commit(), "");
}

#[test]
fn short_commit_is_at_most_seven_characters() {
    for commit in [
        "",
        "a",
        "abcdef",
        "abcdefg",
        "abcdefgh",
        "0000000000000000000000000000000000000000",
        "ééééééééé",
        "日本語",
        "🌍🌍🌍🌍🌍🌍🌍🌍",
    ] {
        let mut blame = Blame::default();
        blame.commit = String::from(commit);
        let short = blame.short_commit();
        let expected: String = commit.chars().take(7).collect();
        assert_eq!(short, expected);
        assert_eq!(short.chars().count(), commit.chars().count().min(7));
        assert!(commit.starts_with(&short));
    }
}

#[test]
fn short_commit_exact_values() {
    let mut blame = Blame::default();
    blame.commit = String::from("abc123");
    assert_eq!(blame.short_commit(), "abc123");
    blame.commit = String::from("1234567");
    assert_eq!(blame.short_commit(), "1234567");
    blame.commit = String::from("12345678");
    assert_eq!(blame.short_commit(), "1234567");
    blame.commit = String::from("ééééééééé");
    assert_eq!(blame.short_commit(), "ééééééé");
}

#[test]
fn previous_gives_the_pair() {
    let blame = parse_one_blame(&["abc 1 1", "previous def456 src/lib.rs", "\tx"]).unwrap();
    assert_eq!(blame.previous(), Some(("def456", "src/lib.rs")));

    let blame = parse_one_blame(&["abc 1 1", "previous def456", "\tx"]).unwrap();
    assert_eq!(blame.previous(), None);

    let mut blame = Blame::default();
    assert_eq!(blame.previous(), None);
    blame.previous_commit = Some(String::from("def456"));
    assert_eq!(blame.previous(), None);
    blame.previous_filepath = Some(String::from("a.rs"));
    assert_eq!(blame.previous(), Some(("def456", "a.rs")));
    blame.previous_commit = None;
    assert_eq!(blame.previous(), None);
}
