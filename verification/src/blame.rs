//! The blame record of one source line, and the error of the parser.

use vstd::prelude::*;

verus! {

/// What a blame record says, as mathematical values.
///
/// The previous commit and the path the line had in it come as one optional
/// pair: a record has both or neither.
pub struct Record {
    pub commit: Seq<char>,
    pub original_line_no: nat,
    pub final_line_no: nat,
    pub filename: Seq<char>,
    pub summary: Seq<char>,
    pub content: Seq<char>,
    pub previous: Option<(Seq<char>, Seq<char>)>,
    pub boundary: bool,
    pub author: Seq<char>,
    pub author_mail: Seq<char>,
    pub author_time: nat,
    pub author_tz: Seq<char>,
    pub committer: Seq<char>,
    pub committer_mail: Seq<char>,
    pub committer_time: nat,
    pub committer_tz: Seq<char>,
}

impl Record {
    /// The record before anything was read into it: numbers are zero, texts
    /// empty, there is no previous commit and no boundary.
    pub open spec fn empty() -> Record {
        Record {
            commit: Seq::empty(),
            original_line_no: 0,
            final_line_no: 0,
            filename: Seq::empty(),
            summary: Seq::empty(),
            content: Seq::empty(),
            previous: None,
            boundary: false,
            author: Seq::empty(),
            author_mail: Seq::empty(),
            author_time: 0,
            author_tz: Seq::empty(),
            committer: Seq::empty(),
            committer_mail: Seq::empty(),
            committer_time: 0,
            committer_tz: Seq::empty(),
        }
    }
}

/// The leading part of a commit identifier that stands for it in listings:
/// its first seven characters, or all of it where it has fewer.
pub open spec fn short_form(commit: Seq<char>) -> Seq<char> {
    if commit.len() < 7 {
        commit
    } else {
        commit.take(7)
    }
}

/// The blame information of one line.
///
/// This struct stores what `git blame --line-porcelain` prints for one line
/// of a file.
///
/// `author_time` and `committer_time` are UNIX times in seconds.
///
/// `boundary` marks the commit at which `git blame` stopped following the
/// history. It is `true` only where the output says so.
#[derive(Debug)]
pub struct Blame {
    pub commit: String,
    pub original_line_no: usize,
    pub final_line_no: usize,
    pub filename: String,
    pub summary: String,
    /// The contents of the actual line
    pub content: String,
    pub previous_commit: Option<String>,
    pub previous_filepath: Option<String>,
    /// Set to true when blame output contains `boundary`.
    pub boundary: bool,
    pub author: String,
    pub author_mail: String,
    pub author_time: u64,
    pub author_tz: String,
    pub committer: String,
    pub committer_mail: String,
    pub committer_time: u64,
    pub committer_tz: String,
}

impl View for Blame {
    type V = Record;

    open spec fn view(&self) -> Record {
        Record {
            commit: self.commit@,
            original_line_no: self.original_line_no as nat,
            final_line_no: self.final_line_no as nat,
            filename: self.filename@,
            summary: self.summary@,
            content: self.content@,
            previous: match (self.previous_commit, self.previous_filepath) {
                (Some(commit), Some(filepath)) => Some((commit@, filepath@)),
                _ => None,
            },
            boundary: self.boundary,
            author: self.author@,
            author_mail: self.author_mail@,
            author_time: self.author_time as nat,
            author_tz: self.author_tz@,
            committer: self.committer@,
            committer_mail: self.committer_mail@,
            committer_time: self.committer_time as nat,
            committer_tz: self.committer_tz@,
        }
    }
}

impl Blame {
    /// Whether the two fields on the previous commit are both there or both
    /// missing.
    pub open spec fn previous_paired(&self) -> bool {
        self.previous_commit is Some <==> self.previous_filepath is Some
    }

    /// What holds of every record that the parser returns: it names a commit,
    /// and its fields on the previous commit come together.
    pub open spec fn wf(&self) -> bool {
        self.commit@.len() > 0 && self.previous_paired()
    }

    /// The previous commit and the path that the file had in it, where the
    /// blame has both.
    pub fn previous(&self) -> (pair: Option<(&str, &str)>)
        ensures
            match pair {
                Some((commit, filepath)) => self@.previous == Some((commit@, filepath@)),
                None => self@.previous is None,
            },
    {
        match &self.previous_commit {
            Some(commit) => match &self.previous_filepath {
                Some(filepath) => Some((commit.as_str(), filepath.as_str())),
                None => None,
            },
            None => None,
        }
    }

    /// Returns the abbreviated (short-hand) version of the commit hash.
    pub fn short_commit(&self) -> (short: String)
        ensures
            short@ == short_form(self.commit@),
            short@.len() == if self.commit@.len() < 7 { self.commit@.len() } else { 7 },
            short@ == self.commit@.take(short@.len() as int),
    {
        let commit: &str = self.commit.as_str();
        let len: usize = commit.unicode_len();
        let keep: usize = if len < 7 {
            len
        } else {
            7
        };
        assert(commit@.take(len as int) == commit@);
        commit.substring_char(0, keep).to_owned()
    }
}

impl Default for Blame {
    fn default() -> (blame: Blame)
        ensures
            blame@ == Record::empty(),
            blame.previous_commit is None,
            blame.previous_filepath is None,
    {
        Blame {
            commit: String::new(),
            original_line_no: 0,
            final_line_no: 0,
            filename: String::new(),
            summary: String::new(),
            content: String::new(),
            previous_commit: None,
            previous_filepath: None,
            boundary: false,
            author: String::new(),
            author_mail: String::new(),
            author_time: 0,
            author_tz: String::new(),
            committer: String::new(),
            committer_mail: String::new(),
            committer_time: 0,
            committer_tz: String::new(),
        }
    }
}

/// The porcelain format parser error
#[derive(Debug, Clone)]
pub struct ParseError(String);

impl View for ParseError {
    type V = Seq<char>;

    /// What went wrong, in words.
    closed spec fn view(&self) -> Seq<char> {
        self.0@
    }
}

impl ParseError {
    /// An error that says `message`.
    pub(crate) fn new(message: &str) -> (error: ParseError)
        ensures
            error@ == message@,
    {
        ParseError(message.to_owned())
    }

    /// What went wrong, in words.
    pub fn message(&self) -> (message: &str)
        ensures
            message@ == self@,
    {
        self.0.as_str()
    }

    /// The error as one line for the user.
    pub fn to_string(&self) -> (line: String)
        ensures
            line@ == "Error parsing git-blame: "@ + self@,
    {
        "Error parsing git-blame: ".to_owned().concat(self.0.as_str())
    }
}

} // verus!
