//! Parser for the line-porcelain output of `git blame`.

pub mod blame;
pub mod chars;
pub mod laws;
pub mod lines;
pub mod number;
pub mod record;
pub mod segment;
pub mod utf8;

pub use blame::{Blame, ParseError};
pub use record::parse_one_blame;
pub use segment::parse;
