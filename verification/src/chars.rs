//! Character-level scanning: character classes, runs of characters of one
//! class, and comparison of character sequences with string slices.

use vstd::prelude::*;
use vstd::std_specs::iter::IteratorSpec;

verus! {

/// Whether `c` has the Unicode `White_Space` property.
pub open spec fn is_whitespace(c: char) -> bool {
    let u = c as u32;
    ||| 0x09 <= u <= 0x0D
    ||| u == 0x20
    ||| u == 0x85
    ||| u == 0xA0
    ||| u == 0x1680
    ||| 0x2000 <= u <= 0x200A
    ||| u == 0x2028
    ||| u == 0x2029
    ||| u == 0x202F
    ||| u == 0x205F
    ||| u == 0x3000
}

/// A set of characters that a scan can run over.
#[derive(Clone, Copy, Debug)]
pub enum CharClass {
    /// The characters with the `White_Space` property.
    Whitespace,
    /// The characters without the `White_Space` property.
    NonWhitespace,
    /// Every character but the given one.
    Not(char),
}

impl CharClass {
    /// Whether `c` belongs to the class.
    pub open spec fn holds(self, c: char) -> bool {
        match self {
            CharClass::Whitespace => is_whitespace(c),
            CharClass::NonWhitespace => !is_whitespace(c),
            CharClass::Not(x) => c != x,
        }
    }

    /// Tests whether `c` belongs to the class.
    pub fn test(&self, c: char) -> (b: bool)
        ensures
            b == self.holds(c),
    {
        match self {
            CharClass::Whitespace => is_whitespace_char(c),
            CharClass::NonWhitespace => !is_whitespace_char(c),
            CharClass::Not(x) => c != *x,
        }
    }
}

/// Length of the longest prefix of `s` made of characters of `class` only.
///
/// For `CharClass::Not(x)` this is the index of the first `x` in `s`, or the
/// length of `s` when `x` does not occur.
pub open spec fn run_len(s: Seq<char>, class: CharClass) -> nat
    decreases s.len(),
{
    if s.len() > 0 && class.holds(s[0]) {
        1 + run_len(s.drop_first(), class)
    } else {
        0
    }
}

/// The run ends inside the sequence, holds only characters of the class, and
/// is followed by a character outside the class unless it reaches the end.
pub proof fn lemma_run_len_bounds(s: Seq<char>, class: CharClass)
    ensures
        run_len(s, class) <= s.len(),
        forall|i: int| 0 <= i < run_len(s, class) ==> class.holds(#[trigger] s[i]),
        run_len(s, class) < s.len() ==> !class.holds(s[run_len(s, class) as int]),
    decreases s.len(),
{
    if s.len() > 0 && class.holds(s[0]) {
        let t = s.drop_first();
        lemma_run_len_bounds(t, class);
        assert forall|i: int| 0 <= i < run_len(s, class) implies class.holds(#[trigger] s[i]) by {
            if i > 0 {
                assert(s[i] == t[i - 1]);
            }
        }
        if run_len(s, class) < s.len() {
            assert(s[run_len(s, class) as int] == t[run_len(t, class) as int]);
        }
    }
}

/// A prefix of characters of the class that cannot be extended is the run.
pub proof fn lemma_run_len_is(s: Seq<char>, class: CharClass, n: int)
    requires
        0 <= n <= s.len(),
        forall|i: int| 0 <= i < n ==> class.holds(#[trigger] s[i]),
        n < s.len() ==> !class.holds(s[n]),
    ensures
        run_len(s, class) == n,
    decreases n,
{
    if n > 0 {
        let t = s.drop_first();
        assert(class.holds(s[0]));
        assert forall|i: int| 0 <= i < n - 1 implies class.holds(#[trigger] t[i]) by {
            assert(t[i] == s[i + 1]);
        }
        if n - 1 < t.len() {
            assert(t[n - 1] == s[n]);
        }
        lemma_run_len_is(t, class, n - 1);
    }
}

/// Tests whether `c` has the Unicode `White_Space` property.
pub fn is_whitespace_char(c: char) -> (b: bool)
    ensures
        b == is_whitespace(c),
{
    let u: u32 = c as u32;
    (0x09 <= u && u <= 0x0D) || u == 0x20 || u == 0x85 || u == 0xA0 || u == 0x1680 || (0x2000 <= u
        && u <= 0x200A) || u == 0x2028 || u == 0x2029 || u == 0x202F || u == 0x205F || u == 0x3000
}

/// The characters of `s`, in order.
pub fn chars_of(s: &str) -> (chars: Vec<char>)
    ensures
        chars@ == s@,
{
    let mut chars: Vec<char> = Vec::new();
    let mut it = s.chars();
    loop
        invariant
            it.decrease() is Some,
            chars@ + it.remaining() == s@,
        ensures
            chars@ == s@,
        decreases it.decrease()->0,
    {
        match it.next() {
            Some(c) => {
                chars.push(c);
            },
            None => {
                break ;
            },
        }
    }
    chars
}

/// Whether `chars` spells exactly `text`.
pub fn chars_eq(chars: &[char], text: &str) -> (b: bool)
    ensures
        b == (chars@ == text@),
{
    let mut it = text.chars();
    let mut i: usize = 0;
    loop
        invariant
            it.decrease() is Some,
            i <= chars@.len(),
            chars@.take(i as int) + it.remaining() == text@,
        decreases it.decrease()->0,
    {
        let ghost rest = it.remaining();
        match it.next() {
            Some(c) => {
                if i >= chars.len() {
                    assert(text@.len() > chars@.len());
                    return false;
                }
                if chars[i] != c {
                    assert(text@[i as int] == c);
                    return false;
                }
                assert(chars@.take(i as int + 1) == chars@.take(i as int).push(c));
                assert(chars@.take(i as int).push(c) + rest.drop_first() == chars@.take(i as int)
                    + rest);
                i = i + 1;
            },
            None => {
                assert(text@ == chars@.take(i as int));
                if i == chars.len() {
                    assert(chars@.take(i as int) == chars@);
                }
                return i == chars.len();
            },
        }
    }
}

/// The position at which the run of `class` that starts at `from` ends.
pub fn scan_run(chars: &[char], from: usize, class: CharClass) -> (to: usize)
    requires
        from <= chars@.len(),
    ensures
        from <= to <= chars@.len(),
        to == from + run_len(chars@.skip(from as int), class),
{
    let mut to: usize = from;
    while to < chars.len() && class.test(chars[to])
        invariant
            from <= to <= chars@.len(),
            forall|i: int| from <= i < to ==> class.holds(#[trigger] chars@[i]),
        decreases chars@.len() - to,
    {
        to = to + 1;
    }
    proof {
        let tail = chars@.skip(from as int);
        assert forall|i: int| 0 <= i < to - from implies class.holds(#[trigger] tail[i]) by {
            assert(tail[i] == chars@[from + i]);
        }
        lemma_run_len_is(tail, class, to - from);
    }
    to
}

} // verus!
