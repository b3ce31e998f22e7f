//! Primitive scanners: byte classes and the longest run of a class that
//! starts at a given offset.

use vstd::prelude::*;

verus! {

/// The bytes that separate fields: space, tab, line feed, carriage return.
pub open spec fn is_whitespace_char(c: char) -> bool {
    c == ' ' || c == '\t' || c == '\n' || c == '\r'
}

/// The ASCII decimal digits.
pub open spec fn is_digit(b: u8) -> bool {
    0x30 <= b <= 0x39
}

/// The ASCII letters and decimal digits.
pub open spec fn is_alphanumeric(b: u8) -> bool {
    is_digit(b) || 0x41 <= b <= 0x5a || 0x61 <= b <= 0x7a
}

/// Whether `c` is one of the four separator characters.
pub fn is_whitespace(c: char) -> (b: bool)
    ensures
        b == is_whitespace_char(c),
{
    c == ' ' || c == '\t' || c == '\n' || c == '\r'
}

/// A set of bytes that a scanner can be asked to consume.
#[derive(Debug, Clone, Copy, PartialEq, Eq, Structural)]
pub enum ByteClass {
    /// Space, tab, line feed and carriage return.
    Whitespace,
    /// ASCII letters and decimal digits.
    Alphanumeric,
    /// Every byte that is not whitespace.
    NonWhitespace,
}

impl ByteClass {
    /// Membership of `b` in the class.
    pub open spec fn holds(self, b: u8) -> bool {
        match self {
            ByteClass::Whitespace => is_whitespace_char(b as char),
            ByteClass::Alphanumeric => is_alphanumeric(b),
            ByteClass::NonWhitespace => !is_whitespace_char(b as char),
        }
    }

    /// Decides membership of `b` in the class.
    pub fn contains(&self, b: u8) -> (r: bool)
        ensures
            r == self.holds(b),
    {
        match self {
            ByteClass::Whitespace => is_whitespace(b as char),
            ByteClass::Alphanumeric => {
                (0x30 <= b && b <= 0x39) || (0x41 <= b && b <= 0x5a) || (0x61 <= b && b <= 0x7a)
            },
            ByteClass::NonWhitespace => !is_whitespace(b as char),
        }
    }
}

/// The offset just past the longest run of `class` bytes that begins at
/// `start`. An offset outside the sequence is its own run end.
pub open spec fn run_end(s: Seq<u8>, start: int, class: ByteClass) -> int
    decreases s.len() - start,
{
    if 0 <= start < s.len() && class.holds(s[start]) {
        run_end(s, start + 1, class)
    } else {
        start
    }
}

/// `end` closes the longest run of `class` bytes that begins at `start`:
/// every byte in between belongs to the class and the byte at `end`, if there
/// is one, does not.
pub open spec fn is_run_end(s: Seq<u8>, start: int, class: ByteClass, end: int) -> bool {
    &&& start <= end
    &&& end <= s.len() || end == start
    &&& forall|i: int| start <= i < end ==> 0 <= i && class.holds(#[trigger] s[i])
    &&& 0 <= end < s.len() ==> !class.holds(s[end])
}

/// `run_end` closes the longest run.
pub proof fn lemma_run_end_closes(s: Seq<u8>, start: int, class: ByteClass)
    ensures
        is_run_end(s, start, class, run_end(s, start, class)),
    decreases s.len() - start,
{
    if 0 <= start < s.len() && class.holds(s[start]) {
        lemma_run_end_closes(s, start + 1, class);
    }
}

/// Only one offset closes the longest run, and it is `run_end`.
pub proof fn lemma_run_end_unique(s: Seq<u8>, start: int, class: ByteClass, end: int)
    requires
        is_run_end(s, start, class, end),
    ensures
        end == run_end(s, start, class),
    decreases end - start,
{
    if start < end {
        assert(class.holds(s[start]));
        lemma_run_end_unique(s, start + 1, class, end);
    }
}

/// Every byte of `s` belongs to `class`.
pub open spec fn all_in(s: Seq<u8>, class: ByteClass) -> bool {
    forall|i: int| 0 <= i < s.len() ==> class.holds(#[trigger] s[i])
}

/// `s` is empty or begins with a byte outside `class`.
pub open spec fn stops(s: Seq<u8>, class: ByteClass) -> bool {
    s.len() == 0 || !class.holds(s[0])
}

/// Between a prefix and a suffix that stops the class, a run of class bytes
/// is consumed whole and nothing more.
pub proof fn lemma_run_end_between(prefix: Seq<u8>, run: Seq<u8>, suffix: Seq<u8>, class: ByteClass)
    requires
        all_in(run, class),
        stops(suffix, class),
    ensures
        run_end(prefix + run + suffix, prefix.len() as int, class) == prefix.len() + run.len(),
{
    let s = prefix + run + suffix;
    let start = prefix.len() as int;
    let end = start + run.len();
    assert forall|i: int| start <= i < end implies 0 <= i && class.holds(#[trigger] s[i]) by {
        assert(s[i] == run[i - start]);
    }
    if end < s.len() {
        assert(s[end] == suffix[0]);
    }
    lemma_run_end_unique(s, start, class, end);
}

/// Consumes the longest run of `class` bytes that begins at `start` and
/// returns the offset of the first byte after it.
pub fn take_while(input: &[u8], start: usize, class: ByteClass) -> (end: usize)
    ensures
        end == run_end(input@, start as int, class),
        is_run_end(input@, start as int, class, end as int),
{
    proof {
        lemma_run_end_closes(input@, start as int, class);
    }
    let mut end: usize = start;
    while end < input.len() && class.contains(input[end])
        invariant
            start <= end,
            run_end(input@, end as int, class) == run_end(input@, start as int, class),
        decreases input.len() - end,
    {
        end = end + 1;
    }
    end
}

/// Consumes whitespace from `start` on; never fails.
pub fn take_whitespace(input: &[u8], start: usize) -> (end: usize)
    ensures
        end == run_end(input@, start as int, ByteClass::Whitespace),
        is_run_end(input@, start as int, ByteClass::Whitespace, end as int),
{
    take_while(input, start, ByteClass::Whitespace)
}

/// Consumes ASCII letters and digits from `start` on; never fails.
pub fn take_alphanumeric(input: &[u8], start: usize) -> (end: usize)
    ensures
        end == run_end(input@, start as int, ByteClass::Alphanumeric),
        is_run_end(input@, start as int, ByteClass::Alphanumeric, end as int),
{
    take_while(input, start, ByteClass::Alphanumeric)
}

} // verus!
