//! Classes of bytes and maximal runs of one class in a byte sequence.

use vstd::prelude::*;

verus! {

pub const TAB: u8 = 0x09;

pub const LINE_FEED: u8 = 0x0A;

pub const CARRIAGE_RETURN: u8 = 0x0D;

pub const SPACE: u8 = 0x20;

pub const HASH: u8 = 0x23;

pub const HYPHEN: u8 = 0x2D;

pub const EQUALS: u8 = 0x3D;

pub const AT_SIGN: u8 = 0x40;

pub const OPEN_BRACKET: u8 = 0x5B;

pub const CLOSE_BRACKET: u8 = 0x5D;

pub const UNDERSCORE: u8 = 0x5F;

/// The sets of bytes that the key-file grammar distinguishes.
#[derive(Clone, Copy, Debug)]
pub enum ByteClass {
    /// ASCII letters.
    Alpha,
    /// ASCII letters and the hyphen: what a key name is made of.
    KeyChar,
    /// Space and tab.
    Blank,
    /// Space, tab, carriage return and line feed.
    Space,
    /// Everything but carriage return and line feed.
    InLine,
    /// Everything but the closing bracket.
    InBrackets,
}

/// An ASCII letter: `A` to `Z`, or `a` to `z`.
pub open spec fn is_alpha(b: u8) -> bool {
    (0x41 <= b <= 0x5A) || (0x61 <= b <= 0x7A)
}

/// A space or a tab.
pub open spec fn is_blank(b: u8) -> bool {
    b == SPACE || b == TAB
}

/// A space, a tab, a carriage return or a line feed.
pub open spec fn is_space(b: u8) -> bool {
    b == SPACE || b == TAB || b == CARRIAGE_RETURN || b == LINE_FEED
}

/// A carriage return or a line feed.
pub open spec fn is_line_end(b: u8) -> bool {
    b == CARRIAGE_RETURN || b == LINE_FEED
}

impl ByteClass {
    /// Whether `b` is of the class.
    pub open spec fn has(self, b: u8) -> bool {
        match self {
            ByteClass::Alpha => is_alpha(b),
            ByteClass::KeyChar => is_alpha(b) || b == HYPHEN,
            ByteClass::Blank => is_blank(b),
            ByteClass::Space => is_space(b),
            ByteClass::InLine => !is_line_end(b),
            ByteClass::InBrackets => b != CLOSE_BRACKET,
        }
    }
}

/// Length of the longest run of bytes of class `c` that starts at `pos`.
pub open spec fn run_len(s: Seq<u8>, pos: int, c: ByteClass) -> nat
    decreases s.len() - pos,
{
    if 0 <= pos < s.len() && c.has(s[pos]) {
        1 + run_len(s, pos + 1, c)
    } else {
        0
    }
}

/// A run never leaves the sequence.
pub proof fn lemma_run_len_bound(s: Seq<u8>, pos: int, c: ByteClass)
    requires
        0 <= pos <= s.len(),
    ensures
        pos + run_len(s, pos, c) <= s.len(),
    decreases s.len() - pos,
{
    if pos < s.len() && c.has(s[pos]) {
        lemma_run_len_bound(s, pos + 1, c);
    }
}

/// Every byte of a run is of the class, and the byte after it, if any, is not.
pub proof fn lemma_run_len_members(s: Seq<u8>, pos: int, c: ByteClass)
    requires
        0 <= pos <= s.len(),
    ensures
        forall|i: int| pos <= i < pos + run_len(s, pos, c) ==> c.has(#[trigger] s[i]),
        pos + run_len(s, pos, c) < s.len() ==> !c.has(s[pos + run_len(s, pos, c)]),
    decreases s.len() - pos,
{
    if pos < s.len() && c.has(s[pos]) {
        lemma_run_len_members(s, pos + 1, c);
    }
}

/// A stretch of bytes of the class that cannot be extended is the run.
pub proof fn lemma_run_len_unique(s: Seq<u8>, pos: int, end: int, c: ByteClass)
    requires
        0 <= pos <= end <= s.len(),
        forall|i: int| pos <= i < end ==> c.has(#[trigger] s[i]),
        end < s.len() ==> !c.has(s[end]),
    ensures
        run_len(s, pos, c) == end - pos,
    decreases end - pos,
{
    if pos < end {
        lemma_run_len_unique(s, pos + 1, end, c);
    }
}

} // verus!
