//! Scanning of runs of bytes at a position of a buffer.
//!
//! The runs of letters, blanks, whitespace and line contents are taken by
//! the scanners of the `nom` crate; what is assumed of each of them is
//! written on the function that calls it.

use vstd::prelude::*;
use vstd::slice::slice_subrange;
use crate::bytes::{
    is_alpha, is_blank, is_space, lemma_run_len_bound, lemma_run_len_unique, run_len, ByteClass,
    CLOSE_BRACKET, HYPHEN,
};

verus! {

/// `taken` and `rest` cut `input` in two, `taken` holds bytes of class `c`
/// only, and `rest` does not begin with one.
pub open spec fn cuts_run(input: Seq<u8>, taken: Seq<u8>, rest: Seq<u8>, c: ByteClass) -> bool {
    &&& taken + rest == input
    &&& forall|i: int| 0 <= i < taken.len() ==> c.has(#[trigger] taken[i])
    &&& rest.len() > 0 ==> !c.has(rest[0])
}

/// `nom::is_alphabetic`. Assumed: it tells whether the byte is an ASCII
/// letter.
pub assume_specification[ nom::is_alphabetic ](chr: u8) -> (r: bool)
    ensures
        r == is_alpha(chr),
;

/// Calls `nom::alpha`. Assumed: it fails on an input that does not begin
/// with an ASCII letter, and otherwise hands back the longest run of
/// letters at the head of the input, and what follows it.
#[verifier::external_body]
fn take_alpha<'a>(input: &'a [u8]) -> (r: Option<(&'a [u8], &'a [u8])>)
    ensures
        r is None <==> (input@.len() == 0 || !is_alpha(input@[0])),
        r matches Some((rest, taken)) ==> cuts_run(input@, taken@, rest@, ByteClass::Alpha),
{
    match nom::alpha(input) {
        nom::IResult::Done(rest, taken) => Some((rest, taken)),
        nom::IResult::Error(_) => None,
        nom::IResult::Incomplete(_) => None,
    }
}

/// Calls `nom::space`. Assumed: it fails on an input that does not begin
/// with a space or a tab, and otherwise hands back the longest run of
/// spaces and tabs at the head of the input, and what follows it.
#[verifier::external_body]
fn take_blank<'a>(input: &'a [u8]) -> (r: Option<(&'a [u8], &'a [u8])>)
    ensures
        r is None <==> (input@.len() == 0 || !is_blank(input@[0])),
        r matches Some((rest, taken)) ==> cuts_run(input@, taken@, rest@, ByteClass::Blank),
{
    match nom::space(input) {
        nom::IResult::Done(rest, taken) => Some((rest, taken)),
        nom::IResult::Error(_) => None,
        nom::IResult::Incomplete(_) => None,
    }
}

/// Calls `nom::multispace`. Assumed: it fails on an input that does not
/// begin with a space, a tab, a carriage return or a line feed, and
/// otherwise hands back the longest run of these at the head of the input,
/// and what follows it.
#[verifier::external_body]
fn take_space<'a>(input: &'a [u8]) -> (r: Option<(&'a [u8], &'a [u8])>)
    ensures
        r is None <==> (input@.len() == 0 || !is_space(input@[0])),
        r matches Some((rest, taken)) ==> cuts_run(input@, taken@, rest@, ByteClass::Space),
{
    match nom::multispace(input) {
        nom::IResult::Done(rest, taken) => Some((rest, taken)),
        nom::IResult::Error(_) => None,
        nom::IResult::Incomplete(_) => None,
    }
}

/// Calls `nom::not_line_ending`. Assumed: it never fails, and hands back
/// the bytes before the first carriage return or line feed of the input
/// (all of it where there is none), and what follows them.
#[verifier::external_body]
fn take_line<'a>(input: &'a [u8]) -> (r: Option<(&'a [u8], &'a [u8])>)
    ensures
        r is Some,
        r matches Some((rest, taken)) ==> cuts_run(input@, taken@, rest@, ByteClass::InLine),
{
    match nom::not_line_ending(input) {
        nom::IResult::Done(rest, taken) => Some((rest, taken)),
        nom::IResult::Error(_) => None,
        nom::IResult::Incomplete(_) => None,
    }
}

/// A cut of the tail of `s` from `pos` gives the run that starts at `pos`.
proof fn lemma_cut_is_run(s: Seq<u8>, pos: int, taken: Seq<u8>, rest: Seq<u8>, c: ByteClass)
    requires
        0 <= pos <= s.len(),
        cuts_run(s.subrange(pos, s.len() as int), taken, rest, c),
    ensures
        run_len(s, pos, c) == taken.len(),
        taken == s.subrange(pos, pos + taken.len()),
{
    let tail = s.subrange(pos, s.len() as int);
    let end = pos + taken.len();
    assert(tail.len() == taken.len() + rest.len());
    assert forall|i: int| pos <= i < end implies c.has(#[trigger] s[i]) by {
        assert(s[i] == tail[i - pos]);
        assert(tail[i - pos] == taken[i - pos]);
    }
    if end < s.len() {
        assert(s[end] == tail[end - pos]);
        assert(tail[end - pos] == rest[0]);
    }
    lemma_run_len_unique(s, pos, end, c);
    assert(taken =~= s.subrange(pos, end));
}

/// Where the run of letters that starts at `pos` ends.
pub fn alpha_end(buf: &[u8], pos: usize) -> (end: usize)
    requires
        pos <= buf@.len(),
    ensures
        end == pos + run_len(buf@, pos as int, ByteClass::Alpha),
        end <= buf@.len(),
{
    let tail = slice_subrange(buf, pos, buf.len());
    match take_alpha(tail) {
        Some((rest, taken)) => {
            proof {
                lemma_cut_is_run(buf@, pos as int, taken@, rest@, ByteClass::Alpha);
                lemma_run_len_bound(buf@, pos as int, ByteClass::Alpha);
            }
            pos + taken.len()
        },
        None => pos,
    }
}

/// Where the run of spaces and tabs that starts at `pos` ends.
pub fn blank_end(buf: &[u8], pos: usize) -> (end: usize)
    requires
        pos <= buf@.len(),
    ensures
        end == pos + run_len(buf@, pos as int, ByteClass::Blank),
        end <= buf@.len(),
{
    let tail = slice_subrange(buf, pos, buf.len());
    match take_blank(tail) {
        Some((rest, taken)) => {
            proof {
                lemma_cut_is_run(buf@, pos as int, taken@, rest@, ByteClass::Blank);
                lemma_run_len_bound(buf@, pos as int, ByteClass::Blank);
            }
            pos + taken.len()
        },
        None => pos,
    }
}

/// Where the run of whitespace that starts at `pos` ends.
pub fn space_end(buf: &[u8], pos: usize) -> (end: usize)
    requires
        pos <= buf@.len(),
    ensures
        end == pos + run_len(buf@, pos as int, ByteClass::Space),
        end <= buf@.len(),
{
    let tail = slice_subrange(buf, pos, buf.len());
    match take_space(tail) {
        Some((rest, taken)) => {
            proof {
                lemma_cut_is_run(buf@, pos as int, taken@, rest@, ByteClass::Space);
                lemma_run_len_bound(buf@, pos as int, ByteClass::Space);
            }
            pos + taken.len()
        },
        None => pos,
    }
}

/// Where the line that `pos` stands in ends: at the next carriage return
/// or line feed, or at the end of the buffer.
pub fn line_end(buf: &[u8], pos: usize) -> (end: usize)
    requires
        pos <= buf@.len(),
    ensures
        end == pos + run_len(buf@, pos as int, ByteClass::InLine),
        end <= buf@.len(),
{
    let tail = slice_subrange(buf, pos, buf.len());
    match take_line(tail) {
        Some((rest, taken)) => {
            proof {
                lemma_cut_is_run(buf@, pos as int, taken@, rest@, ByteClass::InLine);
                lemma_run_len_bound(buf@, pos as int, ByteClass::InLine);
            }
            pos + taken.len()
        },
        None => pos,
    }
}

/// Where the run of key-name bytes that starts at `pos` ends.
pub fn key_end(buf: &[u8], pos: usize) -> (end: usize)
    requires
        pos <= buf@.len(),
    ensures
        end == pos + run_len(buf@, pos as int, ByteClass::KeyChar),
        end <= buf@.len(),
{
    let mut end: usize = pos;
    while end < buf.len() && (nom::is_alphabetic(buf[end]) || buf[end] == HYPHEN)
        invariant
            pos <= end <= buf@.len(),
            forall|i: int| pos <= i < end ==> ByteClass::KeyChar.has(#[trigger] buf@[i]),
        decreases buf@.len() - end,
    {
        end = end + 1;
    }
    proof {
        lemma_run_len_unique(buf@, pos as int, end as int, ByteClass::KeyChar);
    }
    end
}

/// Where the run of bytes other than `]` that starts at `pos` ends.
pub fn bracket_end(buf: &[u8], pos: usize) -> (end: usize)
    requires
        pos <= buf@.len(),
    ensures
        end == pos + run_len(buf@, pos as int, ByteClass::InBrackets),
        end <= buf@.len(),
{
    let mut end: usize = pos;
    while end < buf.len() && buf[end] != CLOSE_BRACKET
        invariant
            pos <= end <= buf@.len(),
            forall|i: int| pos <= i < end ==> ByteClass::InBrackets.has(#[trigger] buf@[i]),
        decreases buf@.len() - end,
    {
        end = end + 1;
    }
    proof {
        lemma_run_len_unique(buf@, pos as int, end as int, ByteClass::InBrackets);
    }
    end
}

} // verus!
