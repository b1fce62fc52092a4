//! The grammar of a key file, as functions from a byte sequence and a
//! position to what is read there and where reading stops.
//!
//! ```text
//! file     := blank* group*                       (all of the input)
//! group    := header line* blank*
//! header   := "[" [^\]]+ "]" WHITESPACE*
//! line     := blank* key suffix? (SP | TAB)* "=" rest-of-line
//! key      := (ALPHA | "-")+
//! suffix   := "[" locale "]"
//! locale   := ALPHA+ ("_" ALPHA+)? ("@" ALPHA+)?
//! blank    := WHITESPACE | "#" rest-of-line
//! ```
//!
//! Every repetition takes as much as it can, and nothing is read twice.
//! Group names and values must be well-formed UTF-8; a header or a line
//! whose text is not does not match. A value is the rest of its line as it
//! stands: nothing is trimmed from it and no escape sequence is decoded.

use vstd::prelude::*;
use vstd::utf8::{decode_utf8, valid_utf8};
use crate::bytes::{
    is_space, lemma_run_len_bound, run_len, ByteClass, AT_SIGN, CLOSE_BRACKET, EQUALS, HASH,
    OPEN_BRACKET, UNDERSCORE,
};
use crate::model::{collapse, Body, Groups, KeyId, LocaleTag};

verus! {

/// The byte at `pos` exists and is `b`.
pub open spec fn byte_at(s: Seq<u8>, pos: int, b: u8) -> bool {
    0 <= pos < s.len() && s[pos] == b
}

/// The text that the bytes from `from` up to `to` encode.
pub open spec fn text(s: Seq<u8>, from: int, to: int) -> Seq<char> {
    decode_utf8(s.subrange(from, to))
}

/// Length of an optional part of a locale tag at `pos`: the separator
/// `sep` and the letters after it, or 0 where the separator or the
/// letters are missing.
pub open spec fn part_len(s: Seq<u8>, pos: int, sep: u8) -> nat {
    if byte_at(s, pos, sep) && run_len(s, pos + 1, ByteClass::Alpha) > 0 {
        1 + run_len(s, pos + 1, ByteClass::Alpha)
    } else {
        0
    }
}

/// The letters of an optional part of length `len` at `pos`.
pub open spec fn part_text(s: Seq<u8>, pos: int, len: nat) -> Option<Seq<char>> {
    if len == 0 {
        None
    } else {
        Some(text(s, pos + 1, pos + len))
    }
}

/// The locale tag that starts at `pos`, and where it ends.
pub open spec fn locale_at(s: Seq<u8>, pos: int) -> Option<(LocaleTag, int)> {
    let lang = run_len(s, pos, ByteClass::Alpha);
    let country = part_len(s, pos + lang, UNDERSCORE);
    let modifier = part_len(s, pos + lang + country, AT_SIGN);
    if lang == 0 {
        None
    } else {
        Some(
            (
                LocaleTag {
                    lang: text(s, pos, pos + lang),
                    country: part_text(s, pos + lang, country),
                    modifier: part_text(s, pos + lang + country, modifier),
                },
                pos + lang + country + modifier,
            ),
        )
    }
}

/// The locale tag that the whole of `s` spells, if it spells one.
pub open spec fn locale_of(s: Seq<u8>) -> Option<LocaleTag> {
    match locale_at(s, 0) {
        Some((tag, end)) => if end == s.len() {
            Some(tag)
        } else {
            None
        },
        None => None,
    }
}

/// Where the whitespace and comments that start at `pos` end.
pub open spec fn skip_blank(s: Seq<u8>, pos: int) -> int
    decreases s.len() - pos,
    via skip_blank_decreases
{
    if 0 <= pos < s.len() && is_space(s[pos]) {
        skip_blank(s, pos + 1)
    } else if byte_at(s, pos, HASH) {
        skip_blank(s, pos + 1 + run_len(s, pos + 1, ByteClass::InLine))
    } else {
        pos
    }
}

#[via_fn]
proof fn skip_blank_decreases(s: Seq<u8>, pos: int) {
    if byte_at(s, pos, HASH) {
        lemma_run_len_bound(s, pos + 1, ByteClass::InLine);
    }
}

/// What may follow a key name at `pos`: nothing, or a locale tag in
/// brackets. `None` where a bracket opens and no tag in brackets follows.
pub open spec fn suffix_at(s: Seq<u8>, pos: int) -> Option<(Option<LocaleTag>, int)> {
    if byte_at(s, pos, OPEN_BRACKET) {
        match locale_at(s, pos + 1) {
            Some((tag, end)) => if byte_at(s, end, CLOSE_BRACKET) {
                Some((Some(tag), end + 1))
            } else {
                None
            },
            None => None,
        }
    } else {
        Some((None, pos))
    }
}

/// The assignment that is read from `pos` on, after whitespace and
/// comments, and where its line ends.
pub open spec fn line_at(s: Seq<u8>, pos: int) -> Option<((KeyId, Seq<char>), int)> {
    let start = skip_blank(s, pos);
    let name_end = start + run_len(s, start, ByteClass::KeyChar);
    match suffix_at(s, name_end) {
        Some((locale, after)) => {
            let sign = after + run_len(s, after, ByteClass::Blank);
            let end = sign + 1 + run_len(s, sign + 1, ByteClass::InLine);
            if start < name_end && byte_at(s, sign, EQUALS) && valid_utf8(
                s.subrange(sign + 1, end),
            ) {
                Some(((KeyId { name: text(s, start, name_end), locale }, text(s, sign + 1, end)), end))
            } else {
                None
            }
        },
        None => None,
    }
}

/// The assignments that are read from `pos` on, one after the other as
/// long as one matches, and where the last one ends.
pub open spec fn lines_from(s: Seq<u8>, pos: int) -> (Seq<(KeyId, Seq<char>)>, int)
    decreases s.len() - pos,
    via lines_from_decreases
{
    match line_at(s, pos) {
        Some((pair, end)) => {
            let (more, stop) = lines_from(s, end);
            (seq![pair] + more, stop)
        },
        None => (Seq::empty(), pos),
    }
}

#[via_fn]
proof fn lines_from_decreases(s: Seq<u8>, pos: int) {
    if line_at(s, pos) is Some {
        lemma_line_at_advances(s, pos);
    }
}

/// The group header at `pos`: the name between the brackets, and where
/// the whitespace after the header ends.
pub open spec fn header_at(s: Seq<u8>, pos: int) -> Option<(Seq<char>, int)> {
    let close = pos + 1 + run_len(s, pos + 1, ByteClass::InBrackets);
    if byte_at(s, pos, OPEN_BRACKET) && pos + 1 < close < s.len() && valid_utf8(
        s.subrange(pos + 1, close),
    ) {
        Some((text(s, pos + 1, close), close + 1 + run_len(s, close + 1, ByteClass::Space)))
    } else {
        None
    }
}

/// The group at `pos`: its name, its assignments in the order in which
/// they are written, and where the whitespace and comments after them end.
pub open spec fn group_at(s: Seq<u8>, pos: int) -> Option<
    ((Seq<char>, Seq<(KeyId, Seq<char>)>), int),
> {
    match header_at(s, pos) {
        Some((name, body)) => {
            let (pairs, stop) = lines_from(s, body);
            Some(((name, pairs), skip_blank(s, stop)))
        },
        None => None,
    }
}

/// The groups that are read from `pos` on, one after the other as long as
/// one matches, each with its assignments collapsed, and where the last
/// one ends.
pub open spec fn groups_from(s: Seq<u8>, pos: int) -> (Seq<(Seq<char>, Body)>, int)
    decreases s.len() - pos,
    via groups_from_decreases
{
    match group_at(s, pos) {
        Some(((name, pairs), end)) => {
            let (more, stop) = groups_from(s, end);
            (seq![(name, collapse(pairs))] + more, stop)
        },
        None => (Seq::empty(), pos),
    }
}

#[via_fn]
proof fn groups_from_decreases(s: Seq<u8>, pos: int) {
    if group_at(s, pos) is Some {
        lemma_group_at_advances(s, pos);
    }
}

/// What a key file holds: its groups by name, each a mapping from key to
/// value. `None` where the grammar does not take the input to its end.
///
/// A group name that is written more than once stands for the group that
/// was written last, with that group's assignments only; within a group, a
/// key that is written more than once has the value that was written last.
/// Readers of this format do not agree on what a repeated key means; here
/// the last one written counts.
pub open spec fn parsed(s: Seq<u8>) -> Option<Groups> {
    let (groups, stop) = groups_from(s, skip_blank(s, 0));
    if stop == s.len() {
        Some(collapse(groups))
    } else {
        None
    }
}

/// Skipping whitespace and comments moves forward, and stays in the input.
pub proof fn lemma_skip_blank_bounds(s: Seq<u8>, pos: int)
    requires
        0 <= pos <= s.len(),
    ensures
        pos <= skip_blank(s, pos) <= s.len(),
    decreases s.len() - pos,
{
    if pos < s.len() && is_space(s[pos]) {
        lemma_skip_blank_bounds(s, pos + 1);
    } else if byte_at(s, pos, HASH) {
        lemma_run_len_bound(s, pos + 1, ByteClass::InLine);
        lemma_skip_blank_bounds(s, pos + 1 + run_len(s, pos + 1, ByteClass::InLine));
    }
}

/// A locale tag ends after its start, inside the input.
pub proof fn lemma_locale_at_bounds(s: Seq<u8>, pos: int)
    requires
        0 <= pos <= s.len(),
        locale_at(s, pos) is Some,
    ensures
        pos < locale_at(s, pos).unwrap().1 <= s.len(),
{
    let lang = run_len(s, pos, ByteClass::Alpha);
    let country = part_len(s, pos + lang, UNDERSCORE);
    let modifier = part_len(s, pos + lang + country, AT_SIGN);
    lemma_run_len_bound(s, pos, ByteClass::Alpha);
    if country > 0 {
        lemma_run_len_bound(s, pos + lang + 1, ByteClass::Alpha);
    }
    if modifier > 0 {
        lemma_run_len_bound(s, pos + lang + country + 1, ByteClass::Alpha);
    }
}

/// An assignment ends after its start, inside the input.
pub proof fn lemma_line_at_advances(s: Seq<u8>, pos: int)
    requires
        0 <= pos <= s.len(),
        line_at(s, pos) is Some,
    ensures
        pos < line_at(s, pos).unwrap().1 <= s.len(),
{
    let start = skip_blank(s, pos);
    lemma_skip_blank_bounds(s, pos);
    let name_end = start + run_len(s, start, ByteClass::KeyChar);
    lemma_run_len_bound(s, start, ByteClass::KeyChar);
    if byte_at(s, name_end, OPEN_BRACKET) {
        lemma_locale_at_bounds(s, name_end + 1);
    }
    let after = suffix_at(s, name_end).unwrap().1;
    lemma_run_len_bound(s, after, ByteClass::Blank);
    let sign = after + run_len(s, after, ByteClass::Blank);
    lemma_run_len_bound(s, sign + 1, ByteClass::InLine);
}

/// The assignments that are read from a position in the input end in it.
pub proof fn lemma_lines_from_bounds(s: Seq<u8>, pos: int)
    requires
        0 <= pos <= s.len(),
    ensures
        pos <= lines_from(s, pos).1 <= s.len(),
    decreases s.len() - pos,
{
    if line_at(s, pos) is Some {
        lemma_line_at_advances(s, pos);
        lemma_lines_from_bounds(s, line_at(s, pos).unwrap().1);
    }
}

/// A group ends after its start, inside the input.
pub proof fn lemma_group_at_advances(s: Seq<u8>, pos: int)
    requires
        0 <= pos <= s.len(),
        group_at(s, pos) is Some,
    ensures
        pos < group_at(s, pos).unwrap().1 <= s.len(),
{
    let close = pos + 1 + run_len(s, pos + 1, ByteClass::InBrackets);
    lemma_run_len_bound(s, close + 1, ByteClass::Space);
    let body = header_at(s, pos).unwrap().1;
    lemma_lines_from_bounds(s, body);
    lemma_skip_blank_bounds(s, lines_from(s, body).1);
}

} // verus!
