//! Reading of a key file from a buffer, rule by rule of the grammar.

use vstd::prelude::*;
use crate::bytes::{
    is_space, lemma_run_len_members, ByteClass, CLOSE_BRACKET, EQUALS, HASH, OPEN_BRACKET,
};
use crate::grammar::{
    group_at, groups_from, header_at, line_at, lines_from, skip_blank, suffix_at,
};
use crate::key_file::Key;
use crate::locale::{opt_tag, Locale};
use crate::model::{collapse, distinct_keys, lemma_collapse_push, Body, KeyId};
use crate::scan::{blank_end, bracket_end, key_end, line_end, space_end};
use crate::table::{put_section, put_slot, section_pairs, slot_pairs, Section, Slot};
use crate::text::{ascii_text_at, text_at};

verus! {

/// A stretch of whitespace is skipped as a whole.
proof fn lemma_skip_spaces(s: Seq<u8>, from: int, to: int)
    requires
        0 <= from <= to <= s.len(),
        forall|i: int| from <= i < to ==> is_space(#[trigger] s[i]),
    ensures
        skip_blank(s, from) == skip_blank(s, to),
    decreases to - from,
{
    if from < to {
        lemma_skip_spaces(s, from + 1, to);
    }
}

/// Where the whitespace and comments that start at `pos` end.
pub(crate) fn skip_blank_at(buf: &[u8], pos: usize) -> (end: usize)
    requires
        pos <= buf@.len(),
    ensures
        end == skip_blank(buf@, pos as int),
        pos <= end <= buf@.len(),
{
    let mut cur: usize = pos;
    loop
        invariant
            pos <= cur <= buf@.len(),
            skip_blank(buf@, cur as int) == skip_blank(buf@, pos as int),
        ensures
            cur == skip_blank(buf@, pos as int),
            pos <= cur <= buf@.len(),
        decreases buf@.len() - cur,
    {
        // A comment may be indented; blanks that no comment follows are
        // whitespace like any other.
        let mark = blank_end(buf, cur);
        proof {
            lemma_run_len_members(buf@, cur as int, ByteClass::Blank);
        }
        if mark < buf.len() && buf[mark] == HASH {
            let next = line_end(buf, mark + 1);
            proof {
                lemma_skip_spaces(buf@, cur as int, mark as int);
            }
            cur = next;
        } else {
            let next = space_end(buf, cur);
            proof {
                lemma_run_len_members(buf@, cur as int, ByteClass::Space);
                lemma_skip_spaces(buf@, cur as int, next as int);
            }
            if next == cur {
                break ;
            }
            cur = next;
        }
    }
    cur
}

/// Reads what may follow a key name at `pos`: nothing, or a locale tag in
/// brackets.
fn read_suffix(buf: &[u8], pos: usize) -> (r: Option<(Option<Locale>, usize)>)
    requires
        pos <= buf@.len(),
    ensures
        match r {
            Some((locale, end)) => suffix_at(buf@, pos as int) == Some(
                (opt_tag(locale), end as int),
            ) && pos <= end <= buf@.len(),
            None => suffix_at(buf@, pos as int) is None,
        },
{
    if pos < buf.len() && buf[pos] == OPEN_BRACKET {
        match Locale::read_at(buf, pos + 1) {
            Some((tag, end)) => if end < buf.len() && buf[end] == CLOSE_BRACKET {
                Some((Some(tag), end + 1))
            } else {
                None
            },
            None => None,
        }
    } else {
        Some((None, pos))
    }
}

/// Reads the assignment that follows the whitespace and comments at `pos`.
fn read_line(buf: &[u8], pos: usize) -> (r: Option<(Key, String, usize)>)
    requires
        pos <= buf@.len(),
    ensures
        match r {
            Some((key, value, end)) => line_at(buf@, pos as int) == Some(
                ((key@, value@), end as int),
            ) && pos < end <= buf@.len(),
            None => line_at(buf@, pos as int) is None,
        },
{
    let start = skip_blank_at(buf, pos);
    let name_end = key_end(buf, start);
    if name_end == start {
        return None;
    }
    let (locale, after) = match read_suffix(buf, name_end) {
        Some(found) => found,
        None => {
            return None;
        },
    };
    let sign = blank_end(buf, after);
    if !(sign < buf.len() && buf[sign] == EQUALS) {
        return None;
    }
    let end = line_end(buf, sign + 1);
    let value = match text_at(buf, sign + 1, end) {
        Some(value) => value,
        None => {
            return None;
        },
    };
    proof {
        lemma_run_len_members(buf@, start as int, ByteClass::KeyChar);
    }
    let name = ascii_text_at(buf, start, name_end);
    Some((Key::new(name, locale), value, end))
}

/// Reads assignments from `pos` on, as long as one follows, into a table
/// in which a later one replaces an earlier one of the same key.
fn read_lines(buf: &[u8], pos: usize) -> (r: (Vec<Slot>, usize))
    requires
        pos <= buf@.len(),
    ensures
        distinct_keys(slot_pairs(r.0@)),
        collapse(slot_pairs(r.0@)) == collapse(lines_from(buf@, pos as int).0),
        r.1 == lines_from(buf@, pos as int).1,
        pos <= r.1 <= buf@.len(),
{
    let mut slots: Vec<Slot> = Vec::new();
    let mut cur: usize = pos;
    let ghost mut done = Seq::<(KeyId, Seq<char>)>::empty();
    loop
        invariant
            pos <= cur <= buf@.len(),
            lines_from(buf@, pos as int).0 == done + lines_from(buf@, cur as int).0,
            lines_from(buf@, pos as int).1 == lines_from(buf@, cur as int).1,
            distinct_keys(slot_pairs(slots@)),
            collapse(slot_pairs(slots@)) == collapse(done),
        ensures
            pos <= cur <= buf@.len(),
            lines_from(buf@, pos as int).0 == done,
            lines_from(buf@, pos as int).1 == cur,
            distinct_keys(slot_pairs(slots@)),
            collapse(slot_pairs(slots@)) == collapse(done),
        decreases buf@.len() - cur,
    {
        match read_line(buf, cur) {
            Some((key, value, end)) => {
                proof {
                    let more = lines_from(buf@, end as int).0;
                    assert(done + (seq![(key@, value@)] + more) =~= done.push((key@, value@))
                        + more);
                    lemma_collapse_push(done, key@, value@);
                    done = done.push((key@, value@));
                }
                put_slot(&mut slots, key, value);
                cur = end;
            },
            None => {
                assert(done + Seq::<(KeyId, Seq<char>)>::empty() =~= done);
                break ;
            },
        }
    }
    (slots, cur)
}

/// Reads the group header at `pos`, and the whitespace after it.
fn read_header(buf: &[u8], pos: usize) -> (r: Option<(String, usize)>)
    requires
        pos <= buf@.len(),
    ensures
        match r {
            Some((name, end)) => header_at(buf@, pos as int) == Some((name@, end as int)) && pos
                < end <= buf@.len(),
            None => header_at(buf@, pos as int) is None,
        },
{
    if !(pos < buf.len() && buf[pos] == OPEN_BRACKET) {
        return None;
    }
    let close = bracket_end(buf, pos + 1);
    if close == pos + 1 || close >= buf.len() {
        return None;
    }
    let name = match text_at(buf, pos + 1, close) {
        Some(name) => name,
        None => {
            return None;
        },
    };
    let end = space_end(buf, close + 1);
    Some((name, end))
}

/// Reads the group at `pos`: its header, its assignments, and the
/// whitespace and comments after them.
fn read_group(buf: &[u8], pos: usize) -> (r: Option<(Section, usize)>)
    requires
        pos <= buf@.len(),
    ensures
        match r {
            Some((section, end)) => group_at(buf@, pos as int) is Some && section.pair() == (
                group_at(buf@, pos as int).unwrap().0.0,
                collapse(group_at(buf@, pos as int).unwrap().0.1),
            ) && end == group_at(buf@, pos as int).unwrap().1 && pos < end <= buf@.len(),
            None => group_at(buf@, pos as int) is None,
        },
{
    match read_header(buf, pos) {
        Some((name, body)) => {
            let (slots, stop) = read_lines(buf, body);
            let end = skip_blank_at(buf, stop);
            Some((Section { name, slots }, end))
        },
        None => None,
    }
}

/// Reads groups from `pos` on, as long as one follows, into a table in
/// which a later one replaces an earlier one of the same name.
pub(crate) fn read_groups(buf: &[u8], pos: usize) -> (r: (Vec<Section>, usize))
    requires
        pos <= buf@.len(),
    ensures
        distinct_keys(section_pairs(r.0@)),
        collapse(section_pairs(r.0@)) == collapse(groups_from(buf@, pos as int).0),
        r.1 == groups_from(buf@, pos as int).1,
        pos <= r.1 <= buf@.len(),
{
    let mut sections: Vec<Section> = Vec::new();
    let mut cur: usize = pos;
    let ghost mut done = Seq::<(Seq<char>, Body)>::empty();
    loop
        invariant
            pos <= cur <= buf@.len(),
            groups_from(buf@, pos as int).0 == done + groups_from(buf@, cur as int).0,
            groups_from(buf@, pos as int).1 == groups_from(buf@, cur as int).1,
            distinct_keys(section_pairs(sections@)),
            collapse(section_pairs(sections@)) == collapse(done),
        ensures
            pos <= cur <= buf@.len(),
            groups_from(buf@, pos as int).0 == done,
            groups_from(buf@, pos as int).1 == cur,
            distinct_keys(section_pairs(sections@)),
            collapse(section_pairs(sections@)) == collapse(done),
        decreases buf@.len() - cur,
    {
        match read_group(buf, cur) {
            Some((section, end)) => {
                proof {
                    let more = groups_from(buf@, end as int).0;
                    let pair = section.pair();
                    assert(done + (seq![pair] + more) =~= done.push(pair) + more);
                    lemma_collapse_push(done, pair.0, pair.1);
                    done = done.push(pair);
                }
                put_section(&mut sections, section);
                cur = end;
            },
            None => {
                assert(done + Seq::<(Seq<char>, Body)>::empty() =~= done);
                break ;
            },
        }
    }
    (sections, cur)
}

} // verus!
