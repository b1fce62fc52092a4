//! The tables that a key file is kept in: the assignments of a group, and
//! the groups of a file, each as a list in which no key stands twice.
//!
//! A list stands for the mapping that it collapses to. Writing into a list
//! replaces the entry that has the key, so that the list stays without
//! repetition and the last write wins.

use vstd::prelude::*;
use crate::key_file::Key;
use crate::locale::{opt_tag, Locale};
use crate::model::{
    collapse, distinct_keys, lemma_collapse_keys, lemma_collapse_push, lemma_collapse_update,
    lemma_last_write_wins, Body, KeyId,
};
use crate::text::same_text;

verus! {

/// One assignment of a group.
#[derive(Debug)]
pub(crate) struct Slot {
    pub(crate) key: Key,
    pub(crate) value: String,
}

impl Slot {
    /// The key and the value.
    pub(crate) open spec fn pair(&self) -> (KeyId, Seq<char>) {
        (self.key@, self.value@)
    }

    /// A copy of the assignment.
    pub(crate) fn copy(&self) -> (r: Slot)
        ensures
            r.pair() == self.pair(),
    {
        Slot { key: self.key.clone(), value: self.value.clone() }
    }
}

/// The assignments as pairs of key and value, in their order.
pub(crate) open spec fn slot_pairs(slots: Seq<Slot>) -> Seq<(KeyId, Seq<char>)> {
    slots.map_values(|slot: Slot| slot.pair())
}

/// Where in `slots` the key of that name and locale stands.
pub(crate) fn find_slot(slots: &Vec<Slot>, name: &str, locale: &Option<Locale>) -> (r: Option<usize>)
    ensures
        match r {
            Some(at) => at < slots@.len() && slots@[at as int].key@ == (KeyId {
                name: name@,
                locale: opt_tag(*locale),
            }),
            None => forall|i: int|
                0 <= i < slots@.len() ==> (#[trigger] slots@[i]).key@ != (KeyId {
                    name: name@,
                    locale: opt_tag(*locale),
                }),
        },
{
    let mut at: usize = 0;
    while at < slots.len()
        invariant
            at <= slots@.len(),
            forall|i: int|
                0 <= i < at ==> (#[trigger] slots@[i]).key@ != (KeyId {
                    name: name@,
                    locale: opt_tag(*locale),
                }),
        decreases slots@.len() - at,
    {
        if slots[at].key.is_for(name, locale) {
            return Some(at);
        }
        at = at + 1;
    }
    None
}

/// Writes an assignment into `slots`: over the one that has its key,
/// where there is one, and else at the end.
pub(crate) fn put_slot(slots: &mut Vec<Slot>, key: Key, value: String)
    requires
        distinct_keys(slot_pairs(old(slots)@)),
    ensures
        distinct_keys(slot_pairs(final(slots)@)),
        collapse(slot_pairs(final(slots)@)) == collapse(slot_pairs(old(slots)@)).insert(
            key@,
            value@,
        ),
{
    let ghost before = slot_pairs(slots@);
    match find_slot(slots, key.name(), key.locale()) {
        Some(at) => {
            proof {
                assert(before[at as int].0 == key@);
                lemma_collapse_update(before, at as int, value@);
            }
            slots.set(at, Slot { key, value });
            assert(slot_pairs(slots@) =~= before.update(at as int, (key@, value@)));
        },
        None => {
            proof {
                lemma_collapse_push(before, key@, value@);
            }
            slots.push(Slot { key, value });
            assert(slot_pairs(slots@) =~= before.push((key@, value@)));
            assert forall|i: int, j: int| 0 <= i < j < slot_pairs(slots@).len() implies (
            #[trigger] slot_pairs(slots@)[i]).0 != (#[trigger] slot_pairs(slots@)[j]).0 by {
                if j < before.len() {
                    assert(before[i].0 != before[j].0);
                } else {
                    assert(before[i].0 == old(slots)@[i].key@);
                }
            }
        },
    }
}

/// One group: its name and its assignments, no key twice.
#[derive(Debug)]
pub(crate) struct Section {
    pub(crate) name: String,
    pub(crate) slots: Vec<Slot>,
}

impl Section {
    #[verifier::type_invariant]
    pub(crate) open spec fn keys_are_distinct(&self) -> bool {
        distinct_keys(slot_pairs(self.slots@))
    }

    /// The name of the group and the mapping that it holds.
    pub(crate) open spec fn pair(&self) -> (Seq<char>, Body) {
        (self.name@, collapse(slot_pairs(self.slots@)))
    }

    /// A copy of the group.
    pub(crate) fn copy(&self) -> (r: Section)
        ensures
            r.pair() == self.pair(),
    {
        proof {
            use_type_invariant(self);
        }
        let mut slots: Vec<Slot> = Vec::new();
        let mut i: usize = 0;
        while i < self.slots.len()
            invariant
                i <= self.slots@.len(),
                slot_pairs(slots@) == slot_pairs(self.slots@).take(i as int),
            decreases self.slots@.len() - i,
        {
            let ghost before = slot_pairs(slots@);
            let slot = self.slots[i].copy();
            slots.push(slot);
            assert(slot_pairs(slots@) =~= before.push(slot.pair()));
            assert(slot_pairs(self.slots@).take(i + 1) =~= before.push(slot.pair()));
            i = i + 1;
        }
        assert(slot_pairs(slots@) =~= slot_pairs(self.slots@));
        Section { name: self.name.clone(), slots }
    }
}

/// The groups as pairs of name and mapping, in their order.
pub(crate) open spec fn section_pairs(sections: Seq<Section>) -> Seq<(Seq<char>, Body)> {
    sections.map_values(|section: Section| section.pair())
}

/// Where in `sections` the group of that name stands.
pub(crate) fn find_section(sections: &Vec<Section>, name: &str) -> (r: Option<usize>)
    ensures
        match r {
            Some(at) => at < sections@.len() && sections@[at as int].name@ == name@,
            None => forall|i: int|
                0 <= i < sections@.len() ==> (#[trigger] sections@[i]).name@ != name@,
        },
{
    let mut at: usize = 0;
    while at < sections.len()
        invariant
            at <= sections@.len(),
            forall|i: int| 0 <= i < at ==> (#[trigger] sections@[i]).name@ != name@,
        decreases sections@.len() - at,
    {
        if same_text(sections[at].name.as_str(), name) {
            return Some(at);
        }
        at = at + 1;
    }
    None
}

/// Writes a group into `sections`: in place of the one that has its
/// name, where there is one, and else at the end.
pub(crate) fn put_section(sections: &mut Vec<Section>, section: Section)
    requires
        distinct_keys(section_pairs(old(sections)@)),
    ensures
        distinct_keys(section_pairs(final(sections)@)),
        collapse(section_pairs(final(sections)@)) == collapse(
            section_pairs(old(sections)@),
        ).insert(section.pair().0, section.pair().1),
{
    let ghost before = section_pairs(sections@);
    let ghost name = section.pair().0;
    let ghost body = section.pair().1;
    match find_section(sections, section.name.as_str()) {
        Some(at) => {
            proof {
                assert(before[at as int].0 == name);
                lemma_collapse_update(before, at as int, body);
            }
            sections.set(at, section);
            assert(section_pairs(sections@) =~= before.update(at as int, (name, body)));
        },
        None => {
            proof {
                lemma_collapse_push(before, name, body);
            }
            sections.push(section);
            assert(section_pairs(sections@) =~= before.push((name, body)));
            assert forall|i: int, j: int|
                0 <= i < j < section_pairs(sections@).len() implies (#[trigger] section_pairs(
                sections@,
            )[i]).0 != (#[trigger] section_pairs(sections@)[j]).0 by {
                if j < before.len() {
                    assert(before[i].0 != before[j].0);
                } else {
                    assert(before[i].0 == old(sections)@[i].name@);
                }
            }
        },
    }
}

/// In a list without repeated keys, each pair is an entry of the mapping.
proof fn lemma_distinct_pair_is_entry<K, V>(pairs: Seq<(K, V)>, at: int)
    requires
        distinct_keys(pairs),
        0 <= at < pairs.len(),
    ensures
        collapse(pairs).contains_key(pairs[at].0),
        collapse(pairs)[pairs[at].0] == pairs[at].1,
{
    lemma_last_write_wins(pairs, at);
}

/// Whether every assignment of `a` stands in `b` with the same value.
pub(crate) fn slots_within(a: &Vec<Slot>, b: &Vec<Slot>) -> (r: bool)
    requires
        distinct_keys(slot_pairs(a@)),
        distinct_keys(slot_pairs(b@)),
    ensures
        r == collapse(slot_pairs(a@)).submap_of(collapse(slot_pairs(b@))),
{
    let ghost ours = slot_pairs(a@);
    let ghost theirs = slot_pairs(b@);
    let mut i: usize = 0;
    while i < a.len()
        invariant
            i <= a@.len(),
            ours == slot_pairs(a@),
            theirs == slot_pairs(b@),
            distinct_keys(ours),
            distinct_keys(theirs),
            forall|j: int|
                0 <= j < i ==> collapse(theirs).contains_key((#[trigger] ours[j]).0) && collapse(
                    theirs,
                )[ours[j].0] == ours[j].1,
        decreases a@.len() - i,
    {
        let slot = &a[i];
        proof {
            lemma_distinct_pair_is_entry(ours, i as int);
            lemma_collapse_keys(theirs, ours[i as int].0);
        }
        match find_slot(b, slot.key.name(), slot.key.locale()) {
            Some(at) => {
                proof {
                    assert(theirs[at as int].0 == ours[i as int].0);
                    lemma_distinct_pair_is_entry(theirs, at as int);
                }
                if !same_text(slot.value.as_str(), b[at].value.as_str()) {
                    return false;
                }
            },
            None => {
                return false;
            },
        }
        i = i + 1;
    }
    proof {
        assert forall|key: KeyId| #[trigger]
            collapse(ours).dom().contains(key) implies collapse(theirs).dom().contains(key)
            && collapse(ours)[key] == collapse(theirs)[key] by {
            lemma_collapse_keys(ours, key);
            let j = choose|j: int| 0 <= j < ours.len() && (#[trigger] ours[j]).0 == key;
            lemma_distinct_pair_is_entry(ours, j);
        }
    }
    true
}

/// Whether every group of `a` stands in `b` with the same values.
pub(crate) fn sections_within(a: &Vec<Section>, b: &Vec<Section>) -> (r: bool)
    requires
        distinct_keys(section_pairs(a@)),
        distinct_keys(section_pairs(b@)),
    ensures
        r == collapse(section_pairs(a@)).submap_of(collapse(section_pairs(b@))),
{
    let ghost ours = section_pairs(a@);
    let ghost theirs = section_pairs(b@);
    let mut i: usize = 0;
    while i < a.len()
        invariant
            i <= a@.len(),
            ours == section_pairs(a@),
            theirs == section_pairs(b@),
            distinct_keys(ours),
            distinct_keys(theirs),
            forall|j: int|
                0 <= j < i ==> collapse(theirs).contains_key((#[trigger] ours[j]).0) && collapse(
                    theirs,
                )[ours[j].0] == ours[j].1,
        decreases a@.len() - i,
    {
        let section = &a[i];
        proof {
            use_type_invariant(section);
            lemma_distinct_pair_is_entry(ours, i as int);
            lemma_collapse_keys(theirs, ours[i as int].0);
        }
        match find_section(b, section.name.as_str()) {
            Some(at) => {
                let other = &b[at];
                proof {
                    use_type_invariant(other);
                    assert(theirs[at as int].0 == ours[i as int].0);
                    lemma_distinct_pair_is_entry(theirs, at as int);
                    ours[i as int].1.lemma_submap_eq_iff(theirs[at as int].1);
                }
                if !(slots_within(&section.slots, &other.slots) && slots_within(
                    &other.slots,
                    &section.slots,
                )) {
                    return false;
                }
            },
            None => {
                return false;
            },
        }
        i = i + 1;
    }
    proof {
        assert forall|name: Seq<char>| #[trigger]
            collapse(ours).dom().contains(name) implies collapse(theirs).dom().contains(name)
            && collapse(ours)[name] == collapse(theirs)[name] by {
            lemma_collapse_keys(ours, name);
            let j = choose|j: int| 0 <= j < ours.len() && (#[trigger] ours[j]).0 == name;
            lemma_distinct_pair_is_entry(ours, j);
        }
    }
    true
}

} // verus!
