//! Key files: groups of assignments, read from bytes and looked up by
//! group, key and locale.

use vstd::prelude::*;
use vstd::utf8::encode_utf8;
use crate::error::Error;
use crate::grammar::{groups_from, locale_of, parsed, skip_blank};
use crate::locale::{opt_tag, Locale};
use crate::model::{
    collapse, distinct_keys, lemma_collapse_keys, lemma_last_write_wins, Groups, KeyId, LocaleTag,
};
use crate::reader::{read_groups, skip_blank_at};
use crate::table::{
    find_section, find_slot, section_pairs, sections_within, slot_pairs, Section,
};
use crate::text::{opt_str, same_text};

verus! {

/// What a value is stored under: a key name, alone or with a locale.
#[derive(Debug)]
pub struct Key {
    name: String,
    locale: Option<Locale>,
}

impl View for Key {
    type V = KeyId;

    closed spec fn view(&self) -> KeyId {
        KeyId { name: self.name@, locale: opt_tag(self.locale) }
    }
}

/// Whether two optional locales are both absent, or both present and the
/// same tag.
fn same_opt_locale(a: &Option<Locale>, b: &Option<Locale>) -> (r: bool)
    ensures
        r == (opt_tag(*a) == opt_tag(*b)),
{
    match (a, b) {
        (Some(x), Some(y)) => x == y,
        (None, None) => true,
        _ => false,
    }
}

impl Key {
    /// The key of that name and locale.
    pub fn new(name: String, locale: Option<Locale>) -> (r: Key)
        ensures
            r@ == (KeyId { name: name@, locale: opt_tag(locale) }),
    {
        Key { name, locale }
    }

    /// The name of the key.
    pub fn name(&self) -> (r: &str)
        ensures
            r@ == self@.name,
    {
        self.name.as_str()
    }

    /// The locale of the key, where it has one.
    pub fn locale(&self) -> (r: &Option<Locale>)
        ensures
            opt_tag(*r) == self@.locale,
    {
        &self.locale
    }

    /// Whether this is the key of that name and locale.
    pub fn is_for(&self, name: &str, locale: &Option<Locale>) -> (r: bool)
        ensures
            r == (self@ == KeyId { name: name@, locale: opt_tag(*locale) }),
    {
        same_text(self.name.as_str(), name) && same_opt_locale(&self.locale, locale)
    }
}

impl Clone for Key {
    fn clone(&self) -> (r: Key)
        ensures
            r@ == self@,
    {
        let locale = match &self.locale {
            Some(tag) => Some(tag.clone()),
            None => None,
        };
        Key { name: self.name.clone(), locale }
    }
}

impl PartialEq for Key {
    fn eq(&self, other: &Key) -> (r: bool) {
        self.is_for(other.name.as_str(), &other.locale)
    }
}

impl vstd::std_specs::cmp::PartialEqSpecImpl for Key {
    open spec fn obeys_eq_spec() -> bool {
        true
    }

    open spec fn eq_spec(&self, other: &Key) -> bool {
        self@ == other@
    }
}

impl Eq for Key {

}

/// The value that `groups` holds in the group `group` under `key`.
pub open spec fn value_of(groups: Groups, group: Seq<char>, key: KeyId) -> Option<Seq<char>> {
    if groups.contains_key(group) && groups[group].contains_key(key) {
        Some(groups[group][key])
    } else {
        None
    }
}

/// The truth value that `value` spells: `true` and `false` spell one,
/// letter for letter, and nothing else does.
pub open spec fn truth_of(value: Seq<char>) -> Option<bool> {
    if value == "true"@ {
        Some(true)
    } else if value == "false"@ {
        Some(false)
    } else {
        None
    }
}

/// What reading the bytes `s` may hand back: the key file that the
/// grammar finds in them, or the error where it finds none.
pub open spec fn reads_as(s: Seq<u8>, r: Result<KeyFile, Error>) -> bool {
    match r {
        Ok(file) => parsed(s) == Some(file@),
        Err(err) => err is Parse && parsed(s) is None,
    }
}

/// Reading is deterministic: two readings of the same bytes both fail, with
/// the same error, or both succeed, with key files that hold the same.
pub proof fn lemma_reading_is_deterministic(
    s: Seq<u8>,
    first: Result<KeyFile, Error>,
    second: Result<KeyFile, Error>,
)
    requires
        reads_as(s, first),
        reads_as(s, second),
    ensures
        first is Ok <==> second is Ok,
        first matches Ok(a) ==> (second matches Ok(b) && a@ == b@),
        first matches Err(a) ==> (second matches Err(b) && a == b),
{
}

/// Reading takes the whole input or nothing: there is a key file exactly
/// where the groups of the grammar, one after the other, reach the end of
/// the input. A key file that is followed by anything else is none.
pub proof fn lemma_reading_takes_the_whole_input(s: Seq<u8>, r: Result<KeyFile, Error>)
    requires
        reads_as(s, r),
    ensures
        r is Ok <==> groups_from(s, skip_blank(s, 0)).1 == s.len(),
        r is Err ==> r == Err::<KeyFile, Error>(Error::Parse),
{
}

/// Locales are matched exactly: where no assignment of a group was written
/// with this very name and this very tag, nothing is found under them,
/// whatever was written for the name alone or for the name with other tags.
pub proof fn lemma_locale_is_matched_exactly(
    pairs: Seq<(KeyId, Seq<char>)>,
    name: Seq<char>,
    tag: LocaleTag,
)
    requires
        forall|i: int|
            0 <= i < pairs.len() ==> !((#[trigger] pairs[i]).0.name == name && pairs[i].0.locale
                == Some(tag)),
    ensures
        !collapse(pairs).contains_key(KeyId { name, locale: Some(tag) }),
{
    lemma_collapse_keys(pairs, KeyId { name, locale: Some(tag) });
}

/// Truth values are strict: only `true` spells true and only `false`
/// spells false, and any other text spells neither.
pub proof fn lemma_truth_is_strict(value: Seq<char>)
    ensures
        truth_of(value) == Some(true) <==> value == "true"@,
        truth_of(value) == Some(false) <==> value == "false"@,
        truth_of(value) is None <==> (value != "true"@ && value != "false"@),
{
    reveal_strlit("true");
    reveal_strlit("false");
    assert("true"@.len() != "false"@.len());
}

/// A key file: groups by name, and in each group values by key. It is
/// made once, from bytes, and only read afterwards.
///
/// Two key files are equal when they hold the same groups with the same
/// values, in whatever order these were written.
#[derive(Debug)]
pub struct KeyFile {
    sections: Vec<Section>,
}

impl View for KeyFile {
    type V = Groups;

    closed spec fn view(&self) -> Groups {
        collapse(section_pairs(self.sections@))
    }
}

impl KeyFile {
    #[verifier::type_invariant]
    spec fn names_are_distinct(&self) -> bool {
        distinct_keys(section_pairs(self.sections@))
    }

    /// Reads a key file from `buf`. The whole of `buf` must be a key
    /// file: where it is one only up to some byte, nothing is handed
    /// back but the error.
    pub fn read_bytes(buf: &[u8]) -> (r: Result<KeyFile, Error>)
        ensures
            reads_as(buf@, r),
    {
        let start = skip_blank_at(buf, 0);
        let (sections, stop) = read_groups(buf, start);
        if stop == buf.len() {
            Ok(KeyFile { sections })
        } else {
            Err(Error::Parse)
        }
    }

    /// The value of `key` with that locale in the group `group_name`.
    fn get_value(&self, group_name: &str, key: &str, locale: &Option<Locale>) -> (r: Option<&str>)
        ensures
            opt_str(r) == value_of(
                self@,
                group_name@,
                KeyId { name: key@, locale: opt_tag(*locale) },
            ),
    {
        let ghost groups = section_pairs(self.sections@);
        let ghost id = KeyId { name: key@, locale: opt_tag(*locale) };
        proof {
            use_type_invariant(self);
            lemma_collapse_keys(groups, group_name@);
        }
        match find_section(&self.sections, group_name) {
            Some(at) => {
                let section = &self.sections[at];
                let ghost slots = slot_pairs(section.slots@);
                proof {
                    use_type_invariant(section);
                    assert(groups[at as int] == section.pair());
                    lemma_last_write_wins(groups, at as int);
                    lemma_collapse_keys(slots, id);
                }
                match find_slot(&section.slots, key, locale) {
                    Some(found) => {
                        proof {
                            assert(slots[found as int].0 == id);
                            lemma_last_write_wins(slots, found as int);
                        }
                        Some(section.slots[found].value.as_str())
                    },
                    None => None,
                }
            },
            None => None,
        }
    }

    /// The value of `key`, without a locale, in the group `group_name`.
    pub fn get_default_string(&self, group_name: &str, key: &str) -> (r: Option<&str>)
        ensures
            opt_str(r) == value_of(self@, group_name@, KeyId { name: key@, locale: None }),
    {
        self.get_value(group_name, key, &None)
    }

    /// The value of `key` with the locale that `locale` spells, in the
    /// group `group_name`. Only a value that was written with exactly
    /// that locale is found: none with a less specific one, and none
    /// without a locale. Where `locale` spells no locale, nothing is found.
    pub fn get_localized_string(&self, group_name: &str, key: &str, locale: &str) -> (r: Option<
        &str,
    >)
        ensures
            opt_str(r) == match locale_of(encode_utf8(locale@)) {
                Some(tag) => value_of(self@, group_name@, KeyId { name: key@, locale: Some(tag) }),
                None => None,
            },
    {
        match Locale::new(locale) {
            Some(tag) => self.get_value(group_name, key, &Some(tag)),
            None => None,
        }
    }

    /// The truth value of `key`, without a locale, in the group
    /// `group_name`: present only where the value is `true` or `false`
    /// to the letter.
    pub fn get_boolean(&self, group_name: &str, key: &str) -> (r: Option<bool>)
        ensures
            r == match value_of(self@, group_name@, KeyId { name: key@, locale: None }) {
                Some(value) => truth_of(value),
                None => None,
            },
    {
        match self.get_value(group_name, key, &None) {
            Some(value) => if same_text(value, "true") {
                Some(true)
            } else if same_text(value, "false") {
                Some(false)
            } else {
                None
            },
            None => None,
        }
    }
}

impl Clone for KeyFile {
    fn clone(&self) -> (r: KeyFile)
        ensures
            r@ == self@,
    {
        proof {
            use_type_invariant(self);
        }
        let mut sections: Vec<Section> = Vec::new();
        let mut i: usize = 0;
        while i < self.sections.len()
            invariant
                i <= self.sections@.len(),
                section_pairs(sections@) == section_pairs(self.sections@).take(i as int),
            decreases self.sections@.len() - i,
        {
            let ghost before = section_pairs(sections@);
            let section = self.sections[i].copy();
            let ghost pair = section.pair();
            sections.push(section);
            assert(section_pairs(sections@) =~= before.push(pair));
            assert(section_pairs(self.sections@).take(i + 1) =~= before.push(pair));
            i = i + 1;
        }
        assert(section_pairs(sections@) =~= section_pairs(self.sections@));
        KeyFile { sections }
    }
}

impl PartialEq for KeyFile {
    fn eq(&self, other: &KeyFile) -> (r: bool) {
        proof {
            use_type_invariant(self);
            use_type_invariant(other);
            self@.lemma_submap_eq_iff(other@);
        }
        sections_within(&self.sections, &other.sections) && sections_within(
            &other.sections,
            &self.sections,
        )
    }
}

impl vstd::std_specs::cmp::PartialEqSpecImpl for KeyFile {
    open spec fn obeys_eq_spec() -> bool {
        true
    }

    open spec fn eq_spec(&self, other: &KeyFile) -> bool {
        self@ == other@
    }
}

impl Eq for KeyFile {

}

} // verus!
