//! Locale tags: `lang`, `lang_COUNTRY`, `lang@modifier`, `lang_COUNTRY@modifier`.

use vstd::prelude::*;
use vstd::utf8::encode_utf8;
use crate::bytes::{
    lemma_run_len_bound, lemma_run_len_members, run_len, ByteClass, AT_SIGN, UNDERSCORE,
};
use crate::grammar::{locale_at, locale_of, part_len, part_text, text};
use crate::model::LocaleTag;
use crate::scan::alpha_end;
use crate::text::{
    ascii_text_at, borrow_opt_text, copy_opt_text, opt_str, opt_text, same_opt_text, same_text,
};

verus! {

/// A locale tag. Two tags are the same when their three parts are; no
/// part is normalised, and case counts.
#[derive(Debug)]
pub struct Locale {
    lang: String,
    country: Option<String>,
    modifier: Option<String>,
}

impl View for Locale {
    type V = LocaleTag;

    closed spec fn view(&self) -> LocaleTag {
        LocaleTag {
            lang: self.lang@,
            country: opt_text(self.country),
            modifier: opt_text(self.modifier),
        }
    }
}

/// The tag of an optional locale.
pub open spec fn opt_tag(o: Option<Locale>) -> Option<LocaleTag> {
    match o {
        Some(l) => Some(l@),
        None => None,
    }
}

/// The letters from `from` up to `to`, as text.
fn letters_at(buf: &[u8], from: usize, to: usize) -> (r: String)
    requires
        from <= buf@.len(),
        to == from + run_len(buf@, from as int, ByteClass::Alpha),
    ensures
        r@ == text(buf@, from as int, to as int),
{
    proof {
        lemma_run_len_bound(buf@, from as int, ByteClass::Alpha);
        lemma_run_len_members(buf@, from as int, ByteClass::Alpha);
    }
    ascii_text_at(buf, from, to)
}

/// Reads an optional part of a tag at `pos`: the separator `sep` and the
/// letters after it. Hands back the letters, where both are there, and
/// the position after what was read.
fn read_part(buf: &[u8], pos: usize, sep: u8) -> (r: (Option<String>, usize))
    requires
        pos <= buf@.len(),
    ensures
        r.1 == pos + part_len(buf@, pos as int, sep),
        r.1 <= buf@.len(),
        opt_text(r.0) == part_text(buf@, pos as int, part_len(buf@, pos as int, sep)),
{
    if pos < buf.len() && buf[pos] == sep {
        let end = alpha_end(buf, pos + 1);
        if end > pos + 1 {
            return (Some(letters_at(buf, pos + 1, end)), end);
        }
    }
    (None, pos)
}

impl Locale {
    /// The language.
    pub fn lang(&self) -> (r: &str)
        ensures
            r@ == self@.lang,
    {
        self.lang.as_str()
    }

    /// The country, where the tag names one.
    pub fn country(&self) -> (r: Option<&str>)
        ensures
            opt_str(r) == self@.country,
    {
        borrow_opt_text(&self.country)
    }

    /// The modifier, where the tag has one.
    pub fn modifier(&self) -> (r: Option<&str>)
        ensures
            opt_str(r) == self@.modifier,
    {
        borrow_opt_text(&self.modifier)
    }

    /// Reads the locale tag that starts at `pos` of `buf`, and hands it
    /// back with the position at which it ends.
    pub fn read_at(buf: &[u8], pos: usize) -> (r: Option<(Locale, usize)>)
        requires
            pos <= buf@.len(),
        ensures
            match r {
                Some((locale, end)) => locale_at(buf@, pos as int) == Some((locale@, end as int))
                    && end <= buf@.len(),
                None => locale_at(buf@, pos as int) is None,
            },
    {
        let lang_end = alpha_end(buf, pos);
        if lang_end == pos {
            return None;
        }
        let lang = letters_at(buf, pos, lang_end);
        let (country, country_end) = read_part(buf, lang_end, UNDERSCORE);
        let (modifier, end) = read_part(buf, country_end, AT_SIGN);
        Some((Locale { lang, country, modifier }, end))
    }

    /// The locale tag that `locale` spells. `None` unless the whole of
    /// `locale` is a tag: a tag followed by anything else is none.
    pub fn new(locale: &str) -> (r: Option<Locale>)
        ensures
            opt_tag(r) == locale_of(encode_utf8(locale@)),
    {
        let buf = locale.as_bytes();
        match Locale::read_at(buf, 0) {
            Some((tag, end)) => if end == buf.len() {
                Some(tag)
            } else {
                None
            },
            None => None,
        }
    }
}

impl Clone for Locale {
    fn clone(&self) -> (r: Locale)
        ensures
            r@ == self@,
    {
        Locale {
            lang: self.lang.clone(),
            country: copy_opt_text(&self.country),
            modifier: copy_opt_text(&self.modifier),
        }
    }
}

impl PartialEq for Locale {
    fn eq(&self, other: &Locale) -> (r: bool) {
        same_text(self.lang.as_str(), other.lang.as_str()) && same_opt_text(
            &self.country,
            &other.country,
        ) && same_opt_text(&self.modifier, &other.modifier)
    }
}

impl vstd::std_specs::cmp::PartialEqSpecImpl for Locale {
    open spec fn obeys_eq_spec() -> bool {
        true
    }

    open spec fn eq_spec(&self, other: &Locale) -> bool {
        self@ == other@
    }
}

impl Eq for Locale {

}

} // verus!
