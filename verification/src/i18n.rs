//! Interface language and translation of keys: game names come from the metadata
//! database, interface texts from the Spanish and English locale tables.
use vstd::prelude::*;
use crate::db::{owned, append_text, first_from, lemma_first_from_found, translated_item, translated_passive, translated_pal, PalDb};
use crate::text::text_eq;

verus! {

/// The interface language.
#[derive(Clone, Copy, PartialEq, Eq, Structural, Debug)]
pub enum Language {
    Es,
    En,
}

impl Default for Language {
    fn default() -> (r: Language)
        ensures
            r == Language::Es,
    {
        Language::Es
    }
}

/// The language chosen for a system locale: Spanish when the locale starts with `es` in
/// any ASCII case, English otherwise (and when there is no locale).
pub open spec fn language_for(locale: Option<Seq<char>>) -> Language {
    match locale {
        Some(l) => if l.len() >= 2 && (l[0] == 'e' || l[0] == 'E') && (l[1] == 's' || l[1]
            == 'S') {
            Language::Es
        } else {
            Language::En
        },
        None => Language::En,
    }
}

/// The language for a system locale (see `language_for`).
pub fn language_for_locale(locale: Option<&str>) -> (r: Language)
    ensures
        r == language_for(match locale {
            Some(l) => Some(l@),
            None => None,
        }),
{
    match locale {
        Some(l) => {
            let cs = crate::text::chars_of(l);
            if cs.len() >= 2 && (cs[0] == 'e' || cs[0] == 'E') && (cs[1] == 's' || cs[1] == 'S') {
                Language::Es
            } else {
                Language::En
            }
        },
        None => Language::En,
    }
}

/// Reads the system locale with `sys_locale::get_locale`. What it returns depends on the
/// machine's settings, so nothing is stated of it.
#[verifier::external_body]
fn system_locale() -> Option<String> {
    sys_locale::get_locale()
}

/// The language of the system locale: Spanish for an `es` locale, English otherwise.
pub fn detect_system_language() -> (r: Language) {
    match system_locale() {
        Some(l) => language_for_locale(Some(l.as_str())),
        None => language_for_locale(None),
    }
}

/// Locale entries whose key is `key`.
pub open spec fn key_is(key: Seq<char>) -> spec_fn((String, String)) -> bool {
    |e: (String, String)| e.0@ == key
}

/// The value for `key` in a locale table (its first entry with that key).
pub open spec fn locale_value(table: Seq<(String, String)>, key: Seq<char>) -> Option<Seq<char>> {
    match first_from(table, key_is(key), 0) {
        Some(i) => Some(table[i].1@),
        None => None,
    }
}

/// The translation of a key: the pal name, then the passive skill (with its description in
/// parentheses when it has one), then the item name, whichever differs from the key; else
/// the current language's locale text, else the other language's, else the key itself.
pub open spec fn translation(
    db: PalDb,
    lang: Language,
    es: Seq<(String, String)>,
    en: Seq<(String, String)>,
    key: Seq<char>,
) -> Seq<char> {
    let use_es = lang == Language::Es;
    let p = translated_pal(db.pals@, key, use_es);
    let (n, d) = translated_passive(db.passives@, key, use_es);
    let it = translated_item(db.items@, key, use_es);
    let (primary, secondary) = if use_es {
        (es, en)
    } else {
        (en, es)
    };
    if p != key {
        p
    } else if n != key {
        if d.len() > 0 {
            n + " ("@ + d + ")"@
        } else {
            n
        }
    } else if it != key {
        it
    } else {
        match locale_value(primary, key) {
            Some(v) => v,
            None => match locale_value(secondary, key) {
                Some(v) => v,
                None => key,
            },
        }
    }
}

/// The interface language in use and the two locale tables.
#[derive(Debug, Clone)]
pub struct I18n {
    pub current: Language,
    pub es: Vec<(String, String)>,
    pub en: Vec<(String, String)>,
}

fn lookup(table: &Vec<(String, String)>, key: &str) -> (r: Option<String>)
    ensures
        locale_value(table@, key@) is None ==> r is None,
        locale_value(table@, key@) matches Some(v) ==> r matches Some(rv) && rv@ == v,
{
    let mut i: usize = 0;
    while i < table.len()
        invariant
            i <= table@.len(),
            first_from(table@, key_is(key@), 0) == first_from(
                table@,
                key_is(key@),
                i as int,
            ),
        decreases table@.len() - i,
    {
        if text_eq(table[i].0.as_str(), key) {
            return Some(owned(table[i].1.as_str()));
        }
        i = i + 1;
    }
    None
}

impl I18n {
    /// Loads the two locale tables and selects a language.
    pub fn init(lang: Language, es: Vec<(String, String)>, en: Vec<(String, String)>) -> (r: I18n)
        ensures
            r.current == lang,
            r.es@ == es@,
            r.en@ == en@,
    {
        I18n { current: lang, es, en }
    }

    /// Selects the interface language.
    pub fn set_language(&mut self, lang: Language)
        ensures
            final(self).current == lang,
            final(self).es@ == old(self).es@,
            final(self).en@ == old(self).en@,
    {
        self.current = lang;
    }

    /// The interface language in use.
    pub fn current_language(&self) -> (r: Language)
        ensures
            r == self.current,
    {
        self.current
    }

    /// Translates a key (see `translation`).
    pub fn t(&self, db: &PalDb, key: &str) -> (r: String)
        ensures
            r@ == translation(*db, self.current, self.es@, self.en@, key@),
    {
        let use_es = self.current_language() == Language::Es;
        let p = db.translate_pal(key, use_es);
        if !text_eq(p.as_str(), key) {
            return p;
        }
        let (n, d) = db.translate_passive(key, use_es);
        if !text_eq(n.as_str(), key) {
            if !d.as_str().is_empty() {
                let mut out = n;
                append_text(&mut out, " (");
                append_text(&mut out, d.as_str());
                append_text(&mut out, ")");
                return out;
            }
            return n;
        }
        let it = db.translate_item(key, use_es);
        if !text_eq(it.as_str(), key) {
            return it;
        }
        let (primary, secondary) = if use_es {
            (&self.es, &self.en)
        } else {
            (&self.en, &self.es)
        };
        if let Some(v) = lookup(primary, key) {
            return v;
        }
        if let Some(v) = lookup(secondary, key) {
            return v;
        }
        owned(key)
    }
}

} // verus!
