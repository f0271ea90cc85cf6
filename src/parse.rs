//! From a catalog as read to its entries: keys checked, each key's
//! translations gathered, the source language filled in where it is missing.
use vstd::prelude::*;

use crate::key::{android_name, android_name_of, trim, trim_ws};
use crate::keyed::{find, insert, lemma_map_of_same};
use crate::text::str_eq;
use crate::types::inoutoutput::{Plural, TranslationValue, ValueView, StringUnitContainer};
use crate::types::input::{self, Language, LanguageView, TranslationTypeContainer, plural_prefix, slot_at};
use crate::types::output::{
    EntryView, Localizable, LocalizationValue, ParsedError, SinglePluralVariation,
    SingleTranslation, Translation, TranslationView, variate_at_exec,
};
use crate::TRANSLATED_STATE;

verus! {

/// The translations of a key, with the source language added, as its own key
/// marked translated, where the catalog gives none for it.
pub open spec fn with_source(
    m: Map<Seq<char>, TranslationView>,
    source: Seq<char>,
    key: Seq<char>,
) -> Map<Seq<char>, TranslationView> {
    if m.contains_key(source) {
        m
    } else {
        m.insert(
            source,
            TranslationView::Localization(ValueView { state: TRANSLATED_STATE@, value: key }),
        )
    }
}

/// The entry made of key `key` of a catalog whose source language is `source`.
pub open spec fn normalized_entry(key: Seq<char>, l: LanguageView, source: Seq<char>) -> EntryView {
    EntryView {
        key_raw: key,
        key_alphanumeric: android_name(key),
        comment: l.comment,
        per_language: with_source(l.localizations, source, key),
    }
}

/// A key is accepted when it has no whitespace at either end.
pub open spec fn key_ok(key: Seq<char>) -> bool {
    trim_ws(key) == key
}

fn slot_exec(p: &Plural, i: usize) -> (r: &Option<StringUnitContainer>)
    ensures
        *r == slot_at(*p, i as int),
{
    if i == 0 {
        &p.zero
    } else if i == 1 {
        &p.one
    } else if i == 2 {
        &p.two
    } else if i == 3 {
        &p.few
    } else if i == 4 {
        &p.many
    } else {
        &p.other
    }
}

/// The translation that a unit of the catalog stands for.
fn convert_unit(c: &TranslationTypeContainer) -> (r: Translation)
    ensures
        r@ == c@,
{
    match c {
        TranslationTypeContainer::StringUnit(su) => Translation::Localization(
            su.string_unit.duplicate(),
        ),
        TranslationTypeContainer::Variation(vc) => {
            let p = &vc.variations.plural;
            let mut out: Vec<SinglePluralVariation> = Vec::new();
            let mut i: usize = 0;
            while i < 6
                invariant
                    i <= 6,
                    out@.map_values(|s: SinglePluralVariation| s@) =~= plural_prefix(*p, i as int),
                decreases 6 - i,
            {
                match slot_exec(p, i) {
                    Some(container) => {
                        out.push(
                            SinglePluralVariation {
                                variate: variate_at_exec(i),
                                translation_value: container.string_unit.duplicate(),
                            },
                        );
                    },
                    None => {},
                }
                i = i + 1;
                assert(out@.map_values(|s: SinglePluralVariation| s@) =~= plural_prefix(
                    *p,
                    i as int,
                ));
            }
            Translation::PluralVariation(out)
        },
    }
}

/// The entry of `key`, whose record in the catalog is `lang`.
fn normalize_entry(key: &String, lang: &Language, source: &String) -> (r: SingleTranslation)
    requires
        lang.wf(),
    ensures
        r.wf(),
        r@ == normalized_entry(key@, lang@, source@),
{
    let mut per: Vec<(String, Translation)> = Vec::new();
    let mut i: usize = 0;
    while i < lang.localizations.len()
        invariant
            lang.wf(),
            i <= lang.localizations@.len(),
            per@.len() == i,
            forall|j: int|
                0 <= j < i ==> (#[trigger] per@[j]).0@ == lang.localizations@[j].0@ && per@[j].1@
                    == lang.localizations@[j].1@,
        decreases lang.localizations@.len() - i,
    {
        let code = lang.localizations[i].0.clone();
        let t = convert_unit(&lang.localizations[i].1);
        per.push((code, t));
        i = i + 1;
    }
    proof {
        lemma_map_of_same(lang.localizations@, per@);
    }
    if find(&per, source.as_str()).is_none() {
        let value = TranslationValue { state: String::from_str(TRANSLATED_STATE), value: key.clone() };
        insert(&mut per, source.clone(), Translation::Localization(value));
    }
    let name = android_name_of(key.as_str());
    SingleTranslation {
        key_raw: key.clone(),
        key_alphanumeric: name,
        localization_value: LocalizationValue { language_translation: per },
        comment: lang.comment.clone(),
    }
}

/// The entries of a catalog, in the order of its keys, or the first key that
/// carries whitespace at either end.
pub fn normalize(cat: &input::Translation) -> (r: Result<Localizable, ParsedError>)
    requires
        cat.wf(),
    ensures
        match r {
            Ok(loc) => {
                &&& forall|i: int| 0 <= i < cat.strings@.len() ==> key_ok(#[trigger] cat.strings@[i].0@)
                &&& loc.source_language@ == cat.source_language@
                &&& loc.wf()
                &&& loc.single_translation@.len() == cat.strings@.len()
                &&& forall|i: int|
                    0 <= i < cat.strings@.len() ==> (#[trigger] loc.single_translation@[i])@
                        == normalized_entry(
                        cat.strings@[i].0@,
                        cat.strings@[i].1@,
                        cat.source_language@,
                    )
            },
            Err(ParsedError::InvalidTranslationKey(k)) => exists|i: int|
                0 <= i < cat.strings@.len() && !key_ok(#[trigger] cat.strings@[i].0@) && k@
                    == cat.strings@[i].0@ && forall|j: int| 0 <= j < i ==> key_ok(cat.strings@[j].0@),
            Err(_) => false,
        },
{
    let mut entries: Vec<SingleTranslation> = Vec::new();
    let mut i: usize = 0;
    while i < cat.strings.len()
        invariant
            cat.wf(),
            i <= cat.strings@.len(),
            entries@.len() == i,
            forall|j: int| 0 <= j < i ==> key_ok(#[trigger] cat.strings@[j].0@),
            forall|j: int|
                0 <= j < i ==> (#[trigger] entries@[j]).wf() && entries@[j]@ == normalized_entry(
                    cat.strings@[j].0@,
                    cat.strings@[j].1@,
                    cat.source_language@,
                ),
        decreases cat.strings@.len() - i,
    {
        let key = &cat.strings[i].0;
        let trimmed = trim(key.as_str());
        if !str_eq(trimmed, key.as_str()) {
            return Err(ParsedError::InvalidTranslationKey(key.clone()));
        }
        assert(cat.strings@[i as int].1.wf());
        let entry = normalize_entry(key, &cat.strings[i].1, &cat.source_language);
        entries.push(entry);
        i = i + 1;
    }
    Ok(Localizable { source_language: cat.source_language.clone(), single_translation: entries })
}

} // verus!
