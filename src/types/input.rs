//! A String Catalog as it is read.
use vstd::prelude::*;

use super::inoutoutput::{Plural, StringUnitContainer, TranslationValue, ValueView, Variation};
use super::output::{PluralVariate, TranslationView, variate_at};
use crate::keyed::{keys_sorted, map_of};

verus! {

/// A whole catalog. Its keys are sorted and unique.
#[derive(Debug, Clone)]
pub struct Translation {
    pub source_language: String,
    pub strings: Vec<(String, Language)>,
    pub version: String,
}

#[derive(Debug, Clone)]
pub enum TranslationType {
    StringUnit(TranslationValue),
    Variation(Variation),
}

#[derive(Debug, Clone)]
pub struct VariationContainer {
    pub variations: Variation,
}

/// The translation of a key in one language: one text, or plural variants.
#[derive(Debug, Clone)]
pub enum TranslationTypeContainer {
    StringUnit(StringUnitContainer),
    Variation(VariationContainer),
}

/// The slot of category `variate_at(i)`.
pub open spec fn slot_at(p: Plural, i: int) -> Option<StringUnitContainer> {
    if i == 0 {
        p.zero
    } else if i == 1 {
        p.one
    } else if i == 2 {
        p.two
    } else if i == 3 {
        p.few
    } else if i == 4 {
        p.many
    } else {
        p.other
    }
}

/// The filled slots among the first `n` categories, in category order.
pub open spec fn plural_prefix(p: Plural, n: int) -> Seq<(PluralVariate, ValueView)>
    decreases n,
{
    if n <= 0 {
        Seq::empty()
    } else {
        let rest = plural_prefix(p, n - 1);
        match slot_at(p, n - 1) {
            Some(c) => rest.push((variate_at(n - 1), c.string_unit@)),
            None => rest,
        }
    }
}

/// The filled slots of `p`: zero, one, two, few, many, other, in that order.
pub open spec fn plural_items(p: Plural) -> Seq<(PluralVariate, ValueView)> {
    plural_prefix(p, 6)
}

impl View for TranslationTypeContainer {
    type V = TranslationView;

    /// The translation that this stands for.
    open spec fn view(&self) -> TranslationView {
        match self {
            TranslationTypeContainer::StringUnit(su) => TranslationView::Localization(
                su.string_unit@,
            ),
            TranslationTypeContainer::Variation(vc) => TranslationView::PluralVariation(
                plural_items(vc.variations.plural),
            ),
        }
    }
}

pub struct LanguageView {
    pub comment: Seq<char>,
    pub localizations: Map<Seq<char>, TranslationView>,
}

impl View for Language {
    type V = LanguageView;

    open spec fn view(&self) -> LanguageView {
        LanguageView { comment: self.comment@, localizations: map_of(self.localizations@) }
    }
}

impl Language {
    pub open spec fn wf(&self) -> bool {
        keys_sorted(self.localizations@)
    }
}

/// A catalog: its source language, its version, and the record of each key.
pub struct CatalogView {
    pub source_language: Seq<char>,
    pub version: Seq<char>,
    pub strings: Map<Seq<char>, LanguageView>,
}

impl View for Translation {
    type V = CatalogView;

    open spec fn view(&self) -> CatalogView {
        CatalogView {
            source_language: self.source_language@,
            version: self.version@,
            strings: map_of(self.strings@),
        }
    }
}

impl Translation {
    /// Keys, and language codes within each key, are sorted and unique.
    pub open spec fn wf(&self) -> bool {
        &&& keys_sorted(self.strings@)
        &&& forall|i: int| 0 <= i < self.strings@.len() ==> (#[trigger] self.strings@[i]).1.wf()
    }
}

/// One key of a catalog: its comment and its translations per language code,
/// sorted by language code.
#[derive(Debug, Clone)]
pub struct Language {
    pub comment: String,
    pub localizations: Vec<(String, TranslationTypeContainer)>,
}

} // verus!
