//! What a catalog is turned into: entries per key, regrouped per language,
//! and rendered as Android resources.
use vstd::prelude::*;

use super::input;
use super::inoutoutput::{TranslationValue, ValueView};
use crate::keyed::{keys_sorted, map_of};
use crate::text::str_eq;

verus! {

#[derive(Debug, Clone)]
pub enum ParsedError {
    ParseToJson(String),
    InvalidUtf8(String),
    Io(String),
    InvalidTranslationKey(String),
}

/// The description of an error, as a user reads it.
pub open spec fn error_message(e: ParsedError) -> Seq<char> {
    match e {
        ParsedError::ParseToJson(m) => "Invalid XCStrings file: "@ + m@,
        ParsedError::InvalidUtf8(m) => "Invalid UTF8: "@ + m@,
        ParsedError::Io(m) => "IO error: "@ + m@,
        ParsedError::InvalidTranslationKey(k) => "Invalid translation key: "@ + k@,
    }
}

impl ParsedError {
    /// A description of the error for people.
    pub fn message(&self) -> (r: String)
        ensures
            r@ == error_message(*self),
    {
        let (prefix, detail) = match self {
            ParsedError::ParseToJson(m) => ("Invalid XCStrings file: ", m),
            ParsedError::InvalidUtf8(m) => ("Invalid UTF8: ", m),
            ParsedError::Io(m) => ("IO error: ", m),
            ParsedError::InvalidTranslationKey(k) => ("Invalid translation key: ", k),
        };
        let mut out = String::from_str(prefix);
        out.append(detail.as_str());
        out
    }
}

#[derive(Debug, Clone)]
pub struct Parsed {
    pub localizable: Localizable,
    pub translation: input::Translation,
}

/// One key of the catalog, with its translation in each language.
pub struct EntryView {
    pub key_raw: Seq<char>,
    pub key_alphanumeric: Seq<char>,
    pub comment: Seq<char>,
    pub per_language: Map<Seq<char>, TranslationView>,
}

#[derive(Debug, Clone)]
pub struct Localizable {
    pub source_language: String,
    pub single_translation: Vec<SingleTranslation>,
}

#[derive(Debug, Clone)]
pub struct SingleTranslation {
    pub key_raw: String,
    pub key_alphanumeric: String,
    pub localization_value: LocalizationValue,
    pub comment: String,
}

impl View for SingleTranslation {
    type V = EntryView;

    open spec fn view(&self) -> EntryView {
        EntryView {
            key_raw: self.key_raw@,
            key_alphanumeric: self.key_alphanumeric@,
            comment: self.comment@,
            per_language: self.localization_value@,
        }
    }
}

impl SingleTranslation {
    pub open spec fn wf(&self) -> bool {
        self.localization_value.wf()
    }
}

/// The source language and the entries, in order.
pub struct LocalizableView {
    pub source_language: Seq<char>,
    pub entries: Seq<EntryView>,
}

impl View for Localizable {
    type V = LocalizableView;

    open spec fn view(&self) -> LocalizableView {
        LocalizableView {
            source_language: self.source_language@,
            entries: self.single_translation@.map_values(|e: SingleTranslation| e@),
        }
    }
}

pub type ParsedResult = Result<Parsed, ParsedError>;

impl Localizable {
    /// Each entry keeps its languages sorted.
    pub open spec fn wf(&self) -> bool {
        forall|i: int|
            0 <= i < self.single_translation@.len() ==> (#[trigger] self.single_translation@[i]).wf()
    }
}

/// The translations of one key, per language code, sorted by language code.
#[derive(Debug, Clone)]
pub struct LocalizationValue {
    pub language_translation: Vec<(String, Translation)>,
}

impl View for LocalizationValue {
    type V = Map<Seq<char>, TranslationView>;

    open spec fn view(&self) -> Map<Seq<char>, TranslationView> {
        map_of(self.language_translation@)
    }
}

impl LocalizationValue {
    pub open spec fn wf(&self) -> bool {
        keys_sorted(self.language_translation@)
    }
}

/// One key in the list of one language.
pub struct RecordView {
    pub key_raw: Seq<char>,
    pub key_alphanumeric: Seq<char>,
    pub translation: TranslationView,
    pub comment: Seq<char>,
}

#[derive(Debug, Clone)]
pub struct SingleLocalizedPerLanguage {
    pub key_raw: String,
    pub key_alphanumeric: String,
    pub translation: Translation,
    pub comment: String,
}

impl View for SingleLocalizedPerLanguage {
    type V = RecordView;

    open spec fn view(&self) -> RecordView {
        RecordView {
            key_raw: self.key_raw@,
            key_alphanumeric: self.key_alphanumeric@,
            translation: self.translation@,
            comment: self.comment@,
        }
    }
}

/// The keys of one language, in order, with the number of words of their text.
pub struct InfoView {
    pub word_count: nat,
    pub translations: Seq<RecordView>,
}

#[derive(Debug, Clone)]
pub struct LocalizedPerLanguageInfo {
    pub word_count: usize,
    pub translations: Vec<SingleLocalizedPerLanguage>,
}

impl View for LocalizedPerLanguageInfo {
    type V = InfoView;

    open spec fn view(&self) -> InfoView {
        InfoView {
            word_count: self.word_count as nat,
            translations: self.translations@.map_values(|r: SingleLocalizedPerLanguage| r@),
        }
    }
}

/// The entries regrouped per language code, sorted by language code.
#[derive(Debug, Clone)]
pub struct LocalizedPerLanguage {
    pub source_language: String,
    pub language_localized: Vec<(String, LocalizedPerLanguageInfo)>,
}

/// Where the rendered files go: the directory under which each language gets
/// its `values` directory, and the one language to write, if only one.
#[derive(Debug, Clone)]
pub struct AndroidWriteConfig {
    pub write_in: String,
    pub only_write_language_code: Option<String>,
}

#[derive(Debug, Clone)]
pub struct AndroidLocalizeConfig {
    pub app_name: String,
    pub write_config: Option<AndroidWriteConfig>,
}

#[derive(Debug, Clone)]
pub struct WrittenXml {
    pub language_code: String,
    pub sub_dir: String,
}

/// The Android document of each language, sorted by language code, and the
/// files that belong on disk.
#[derive(Debug, Clone)]
pub struct LocalizedForAndroid {
    pub sorted_languages: Vec<(String, String)>,
    pub written_xmls: Vec<WrittenXml>,
}

#[derive(Debug, Clone)]
pub struct SinglePluralVariation {
    pub variate: PluralVariate,
    pub translation_value: TranslationValue,
}

impl View for SinglePluralVariation {
    type V = (PluralVariate, ValueView);

    open spec fn view(&self) -> (PluralVariate, ValueView) {
        (self.variate, self.translation_value@)
    }
}

/// A translation: a single text, or one text per plural category.
pub enum TranslationView {
    Localization(ValueView),
    PluralVariation(Seq<(PluralVariate, ValueView)>),
}

#[derive(Debug, Clone)]
pub enum Translation {
    Localization(TranslationValue),
    PluralVariation(Vec<SinglePluralVariation>),
}

impl View for Translation {
    type V = TranslationView;

    open spec fn view(&self) -> TranslationView {
        match self {
            Translation::Localization(tv) => TranslationView::Localization(tv@),
            Translation::PluralVariation(pv) => TranslationView::PluralVariation(
                pv@.map_values(|s: SinglePluralVariation| s@),
            ),
        }
    }
}

impl Translation {
    /// The single text, where this is one.
    pub fn expect_localization(self) -> (r: Option<TranslationValue>)
        ensures
            match self {
                Translation::Localization(tv) => r == Some(tv),
                Translation::PluralVariation(_) => r is None,
            },
    {
        match self {
            Translation::Localization(tv) => Some(tv),
            Translation::PluralVariation(_) => None,
        }
    }

    /// The texts per plural category, where this has them.
    pub fn expect_plural_variation(self) -> (r: Option<Vec<SinglePluralVariation>>)
        ensures
            match self {
                Translation::PluralVariation(pv) => r == Some(pv),
                Translation::Localization(_) => r is None,
            },
    {
        match self {
            Translation::PluralVariation(pv) => Some(pv),
            Translation::Localization(_) => None,
        }
    }

    /// A copy with the same view.
    pub fn duplicate(&self) -> (r: Translation)
        ensures
            r@ == self@,
    {
        match self {
            Translation::Localization(tv) => Translation::Localization(tv.duplicate()),
            Translation::PluralVariation(pv) => {
                let mut out: Vec<SinglePluralVariation> = Vec::new();
                let mut i: usize = 0;
                while i < pv.len()
                    invariant
                        i <= pv@.len(),
                        out@.len() == i,
                        forall|k: int| 0 <= k < i ==> (#[trigger] out@[k])@ == pv@[k]@,
                    decreases pv@.len() - i,
                {
                    let item = SinglePluralVariation {
                        variate: pv[i].variate,
                        translation_value: pv[i].translation_value.duplicate(),
                    };
                    out.push(item);
                    i = i + 1;
                }
                assert(out@.map_values(|s: SinglePluralVariation| s@) =~= pv@.map_values(
                    |s: SinglePluralVariation| s@,
                ));
                Translation::PluralVariation(out)
            },
        }
    }
}

/// A CLDR plural category.
#[derive(Debug, Clone, Copy, PartialEq, Eq, Hash, Structural)]
pub enum PluralVariate {
    Zero,
    One,
    Two,
    Few,
    Many,
    Other,
}

/// The quantity name of a category in Android resources.
pub open spec fn variate_key(v: PluralVariate) -> Seq<char> {
    match v {
        PluralVariate::Zero => seq!['z', 'e', 'r', 'o'],
        PluralVariate::One => seq!['o', 'n', 'e'],
        PluralVariate::Two => seq!['t', 'w', 'o'],
        PluralVariate::Few => seq!['f', 'e', 'w'],
        PluralVariate::Many => seq!['m', 'a', 'n', 'y'],
        PluralVariate::Other => seq!['o', 't', 'h', 'e', 'r'],
    }
}

/// The categories in the order in which they are always emitted.
pub open spec fn variate_at(i: int) -> PluralVariate {
    if i == 0 {
        PluralVariate::Zero
    } else if i == 1 {
        PluralVariate::One
    } else if i == 2 {
        PluralVariate::Two
    } else if i == 3 {
        PluralVariate::Few
    } else if i == 4 {
        PluralVariate::Many
    } else {
        PluralVariate::Other
    }
}

pub fn variate_at_exec(i: usize) -> (r: PluralVariate)
    ensures
        r == variate_at(i as int),
{
    if i == 0 {
        PluralVariate::Zero
    } else if i == 1 {
        PluralVariate::One
    } else if i == 2 {
        PluralVariate::Two
    } else if i == 3 {
        PluralVariate::Few
    } else if i == 4 {
        PluralVariate::Many
    } else {
        PluralVariate::Other
    }
}

impl PluralVariate {
    /// The category whose Android quantity name is `str`.
    pub fn from_android_key(str: &str) -> (r: Option<PluralVariate>)
        ensures
            match r {
                Some(v) => variate_key(v) == str@,
                None => forall|v: PluralVariate| variate_key(v) != str@,
            },
    {
        let mut i: usize = 0;
        while i < 6
            invariant
                i <= 6,
                forall|j: int| 0 <= j < i ==> variate_key(#[trigger] variate_at(j)) != str@,
            decreases 6 - i,
        {
            let v = variate_at_exec(i);
            if str_eq(v.android_key(), str) {
                return Some(v);
            }
            i = i + 1;
        }
        assert forall|v: PluralVariate| variate_key(v) != str@ by {
            let j: int = match v {
                PluralVariate::Zero => 0,
                PluralVariate::One => 1,
                PluralVariate::Two => 2,
                PluralVariate::Few => 3,
                PluralVariate::Many => 4,
                PluralVariate::Other => 5,
            };
            assert(variate_at(j) == v);
        }
        None
    }

    /// The quantity name of this category in Android resources.
    pub fn android_key(&self) -> (r: &'static str)
        ensures
            r@ == variate_key(*self),
    {
        match self {
            PluralVariate::Zero => {
                proof {
                    reveal_strlit("zero");
                }
                "zero"
            },
            PluralVariate::One => {
                proof {
                    reveal_strlit("one");
                }
                "one"
            },
            PluralVariate::Two => {
                proof {
                    reveal_strlit("two");
                }
                "two"
            },
            PluralVariate::Few => {
                proof {
                    reveal_strlit("few");
                }
                "few"
            },
            PluralVariate::Many => {
                proof {
                    reveal_strlit("many");
                }
                "many"
            },
            PluralVariate::Other => {
                proof {
                    reveal_strlit("other");
                }
                "other"
            },
        }
    }
}

} // verus!
