//! Values that occur both in a catalog and in what is made of it.
use vstd::prelude::*;

use crate::text::{
    chars_of, escape_quotes_of, lemma_sanitized_identity, lld_at, replace_lld_of, sanitized,
    string_from_chars,
};

verus! {

/// The text of a translation and its state, as character sequences.
pub struct ValueView {
    pub state: Seq<char>,
    pub value: Seq<char>,
}

#[derive(Debug, Clone)]
pub struct TranslationValue {
    pub state: String,
    pub value: String,
}

impl View for TranslationValue {
    type V = ValueView;

    open spec fn view(&self) -> ValueView {
        ValueView { state: self.state@, value: self.value@ }
    }
}

impl TranslationValue {
    /// A copy with the same text and state.
    pub fn duplicate(&self) -> (r: TranslationValue)
        ensures
            r@ == self@,
    {
        TranslationValue { state: self.state.clone(), value: self.value.clone() }
    }

    /// The value as Android expects it: each `'` escaped with a backslash, then
    /// each `$lld` turned into `$d`.
    pub fn sanitize_for_android(&self) -> (r: String)
        ensures
            r@ == sanitized(self.value@),
            !self.value@.contains('\'') && (forall|i: int| !lld_at(self.value@, i)) ==> r@
                == self.value@,
    {
        let cs = chars_of(self.value.as_str());
        let quoted = escape_quotes_of(cs.as_slice());
        let done = replace_lld_of(quoted.as_slice());
        proof {
            if !self.value@.contains('\'') && (forall|i: int| !lld_at(self.value@, i)) {
                lemma_sanitized_identity(self.value@);
            }
        }
        string_from_chars(done.as_slice())
    }
}

#[derive(Debug, Clone)]
pub struct StringUnitContainer {
    pub string_unit: TranslationValue,
}

#[derive(Debug, Clone)]
pub struct Plural {
    pub zero: Option<StringUnitContainer>,
    pub one: Option<StringUnitContainer>,
    pub two: Option<StringUnitContainer>,
    pub other: Option<StringUnitContainer>,
    pub many: Option<StringUnitContainer>,
    pub few: Option<StringUnitContainer>,
}

#[derive(Debug, Clone)]
pub struct Variation {
    pub plural: Plural,
}

} // verus!
