//! The String Catalog schema, read from a JSON value.
use vstd::prelude::*;

use crate::json::{JsonValue, field, get_field};
use crate::keyed::{insert, keys_sorted, map_of};
use crate::types::inoutoutput::{Plural, StringUnitContainer, TranslationValue, ValueView, Variation};
use crate::types::input::{
    self, CatalogView, Language, LanguageView, TranslationTypeContainer, VariationContainer,
    plural_items, plural_prefix, slot_at,
};
use crate::types::output::{PluralVariate, TranslationView, variate_at};

verus! {

/// The string member `name` of an object.
pub open spec fn str_field(fields: Seq<(String, JsonValue)>, name: Seq<char>) -> Option<Seq<char>> {
    match field(fields, name) {
        Some(JsonValue::Str(s)) => Some(s@),
        _ => None,
    }
}

/// `{"state": .., "value": ..}`.
pub open spec fn value_of(v: JsonValue) -> Option<ValueView> {
    match v {
        JsonValue::Object(f) => match (str_field(f@, "state"@), str_field(f@, "value"@)) {
            (Some(st), Some(va)) => Some(ValueView { state: st, value: va }),
            _ => None,
        },
        _ => None,
    }
}

/// `{"stringUnit": {"state": .., "value": ..}}`.
pub open spec fn string_unit_of(v: JsonValue) -> Option<ValueView> {
    match v {
        JsonValue::Object(f) => match field(f@, "stringUnit"@) {
            Some(u) => value_of(u),
            None => None,
        },
        _ => None,
    }
}

/// A plural slot: missing and `null` both leave it empty.
pub open spec fn slot_of(m: Option<JsonValue>) -> Option<Option<ValueView>> {
    match m {
        None => Some(None),
        Some(JsonValue::Null) => Some(None),
        Some(x) => match string_unit_of(x) {
            Some(vv) => Some(Some(vv)),
            None => None,
        },
    }
}

/// The member name of category `variate_at(i)`.
pub open spec fn slot_name(i: int) -> Seq<char> {
    if i == 0 {
        "zero"@
    } else if i == 1 {
        "one"@
    } else if i == 2 {
        "two"@
    } else if i == 3 {
        "few"@
    } else if i == 4 {
        "many"@
    } else {
        "other"@
    }
}

/// The filled slots among the first `n` categories of a `plural` object.
pub open spec fn plural_json_prefix(h: Seq<(String, JsonValue)>, n: int) -> Option<
    Seq<(PluralVariate, ValueView)>,
>
    decreases n,
{
    if n <= 0 {
        Some(Seq::empty())
    } else {
        match (plural_json_prefix(h, n - 1), slot_of(field(h, slot_name(n - 1)))) {
            (Some(rest), Some(Some(vv))) => Some(rest.push((variate_at(n - 1), vv))),
            (Some(rest), Some(None)) => Some(rest),
            _ => None,
        }
    }
}

/// `{"variations": {"plural": {..}}}`.
pub open spec fn variations_of(v: JsonValue) -> Option<Seq<(PluralVariate, ValueView)>> {
    match v {
        JsonValue::Object(f) => match field(f@, "variations"@) {
            Some(JsonValue::Object(g)) => match field(g@, "plural"@) {
                Some(JsonValue::Object(h)) => plural_json_prefix(h@, 6),
                _ => None,
            },
            _ => None,
        },
        _ => None,
    }
}

/// A translation unit: a string unit where the value has that shape, else
/// plural variations.
pub open spec fn unit_of(v: JsonValue) -> Option<TranslationView> {
    match string_unit_of(v) {
        Some(vv) => Some(TranslationView::Localization(vv)),
        None => match variations_of(v) {
            Some(items) => Some(TranslationView::PluralVariation(items)),
            None => None,
        },
    }
}

/// The members of a `localizations` object, each a translation unit; a later
/// member replaces an earlier one of the same name.
pub open spec fn units_of(s: Seq<(String, JsonValue)>) -> Option<Map<Seq<char>, TranslationView>>
    decreases s.len(),
{
    if s.len() == 0 {
        Some(Map::empty())
    } else {
        match (units_of(s.drop_last()), unit_of(s.last().1)) {
            (Some(m), Some(t)) => Some(m.insert(s.last().0@, t)),
            _ => None,
        }
    }
}

/// The record of one key: an optional string `comment` and an optional
/// `localizations` object.
pub open spec fn language_of(v: JsonValue) -> Option<LanguageView> {
    match v {
        JsonValue::Object(f) => {
            let comment = match field(f@, "comment"@) {
                None => Some(Seq::<char>::empty()),
                Some(JsonValue::Str(s)) => Some(s@),
                _ => None,
            };
            let locs = match field(f@, "localizations"@) {
                None => Some(Map::<Seq<char>, TranslationView>::empty()),
                Some(JsonValue::Object(g)) => units_of(g@),
                _ => None,
            };
            match (comment, locs) {
                (Some(c), Some(l)) => Some(LanguageView { comment: c, localizations: l }),
                _ => None,
            }
        },
        _ => None,
    }
}

/// The members of a `strings` object, each the record of one key.
pub open spec fn languages_of(s: Seq<(String, JsonValue)>) -> Option<Map<Seq<char>, LanguageView>>
    decreases s.len(),
{
    if s.len() == 0 {
        Some(Map::empty())
    } else {
        match (languages_of(s.drop_last()), language_of(s.last().1)) {
            (Some(m), Some(l)) => Some(m.insert(s.last().0@, l)),
            _ => None,
        }
    }
}

/// A catalog: string `sourceLanguage` and `version`, and a `strings` object.
pub open spec fn catalog_of(v: JsonValue) -> Option<CatalogView> {
    match v {
        JsonValue::Object(f) => match (
            str_field(f@, "sourceLanguage"@),
            str_field(f@, "version"@),
            field(f@, "strings"@),
        ) {
            (Some(src), Some(ver), Some(JsonValue::Object(g))) => match languages_of(g@) {
                Some(m) => Some(CatalogView { source_language: src, version: ver, strings: m }),
                None => None,
            },
            _ => None,
        },
        _ => None,
    }
}

proof fn lemma_units_of_none(s: Seq<(String, JsonValue)>, n: int)
    requires
        0 <= n <= s.len(),
        units_of(s.take(n)) is None,
    ensures
        units_of(s) is None,
    decreases s.len() - n,
{
    if n < s.len() {
        assert(s.take(n + 1).drop_last() =~= s.take(n));
        lemma_units_of_none(s, n + 1);
    } else {
        assert(s.take(n) =~= s);
    }
}

proof fn lemma_languages_of_none(s: Seq<(String, JsonValue)>, n: int)
    requires
        0 <= n <= s.len(),
        languages_of(s.take(n)) is None,
    ensures
        languages_of(s) is None,
    decreases s.len() - n,
{
    if n < s.len() {
        assert(s.take(n + 1).drop_last() =~= s.take(n));
        lemma_languages_of_none(s, n + 1);
    } else {
        assert(s.take(n) =~= s);
    }
}

fn read_str_field(fields: &Vec<(String, JsonValue)>, name: &str) -> (r: Option<String>)
    ensures
        match str_field(fields@, name@) {
            Some(s) => r is Some && r->0@ == s,
            None => r is None,
        },
{
    match get_field(fields, name) {
        Some(JsonValue::Str(s)) => Some(s.clone()),
        _ => None,
    }
}

fn read_value(v: &JsonValue) -> (r: Option<TranslationValue>)
    ensures
        match value_of(*v) {
            Some(vv) => r is Some && r->0@ == vv,
            None => r is None,
        },
{
    match v {
        JsonValue::Object(f) => {
            let state = read_str_field(f, "state");
            let value = read_str_field(f, "value");
            match (state, value) {
                (Some(state), Some(value)) => Some(TranslationValue { state, value }),
                _ => None,
            }
        },
        _ => None,
    }
}

fn read_string_unit(v: &JsonValue) -> (r: Option<StringUnitContainer>)
    ensures
        match string_unit_of(*v) {
            Some(vv) => r is Some && r->0.string_unit@ == vv,
            None => r is None,
        },
{
    match v {
        JsonValue::Object(f) => match get_field(f, "stringUnit") {
            Some(u) => match read_value(u) {
                Some(tv) => Some(StringUnitContainer { string_unit: tv }),
                None => None,
            },
            None => None,
        },
        _ => None,
    }
}

/// A plural slot read from the member `name` of `h`; `Err` where the member
/// is neither missing, `null`, nor a string unit.
fn read_slot(h: &Vec<(String, JsonValue)>, name: &str) -> (r: Result<
    Option<StringUnitContainer>,
    (),
>)
    ensures
        match slot_of(field(h@, name@)) {
            Some(Some(vv)) => r is Ok && r->Ok_0 is Some && r->Ok_0->0.string_unit@ == vv,
            Some(None) => r is Ok && r->Ok_0 is None,
            None => r is Err,
        },
{
    match get_field(h, name) {
        None => Ok(None),
        Some(JsonValue::Null) => Ok(None),
        Some(x) => match read_string_unit(x) {
            Some(c) => Ok(Some(c)),
            None => Err(()),
        },
    }
}

pub open spec fn slot_matches(s: Option<StringUnitContainer>, j: Option<Option<ValueView>>) -> bool {
    match j {
        Some(Some(vv)) => s is Some && s->0.string_unit@ == vv,
        Some(None) => s is None,
        None => false,
    }
}

proof fn lemma_plural_prefix_matches(p: Plural, h: Seq<(String, JsonValue)>, n: int)
    requires
        0 <= n <= 6,
        forall|i: int| 0 <= i < 6 ==> slot_matches(slot_at(p, i), slot_of(field(h, slot_name(i)))),
    ensures
        plural_json_prefix(h, n) == Some(plural_prefix(p, n)),
    decreases n,
{
    if n > 0 {
        lemma_plural_prefix_matches(p, h, n - 1);
        assert(slot_matches(slot_at(p, n - 1), slot_of(field(h, slot_name(n - 1)))));
    }
}

proof fn lemma_plural_prefix_fails(h: Seq<(String, JsonValue)>, n: int, k: int)
    requires
        0 <= k < n <= 6,
        slot_of(field(h, slot_name(k))) is None,
    ensures
        plural_json_prefix(h, n) is None,
    decreases n,
{
    if n - 1 > k {
        lemma_plural_prefix_fails(h, n - 1, k);
    }
}

fn read_plural(h: &Vec<(String, JsonValue)>) -> (r: Option<Plural>)
    ensures
        match plural_json_prefix(h@, 6) {
            Some(items) => r is Some && plural_items(r->0) == items,
            None => r is None,
        },
{
    let zero = read_slot(h, "zero");
    let one = read_slot(h, "one");
    let two = read_slot(h, "two");
    let few = read_slot(h, "few");
    let many = read_slot(h, "many");
    let other = read_slot(h, "other");
    match (zero, one, two, few, many, other) {
        (Ok(zero), Ok(one), Ok(two), Ok(few), Ok(many), Ok(other)) => {
            let p = Plural { zero, one, two, other, many, few };
            proof {
                assert forall|i: int| 0 <= i < 6 implies slot_matches(
                    slot_at(p, i),
                    slot_of(field(h@, slot_name(i))),
                ) by {}
                lemma_plural_prefix_matches(p, h@, 6);
            }
            Some(p)
        },
        _ => {
            proof {
                if slot_of(field(h@, slot_name(0))) is None {
                    lemma_plural_prefix_fails(h@, 6, 0);
                } else if slot_of(field(h@, slot_name(1))) is None {
                    lemma_plural_prefix_fails(h@, 6, 1);
                } else if slot_of(field(h@, slot_name(2))) is None {
                    lemma_plural_prefix_fails(h@, 6, 2);
                } else if slot_of(field(h@, slot_name(3))) is None {
                    lemma_plural_prefix_fails(h@, 6, 3);
                } else if slot_of(field(h@, slot_name(4))) is None {
                    lemma_plural_prefix_fails(h@, 6, 4);
                } else {
                    lemma_plural_prefix_fails(h@, 6, 5);
                }
            }
            None
        },
    }
}

fn read_unit(v: &JsonValue) -> (r: Option<TranslationTypeContainer>)
    ensures
        match unit_of(*v) {
            Some(t) => r is Some && r->0@ == t,
            None => r is None,
        },
{
    if let Some(c) = read_string_unit(v) {
        return Some(TranslationTypeContainer::StringUnit(c));
    }
    match v {
        JsonValue::Object(f) => match get_field(f, "variations") {
            Some(JsonValue::Object(g)) => match get_field(g, "plural") {
                Some(JsonValue::Object(h)) => match read_plural(h) {
                    Some(p) => Some(
                        TranslationTypeContainer::Variation(
                            VariationContainer { variations: Variation { plural: p } },
                        ),
                    ),
                    None => None,
                },
                _ => None,
            },
            _ => None,
        },
        _ => None,
    }
}

fn read_units(g: &Vec<(String, JsonValue)>) -> (r: Option<Vec<(String, TranslationTypeContainer)>>)
    ensures
        match units_of(g@) {
            Some(m) => r is Some && keys_sorted(r->0@) && map_of(r->0@) == m,
            None => r is None,
        },
{
    let mut out: Vec<(String, TranslationTypeContainer)> = Vec::new();
    let mut i: usize = 0;
    assert(g@.take(0) =~= Seq::<(String, JsonValue)>::empty());
    assert(map_of(out@) =~= Map::<Seq<char>, TranslationView>::empty());
    while i < g.len()
        invariant
            i <= g@.len(),
            keys_sorted(out@),
            units_of(g@.take(i as int)) == Some(map_of(out@)),
        decreases g@.len() - i,
    {
        assert(g@.take(i + 1).drop_last() =~= g@.take(i as int));
        assert(g@.take(i + 1).last() == g@[i as int]);
        match read_unit(&g[i].1) {
            Some(t) => {
                insert(&mut out, g[i].0.clone(), t);
            },
            None => {
                proof {
                    lemma_units_of_none(g@, i + 1);
                }
                return None;
            },
        }
        i = i + 1;
    }
    assert(g@.take(g@.len() as int) =~= g@);
    Some(out)
}

fn read_language(v: &JsonValue) -> (r: Option<Language>)
    ensures
        match language_of(*v) {
            Some(lv) => r is Some && r->0@ == lv && r->0.wf(),
            None => r is None,
        },
{
    match v {
        JsonValue::Object(f) => {
            let comment = match get_field(f, "comment") {
                None => Some(String::new()),
                Some(JsonValue::Str(s)) => Some(s.clone()),
                _ => None,
            };
            let locs = match get_field(f, "localizations") {
                None => {
                    let empty: Vec<(String, TranslationTypeContainer)> = Vec::new();
                    assert(map_of(empty@) =~= Map::<Seq<char>, TranslationView>::empty());
                    Some(empty)
                },
                Some(JsonValue::Object(g)) => read_units(g),
                _ => None,
            };
            match (comment, locs) {
                (Some(comment), Some(localizations)) => Some(Language { comment, localizations }),
                _ => None,
            }
        },
        _ => None,
    }
}

fn read_languages(g: &Vec<(String, JsonValue)>) -> (r: Result<Vec<(String, Language)>, String>)
    ensures
        match languages_of(g@) {
            Some(m) => r is Ok && keys_sorted(r->Ok_0@) && map_of(r->Ok_0@) == m && forall|i: int|
                0 <= i < r->Ok_0@.len() ==> (#[trigger] r->Ok_0@[i]).1.wf(),
            None => r matches Err(k) && k@ == first_bad_record(g@),
        },
{
    let mut out: Vec<(String, Language)> = Vec::new();
    let mut i: usize = 0;
    assert(g@.take(0) =~= Seq::<(String, JsonValue)>::empty());
    assert(g@.skip(0) =~= g@);
    assert(map_of(out@) =~= Map::<Seq<char>, LanguageView>::empty());
    while i < g.len()
        invariant
            i <= g@.len(),
            keys_sorted(out@),
            languages_of(g@.take(i as int)) == Some(map_of(out@)),
            forall|j: int| 0 <= j < out@.len() ==> (#[trigger] out@[j]).1.wf(),
            first_bad_record(g@) == first_bad_record(g@.skip(i as int)),
        decreases g@.len() - i,
    {
        assert(g@.take(i + 1).drop_last() =~= g@.take(i as int));
        assert(g@.take(i + 1).last() == g@[i as int]);
        assert(g@.skip(i as int).skip(1) =~= g@.skip(i + 1));
        assert(g@.skip(i as int)[0] == g@[i as int]);
        match read_language(&g[i].1) {
            Some(l) => {
                let ghost before = out@;
                let ghost lw = l;
                insert(&mut out, g[i].0.clone(), l);
                assert forall|j: int| 0 <= j < out@.len() implies (#[trigger] out@[j]).1.wf() by {
                    if out@[j].1 != lw {
                        let q = choose|q: int| 0 <= q < before.len() && out@[j].1 == #[trigger] before[q].1;
                        assert(before[q].1.wf());
                    }
                }
            },
            None => {
                proof {
                    lemma_languages_of_none(g@, i + 1);
                }
                return Err(g[i].0.clone());
            },
        }
        i = i + 1;
    }
    assert(g@.take(g@.len() as int) =~= g@);
    Ok(out)
}

/// The key of the first member of a `strings` object whose record does not
/// have the shape of a key's record.
pub open spec fn first_bad_record(s: Seq<(String, JsonValue)>) -> Seq<char>
    decreases s.len(),
{
    if s.len() == 0 {
        Seq::empty()
    } else if language_of(s[0].1) is None {
        s[0].0@
    } else {
        first_bad_record(s.skip(1))
    }
}

/// Why a JSON value is no String Catalog: the first requirement it breaks.
pub open spec fn catalog_error(v: JsonValue) -> Seq<char> {
    match v {
        JsonValue::Object(f) => {
            if str_field(f@, "sourceLanguage"@) is None {
                "missing or non-string field `sourceLanguage`"@
            } else if str_field(f@, "version"@) is None {
                "missing or non-string field `version`"@
            } else {
                match field(f@, "strings"@) {
                    Some(JsonValue::Object(g)) => "invalid record for key `"@ + first_bad_record(g@)
                        + "`: expected an optional string comment and optional localizations, each a string unit or plural variations"@,
                    _ => "missing or non-object field `strings`"@,
                }
            }
        },
        _ => "expected a String Catalog object"@,
    }
}

/// The catalog that a JSON value holds, with its keys and language codes
/// sorted; `Err` with the first requirement it breaks where the value does not
/// have the shape of a String Catalog.
pub fn read_catalog(v: &JsonValue) -> (r: Result<input::Translation, String>)
    ensures
        match catalog_of(*v) {
            Some(c) => r is Ok && r->Ok_0@ == c && r->Ok_0.wf(),
            None => r matches Err(m) && m@ == catalog_error(*v),
        },
{
    match v {
        JsonValue::Object(f) => {
            let source_language = match read_str_field(f, "sourceLanguage") {
                Some(s) => s,
                None => return Err(String::from_str("missing or non-string field `sourceLanguage`")),
            };
            let version = match read_str_field(f, "version") {
                Some(s) => s,
                None => return Err(String::from_str("missing or non-string field `version`")),
            };
            match get_field(f, "strings") {
                Some(JsonValue::Object(g)) => match read_languages(g) {
                    Ok(strings) => Ok(input::Translation { source_language, strings, version }),
                    Err(key) => {
                        let mut m = String::from_str("invalid record for key `");
                        m.append(key.as_str());
                        m.append("`: expected an optional string comment and optional localizations, each a string unit or plural variations");
                        Err(m)
                    },
                },
                _ => Err(String::from_str("missing or non-object field `strings`")),
            }
        },
        _ => Err(String::from_str("expected a String Catalog object")),
    }
}

} // verus!
