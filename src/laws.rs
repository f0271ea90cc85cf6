//! Properties that hold across the stages of a conversion.
use vstd::prelude::*;

use crate::android::{item_line, item_lines, planned, record_xml, sub_dir_of};
use crate::json::JsonValue;
use crate::key::android_name;
use crate::parse::normalized_entry;
use crate::text::seq_lt;
use crate::types::inoutoutput::{Plural, ValueView};
use crate::types::input::{LanguageView, plural_items};
use crate::types::output::{ParsedResult, PluralVariate, RecordView, TranslationView};
use crate::{TRANSLATED_STATE, parse_outcome};
use crate::catalog::{catalog_of, plural_json_prefix, slot_of};
use crate::json::field;

verus! {

/// Parsing a catalog gives its entries in strictly ascending order of key, one
/// for every key of the catalog, each named after its key.
pub proof fn lemma_entries_sorted_and_complete(v: JsonValue, r: ParsedResult)
    requires
        parse_outcome(v, r),
        r is Ok,
    ensures
        ({
            let entries = r->Ok_0.localizable@.entries;
            let c = catalog_of(v)->0;
            &&& forall|i: int, j: int|
                0 <= i < j < entries.len() ==> seq_lt(
                    #[trigger] entries[i].key_raw,
                    #[trigger] entries[j].key_raw,
                )
            &&& forall|k: Seq<char>|
                c.strings.contains_key(k) ==> exists|i: int|
                    0 <= i < entries.len() && #[trigger] entries[i].key_raw == k
            &&& forall|i: int|
                0 <= i < entries.len() ==> (#[trigger] entries[i]).key_alphanumeric == android_name(
                    entries[i].key_raw,
                )
        }),
{
    let entries = r->Ok_0.localizable@.entries;
    assert forall|i: int| 0 <= i < entries.len() implies (#[trigger] entries[i]).key_alphanumeric
        == android_name(entries[i].key_raw) by {}
}

/// A key without a translation into the source language gets one: the key
/// itself, marked translated.
pub proof fn lemma_source_language_filled(key: Seq<char>, l: LanguageView, source: Seq<char>)
    requires
        !l.localizations.contains_key(source),
    ensures
        normalized_entry(key, l, source).per_language[source] == TranslationView::Localization(
            ValueView { state: TRANSLATED_STATE@, value: key },
        ),
        forall|code: Seq<char>|
            #![auto]
            code != source ==> normalized_entry(key, l, source).per_language.contains_key(code)
                == l.localizations.contains_key(code),
{
}

/// Where one language is named for writing, every file planned is of that
/// language, in its own directory.
pub proof fn lemma_only_language_written(
    languages: Seq<Seq<char>>,
    source: Seq<char>,
    only: Seq<char>,
)
    ensures
        forall|i: int|
            0 <= i < planned(languages, source, Some(only)).len() ==> #[trigger] planned(
                languages,
                source,
                Some(only),
            )[i] == (only, sub_dir_of(only, source)),
    decreases languages.len(),
{
    if languages.len() > 0 {
        lemma_only_language_written(languages.drop_last(), source, only);
        let rest = planned(languages.drop_last(), source, Some(only));
        let all = planned(languages, source, Some(only));
        assert forall|i: int| 0 <= i < all.len() implies #[trigger] all[i] == (
            only,
            sub_dir_of(only, source),
        ) by {
            if i < rest.len() {
                assert(all[i] == rest[i]);
            }
        }
    }
}

/// Plural variants given only for `many` and `other` give exactly two items,
/// `many` first.
pub proof fn lemma_many_and_other(p: Plural, name: Seq<char>, comment: Seq<char>, key: Seq<char>)
    requires
        p.zero is None,
        p.one is None,
        p.two is None,
        p.few is None,
        p.many is Some,
        p.other is Some,
    ensures
        plural_items(p) == seq![
            (PluralVariate::Many, p.many->0.string_unit@),
            (PluralVariate::Other, p.other->0.string_unit@),
        ],
        record_xml(
            RecordView {
                key_raw: key,
                key_alphanumeric: name,
                translation: TranslationView::PluralVariation(plural_items(p)),
                comment,
            },
        ) == "<plurals name=\""@ + name + "\">"@ + "\n"@ + item_line(
            PluralVariate::Many,
            p.many->0.string_unit.value@,
        ) + "\n"@ + item_line(PluralVariate::Other, p.other->0.string_unit.value@)
            + "\n</plurals>"@,
{
    reveal_with_fuel(crate::types::input::plural_prefix, 7);
    let items = plural_items(p);
    assert(items =~= seq![
        (PluralVariate::Many, p.many->0.string_unit@),
        (PluralVariate::Other, p.other->0.string_unit@),
    ]);
    assert(items.drop_last().drop_last() =~= Seq::<(PluralVariate, ValueView)>::empty());
    assert(item_lines(items.drop_last().drop_last()) == Seq::<char>::empty());
    assert(items.drop_last().last() == items[0]);
    assert(items.last() == items[1]);
    assert(item_lines(items.drop_last()) =~= Seq::<char>::empty() + "\n"@ + item_line(
        PluralVariate::Many,
        p.many->0.string_unit.value@,
    ));
    assert(item_lines(items) =~= "\n"@ + item_line(
        PluralVariate::Many,
        p.many->0.string_unit.value@,
    ) + "\n"@ + item_line(PluralVariate::Other, p.other->0.string_unit.value@));
}

/// A `plural` object whose only filled slots are `many` and `other` is read as
/// exactly those two items, `many` first, and renders as exactly two `<item>`
/// lines in that order.
pub proof fn lemma_many_and_other_from_json(
    h: Seq<(String, JsonValue)>,
    many: ValueView,
    other: ValueView,
)
    requires
        slot_of(field(h, "zero"@)) == Some(None::<ValueView>),
        slot_of(field(h, "one"@)) == Some(None::<ValueView>),
        slot_of(field(h, "two"@)) == Some(None::<ValueView>),
        slot_of(field(h, "few"@)) == Some(None::<ValueView>),
        slot_of(field(h, "many"@)) == Some(Some(many)),
        slot_of(field(h, "other"@)) == Some(Some(other)),
    ensures
        plural_json_prefix(h, 6) == Some(
            seq![(PluralVariate::Many, many), (PluralVariate::Other, other)],
        ),
        item_lines(seq![(PluralVariate::Many, many), (PluralVariate::Other, other)]) == "\n"@
            + item_line(PluralVariate::Many, many.value) + "\n"@ + item_line(
            PluralVariate::Other,
            other.value,
        ),
{
    reveal_with_fuel(plural_json_prefix, 7);
    let items = seq![(PluralVariate::Many, many), (PluralVariate::Other, other)];
    assert(plural_json_prefix(h, 4) == Some(Seq::<(PluralVariate, ValueView)>::empty()));
    assert(plural_json_prefix(h, 6) == Some(Seq::<(PluralVariate, ValueView)>::empty().push(
        (PluralVariate::Many, many),
    ).push((PluralVariate::Other, other))));
    assert(Seq::<(PluralVariate, ValueView)>::empty().push((PluralVariate::Many, many)).push(
        (PluralVariate::Other, other),
    ) =~= items);
    assert(items.drop_last().drop_last() =~= Seq::<(PluralVariate, ValueView)>::empty());
    assert(item_lines(items.drop_last().drop_last()) == Seq::<char>::empty());
    assert(items.drop_last().last() == items[0]);
    assert(items.last() == items[1]);
    assert(item_lines(items.drop_last()) =~= Seq::<char>::empty() + "\n"@ + item_line(
        PluralVariate::Many,
        many.value,
    ));
    assert(item_lines(items) =~= "\n"@ + item_line(PluralVariate::Many, many.value) + "\n"@
        + item_line(PluralVariate::Other, other.value));
}

} // verus!
