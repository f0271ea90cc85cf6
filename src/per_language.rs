//! The entries of a catalog regrouped per language, with the number of words
//! of each language's text.
use vstd::prelude::*;

use crate::text::{lemma_seq_lt_total, seq_lt};
use crate::keyed::{find, has_key, insert, keys_sorted, lemma_map_of_index, map_of, remove_at};
use crate::types::inoutoutput::ValueView;
use crate::types::output::{
    EntryView, InfoView, Localizable, LocalizedPerLanguage, LocalizedPerLanguageInfo, PluralVariate,
    RecordView, SingleLocalizedPerLanguage, SingleTranslation, Translation, TranslationView,
};

verus! {

/// The number of words in a text, as words_count counts them.
pub uninterp spec fn words_in(s: Seq<char>) -> nat;

/// Relies on `words_count::count`: its `words` depend on the text alone, and
/// each word it counts takes at least one character of the text.
#[verifier::external_body]
fn count_words(s: &str) -> (r: usize)
    ensures
        r == words_in(s@),
        r <= s@.len(),
{
    words_count::count(s).words
}

pub open spec fn items_words(items: Seq<(PluralVariate, ValueView)>) -> nat
    decreases items.len(),
{
    if items.len() == 0 {
        0
    } else {
        items_words(items.drop_last()) + words_in(items.last().1.value)
    }
}

pub open spec fn items_chars(items: Seq<(PluralVariate, ValueView)>) -> nat
    decreases items.len(),
{
    if items.len() == 0 {
        0
    } else {
        items_chars(items.drop_last()) + items.last().1.value.len()
    }
}

/// The words of a translation: of its text, or of all its plural texts.
pub open spec fn translation_words(t: TranslationView) -> nat {
    match t {
        TranslationView::Localization(v) => words_in(v.value),
        TranslationView::PluralVariation(items) => items_words(items),
    }
}

/// The characters of a translation's texts.
pub open spec fn translation_chars(t: TranslationView) -> nat {
    match t {
        TranslationView::Localization(v) => v.value.len(),
        TranslationView::PluralVariation(items) => items_chars(items),
    }
}

pub open spec fn pairs_chars(s: Seq<(String, Translation)>) -> nat
    decreases s.len(),
{
    if s.len() == 0 {
        0
    } else {
        pairs_chars(s.drop_last()) + translation_chars(s.last().1@)
    }
}

/// The characters of all texts of all entries.
pub open spec fn entries_chars(s: Seq<SingleTranslation>) -> nat
    decreases s.len(),
{
    if s.len() == 0 {
        0
    } else {
        entries_chars(s.drop_last()) + pairs_chars(s.last().localization_value.language_translation@)
    }
}

/// The record that entry `e` gives to language `l`.
pub open spec fn record_of(e: EntryView, l: Seq<char>) -> RecordView {
    RecordView {
        key_raw: e.key_raw,
        key_alphanumeric: e.key_alphanumeric,
        translation: e.per_language[l],
        comment: e.comment,
    }
}

/// The records of language `l`, in the order of the entries.
pub open spec fn bucket(entries: Seq<EntryView>, l: Seq<char>) -> Seq<RecordView>
    decreases entries.len(),
{
    if entries.len() == 0 {
        Seq::empty()
    } else if entries.last().per_language.contains_key(l) {
        bucket(entries.drop_last(), l).push(record_of(entries.last(), l))
    } else {
        bucket(entries.drop_last(), l)
    }
}

/// The words of all translations into language `l`.
pub open spec fn bucket_words(entries: Seq<EntryView>, l: Seq<char>) -> nat
    decreases entries.len(),
{
    if entries.len() == 0 {
        0
    } else if entries.last().per_language.contains_key(l) {
        bucket_words(entries.drop_last(), l) + translation_words(entries.last().per_language[l])
    } else {
        bucket_words(entries.drop_last(), l)
    }
}

/// Some entry has a translation into `l`.
pub open spec fn has_language(entries: Seq<EntryView>, l: Seq<char>) -> bool {
    exists|i: int| 0 <= i < entries.len() && (#[trigger] entries[i]).per_language.contains_key(l)
}

/// The group of language `l`.
pub open spec fn info_of(entries: Seq<EntryView>, l: Seq<char>) -> InfoView {
    InfoView { word_count: bucket_words(entries, l), translations: bucket(entries, l) }
}

proof fn lemma_items_prefix(items: Seq<(PluralVariate, ValueView)>, k: int)
    requires
        0 <= k <= items.len(),
    ensures
        items_chars(items.take(k)) <= items_chars(items),
    decreases items.len() - k,
{
    if k < items.len() {
        assert(items.take(k + 1).drop_last() =~= items.take(k));
        lemma_items_prefix(items, k + 1);
    } else {
        assert(items.take(k) =~= items);
    }
}

proof fn lemma_pairs_prefix(s: Seq<(String, Translation)>, k: int)
    requires
        0 <= k <= s.len(),
    ensures
        pairs_chars(s.take(k)) <= pairs_chars(s),
    decreases s.len() - k,
{
    if k < s.len() {
        assert(s.take(k + 1).drop_last() =~= s.take(k));
        lemma_pairs_prefix(s, k + 1);
    } else {
        assert(s.take(k) =~= s);
    }
}

proof fn lemma_entries_prefix(s: Seq<SingleTranslation>, k: int)
    requires
        0 <= k <= s.len(),
    ensures
        entries_chars(s.take(k)) <= entries_chars(s),
    decreases s.len() - k,
{
    if k < s.len() {
        assert(s.take(k + 1).drop_last() =~= s.take(k));
        lemma_entries_prefix(s, k + 1);
    } else {
        assert(s.take(k) =~= s);
    }
}

proof fn lemma_bucket_empty(entries: Seq<EntryView>, l: Seq<char>)
    requires
        !has_language(entries, l),
    ensures
        bucket(entries, l) == Seq::<RecordView>::empty(),
        bucket_words(entries, l) == 0,
    decreases entries.len(),
{
    if entries.len() > 0 {
        assert(!has_language(entries.drop_last(), l)) by {
            if has_language(entries.drop_last(), l) {
                let q = choose|q: int|
                    0 <= q < entries.drop_last().len() && (#[trigger] entries.drop_last()[q]).per_language.contains_key(l);
                assert(entries[q] == entries.drop_last()[q]);
            }
        }
        assert(!entries.last().per_language.contains_key(l)) by {
            if entries.last().per_language.contains_key(l) {
                assert(entries[entries.len() - 1] == entries.last());
            }
        }
        lemma_bucket_empty(entries.drop_last(), l);
    }
}

/// The sum of `counts`.
pub open spec fn seq_sum(counts: Seq<usize>) -> nat
    decreases counts.len(),
{
    if counts.len() == 0 {
        0
    } else {
        seq_sum(counts.drop_last()) + counts.last() as nat
    }
}

/// The words of several texts together, given the words of each.
pub fn sum_word_counts(counts: &Vec<usize>) -> (r: usize)
    requires
        seq_sum(counts@) <= usize::MAX,
    ensures
        r == seq_sum(counts@),
{
    let mut total: usize = 0;
    let mut k: usize = 0;
    while k < counts.len()
        invariant
            k <= counts@.len(),
            seq_sum(counts@) <= usize::MAX,
            total == seq_sum(counts@.take(k as int)),
        decreases counts@.len() - k,
    {
        assert(counts@.take(k + 1).drop_last() =~= counts@.take(k as int));
        assert(counts@.take(k + 1).last() == counts@[k as int]);
        proof {
            lemma_sum_prefix(counts@, k + 1);
        }
        total = total + counts[k];
        k = k + 1;
    }
    assert(counts@.take(counts@.len() as int) =~= counts@);
    total
}

proof fn lemma_sum_prefix(counts: Seq<usize>, k: int)
    requires
        0 <= k <= counts.len(),
    ensures
        seq_sum(counts.take(k)) <= seq_sum(counts),
    decreases counts.len() - k,
{
    if k < counts.len() {
        assert(counts.take(k + 1).drop_last() =~= counts.take(k));
        lemma_sum_prefix(counts, k + 1);
    } else {
        assert(counts.take(k) =~= counts);
    }
}

/// The number of words of a translation.
fn translation_word_count(t: &Translation) -> (r: usize)
    requires
        translation_chars(t@) <= usize::MAX,
    ensures
        r == translation_words(t@),
        r <= translation_chars(t@),
{
    match t {
        Translation::Localization(tv) => count_words(tv.value.as_str()),
        Translation::PluralVariation(pv) => {
            let ghost items = pv@.map_values(|s: crate::types::output::SinglePluralVariation| s@);
            let mut counts: Vec<usize> = Vec::new();
            let mut k: usize = 0;
            while k < pv.len()
                invariant
                    items == pv@.map_values(|s: crate::types::output::SinglePluralVariation| s@),
                    items_chars(items) <= usize::MAX,
                    k <= pv@.len(),
                    counts@.len() == k,
                    seq_sum(counts@) == items_words(items.take(k as int)),
                    seq_sum(counts@) <= items_chars(items.take(k as int)),
                decreases pv@.len() - k,
            {
                assert(items.take(k + 1).drop_last() =~= items.take(k as int));
                assert(items.take(k + 1).last() == items[k as int]);
                proof {
                    lemma_items_prefix(items, k + 1);
                }
                let w = count_words(pv[k].translation_value.value.as_str());
                let ghost before = counts@;
                counts.push(w);
                assert(counts@.drop_last() =~= before);
                k = k + 1;
            }
            assert(items.take(pv@.len() as int) =~= items);
            sum_word_counts(&counts)
        },
    }
}

impl Localizable {
    /// The characters of all translation texts, which bounds every word count.
    pub open spec fn text_len(&self) -> nat {
        entries_chars(self.single_translation@)
    }

    /// The entries regrouped per language: for each language that some entry
    /// has, its records in the order of the entries, and their number of words.
    pub fn localized_per_language(&self) -> (r: LocalizedPerLanguage)
        requires
            self.wf(),
            self.text_len() <= usize::MAX,
        ensures
            r.source_language@ == self.source_language@,
            keys_sorted(r.language_localized@),
            forall|l: Seq<char>|
                #![auto]
                map_of(r.language_localized@).contains_key(l) == has_language(self@.entries, l),
            forall|l: Seq<char>|
                #![auto]
                map_of(r.language_localized@).contains_key(l) ==> map_of(r.language_localized@)[l]
                    == info_of(self@.entries, l),
    {
        let ghost es = self@.entries;
        let mut out: Vec<(String, LocalizedPerLanguageInfo)> = Vec::new();
        let ghost mut added: nat = 0;
        let mut i: usize = 0;
        assert(map_of(out@) =~= Map::<Seq<char>, InfoView>::empty());
        while i < self.single_translation.len()
            invariant
                self.wf(),
                self.text_len() <= usize::MAX,
                es == self@.entries,
                i <= es.len(),
                keys_sorted(out@),
                forall|l: Seq<char>|
                    #![auto]
                    map_of(out@).contains_key(l) == has_language(es.take(i as int), l),
                forall|l: Seq<char>|
                    #![auto]
                    map_of(out@).contains_key(l) ==> map_of(out@)[l] == info_of(es.take(i as int), l),
                forall|l: Seq<char>|
                    #![auto]
                    map_of(out@).contains_key(l) ==> map_of(out@)[l].word_count <= added,
                added <= entries_chars(self.single_translation@.take(i as int)),
            decreases es.len() - i,
        {
            let e = &self.single_translation[i];
            let pairs = &e.localization_value.language_translation;
            let ghost ev = e@;
            let ghost before = es.take(i as int);
            let ghost after = es.take(i + 1);
            assert(after.drop_last() =~= before);
            assert(after.last() == ev);
            assert(self.single_translation@[i as int].wf());
            proof {
                assert(self.single_translation@.take(i + 1).drop_last() =~= self.single_translation@.take(i as int));
                lemma_entries_prefix(self.single_translation@, i + 1);
            }
            let ghost base = added;
            let mut j: usize = 0;
            while j < pairs.len()
                invariant
                    self.text_len() <= usize::MAX,
                    keys_sorted(pairs@),
                    ev.per_language == map_of(pairs@),
                    ev == e@,
                    j <= pairs@.len(),
                    keys_sorted(out@),
                    base + pairs_chars(pairs@) <= usize::MAX,
                    added <= base + pairs_chars(pairs@.take(j as int)),
                    forall|l: Seq<char>|
                        #![auto]
                        map_of(out@).contains_key(l) == (has_language(before, l) || has_key(
                            pairs@.take(j as int),
                            l,
                        )),
                    forall|l: Seq<char>|
                        #![auto]
                        map_of(out@).contains_key(l) ==> map_of(out@)[l] == (if has_key(
                            pairs@.take(j as int),
                            l,
                        ) {
                            InfoView {
                                word_count: bucket_words(before, l) + translation_words(
                                    ev.per_language[l],
                                ),
                                translations: bucket(before, l).push(record_of(ev, l)),
                            }
                        } else {
                            info_of(before, l)
                        }),
                    forall|l: Seq<char>|
                        #![auto]
                        map_of(out@).contains_key(l) ==> map_of(out@)[l].word_count <= added,
                decreases pairs@.len() - j,
            {
                let code = &pairs[j].0;
                let t = &pairs[j].1;
                let ghost cv = code@;
                let ghost old_map = map_of(out@);
                let ghost old_take = pairs@.take(j as int);
                assert(forall|l: Seq<char>|
                    #![trigger old_map.contains_key(l)]
                    old_map.contains_key(l) == (has_language(before, l) || has_key(old_take, l)));
                proof {
                    assert(pairs@.take(j + 1).drop_last() =~= pairs@.take(j as int));
                    assert(pairs@.take(j + 1).last() == pairs@[j as int]);
                    lemma_pairs_prefix(pairs@, j + 1);
                    lemma_map_of_index(pairs@, j as int);
                    assert(!has_key(pairs@.take(j as int), cv)) by {
                        if has_key(pairs@.take(j as int), cv) {
                            let q = choose|q: int|
                                0 <= q < pairs@.take(j as int).len()
                                    && #[trigger] pairs@.take(j as int)[q].0@ == cv;
                            assert(seq_lt(pairs@[q].0@, pairs@[j as int].0@));
                            lemma_seq_lt_total(cv, cv);
                        }
                    }
                    assert forall|l: Seq<char>|
                        #![auto]
                        has_key(pairs@.take(j + 1), l) == (has_key(pairs@.take(j as int), l) || l
                            == cv) by {
                        if has_key(pairs@.take(j + 1), l) {
                            let q = choose|q: int|
                                0 <= q < pairs@.take(j + 1).len()
                                    && #[trigger] pairs@.take(j + 1)[q].0@ == l;
                            if q < j {
                                assert(pairs@.take(j as int)[q].0@ == l);
                            }
                        }
                        if has_key(pairs@.take(j as int), l) {
                            let q = choose|q: int|
                                0 <= q < pairs@.take(j as int).len()
                                    && #[trigger] pairs@.take(j as int)[q].0@ == l;
                            assert(pairs@.take(j + 1)[q].0@ == l);
                        }
                        if l == cv {
                            assert(pairs@.take(j + 1)[j as int].0@ == l);
                        }
                    }
                }
                let w = translation_word_count(t);
                let rec = SingleLocalizedPerLanguage {
                    key_raw: e.key_raw.clone(),
                    key_alphanumeric: e.key_alphanumeric.clone(),
                    translation: t.duplicate(),
                    comment: e.comment.clone(),
                };
                assert(rec@ == record_of(ev, cv));
                match find(&out, code.as_str()) {
                    Some(idx) => {
                        proof {
                            lemma_map_of_index(out@, idx as int);
                        }
                        let (k, mut info) = remove_at(&mut out, idx);
                        let ghost old_tr = info.translations@;
                        info.translations.push(rec);
                        assert(info.translations@.map_values(|r: SingleLocalizedPerLanguage| r@)
                            =~= old_tr.map_values(|r: SingleLocalizedPerLanguage| r@).push(rec@));
                        info.word_count = info.word_count + w;
                        insert(&mut out, k, info);
                        assert(map_of(out@) =~= old_map.insert(cv, info@));
                    },
                    None => {
                        let mut v: Vec<SingleLocalizedPerLanguage> = Vec::new();
                        v.push(rec);
                        let info = LocalizedPerLanguageInfo { word_count: w, translations: v };
                        proof {
                            assert(!has_language(before, cv));
                            lemma_bucket_empty(before, cv);
                        }
                        assert(info.translations@.map_values(|r: SingleLocalizedPerLanguage| r@)
                            =~= bucket(before, cv).push(rec@));
                        insert(&mut out, code.clone(), info);
                    },
                }
                proof {
                    added = (added + w) as nat;
                    assert forall|l: Seq<char>|
                        #![auto]
                        map_of(out@).contains_key(l) == (has_language(before, l) || has_key(
                            pairs@.take(j + 1),
                            l,
                        )) by {
                        assert(has_key(pairs@.take(j + 1), l) == (has_key(pairs@.take(j as int), l) || l
                            == cv));
                        assert(old_map.contains_key(l) == (has_language(before, l) || has_key(
                            old_take,
                            l,
                        )));
                    }
                }
                j = j + 1;
            }
            proof {
                assert(pairs@.take(pairs@.len() as int) =~= pairs@);
                assert(self.single_translation@.take(i + 1).last() == self.single_translation@[i as int]);
                assert forall|l: Seq<char>|
                    #![auto]
                    has_language(after, l) == (has_language(before, l) || ev.per_language.contains_key(l)) by {
                    if has_language(after, l) {
                        let q = choose|q: int| 0 <= q < after.len() && (#[trigger] after[q]).per_language.contains_key(l);
                        if q < i {
                            assert(before[q] == after[q]);
                        }
                    }
                    if has_language(before, l) {
                        let q = choose|q: int| 0 <= q < before.len() && (#[trigger] before[q]).per_language.contains_key(l);
                        assert(before[q] == after[q]);
                    }
                    if ev.per_language.contains_key(l) {
                        assert(after[i as int] == ev);
                    }
                }
                assert forall|l: Seq<char>|
                    #![auto]
                    map_of(out@).contains_key(l) == has_language(after, l) by {
                    assert(has_key(pairs@, l) == map_of(pairs@).contains_key(l));
                }
            }
            i = i + 1;
        }
        assert(es.take(es.len() as int) =~= es);
        LocalizedPerLanguage { source_language: self.source_language.clone(), language_localized: out }
    }
}

} // verus!
