//! Android string resources: one `<resources>` document per language, and the
//! directory each belongs in.
use vstd::prelude::*;

use crate::keyed::keys_sorted;
use crate::text::{sanitized, str_eq};
use crate::types::inoutoutput::ValueView;
use crate::types::output::{
    AndroidLocalizeConfig, AndroidWriteConfig, LocalizedForAndroid, LocalizedPerLanguage, PluralVariate, RecordView,
    SingleLocalizedPerLanguage, Translation, TranslationView, WrittenXml, variate_key,
};

verus! {

/// `<string name="{name}">{text}</string>`.
pub open spec fn string_line(name: Seq<char>, text: Seq<char>) -> Seq<char> {
    "<string name=\""@ + name + "\">"@ + text + "</string>"@
}

/// `<item quantity="{key}">{text}</item>`.
pub open spec fn item_line(v: PluralVariate, value: Seq<char>) -> Seq<char> {
    "<item quantity=\""@ + variate_key(v) + "\">"@ + sanitized(value) + "</item>"@
}

/// Each item on a line of its own, each line preceded by a line break.
pub open spec fn item_lines(items: Seq<(PluralVariate, ValueView)>) -> Seq<char>
    decreases items.len(),
{
    if items.len() == 0 {
        Seq::empty()
    } else {
        item_lines(items.drop_last()) + "\n"@ + item_line(items.last().0, items.last().1.value)
    }
}

/// The element of one record.
pub open spec fn record_xml(r: RecordView) -> Seq<char> {
    match r.translation {
        TranslationView::Localization(v) => string_line(r.key_alphanumeric, sanitized(v.value)),
        TranslationView::PluralVariation(items) => "<plurals name=\""@ + r.key_alphanumeric
            + "\">"@ + item_lines(items) + "\n</plurals>"@,
    }
}

/// The lines `lines` joined with line breaks between them.
pub open spec fn join_lines(lines: Seq<Seq<char>>) -> Seq<char>
    decreases lines.len(),
{
    if lines.len() == 0 {
        Seq::empty()
    } else if lines.len() == 1 {
        lines[0]
    } else {
        join_lines(lines.drop_last()) + "\n"@ + lines.last()
    }
}

/// The elements of a document: the app name first where it is not empty, then
/// one element per record, in order.
pub open spec fn children(records: Seq<RecordView>, app_name: Seq<char>) -> Seq<Seq<char>> {
    (if app_name.len() > 0 {
        seq![string_line("app_name"@, app_name)]
    } else {
        Seq::empty()
    }) + records.map_values(|r: RecordView| record_xml(r))
}

/// The Android document of one language.
pub open spec fn document(records: Seq<RecordView>, app_name: Seq<char>) -> Seq<char> {
    "<resources>\n"@ + join_lines(children(records, app_name)) + "\n</resources>"@
}

/// The directory of a language: `values` for the source language, else
/// `values-{language}`.
pub open spec fn sub_dir_of(language: Seq<char>, source: Seq<char>) -> Seq<char> {
    if language == source {
        "values"@
    } else {
        "values"@ + "-"@ + language
    }
}

/// The files to write, in order of language: each language, or only `only`
/// where it is given.
pub open spec fn planned(
    languages: Seq<Seq<char>>,
    source: Seq<char>,
    only: Option<Seq<char>>,
) -> Seq<(Seq<char>, Seq<char>)>
    decreases languages.len(),
{
    if languages.len() == 0 {
        Seq::empty()
    } else {
        let rest = planned(languages.drop_last(), source, only);
        let l = languages.last();
        if only is None || only == Some(l) {
            rest.push((l, sub_dir_of(l, source)))
        } else {
            rest
        }
    }
}

/// The one language to write, if the configuration names one.
pub open spec fn only_of(wc: AndroidWriteConfig) -> Option<Seq<char>> {
    match wc.only_write_language_code {
        Some(o) => Some(o@),
        None => None,
    }
}

impl View for WrittenXml {
    type V = (Seq<char>, Seq<char>);

    open spec fn view(&self) -> (Seq<char>, Seq<char>) {
        (self.language_code@, self.sub_dir@)
    }
}

impl LocalizedPerLanguage {
    /// Languages are sorted and unique.
    pub open spec fn wf(&self) -> bool {
        keys_sorted(self.language_localized@)
    }

    /// The language codes, in order.
    pub open spec fn languages(&self) -> Seq<Seq<char>> {
        self.language_localized@.map_values(|p: (String, crate::types::output::LocalizedPerLanguageInfo)| p.0@)
    }
}

fn render_record(r: &SingleLocalizedPerLanguage, out: &mut String)
    ensures
        final(out)@ == old(out)@ + record_xml(r@),
{
    match &r.translation {
        Translation::Localization(tv) => {
            out.append("<string name=\"");
            out.append(r.key_alphanumeric.as_str());
            out.append("\">");
            let text = tv.sanitize_for_android();
            out.append(text.as_str());
            out.append("</string>");
        },
        Translation::PluralVariation(pv) => {
            let ghost start = out@;
            let ghost items = pv@.map_values(|s: crate::types::output::SinglePluralVariation| s@);
            out.append("<plurals name=\"");
            out.append(r.key_alphanumeric.as_str());
            out.append("\">");
            let ghost head = out@;
            let mut k: usize = 0;
            while k < pv.len()
                invariant
                    items == pv@.map_values(|s: crate::types::output::SinglePluralVariation| s@),
                    k <= pv@.len(),
                    out@ == head + item_lines(items.take(k as int)),
                decreases pv@.len() - k,
            {
                assert(items.take(k + 1).drop_last() =~= items.take(k as int));
                assert(items.take(k + 1).last() == items[k as int]);
                out.append("\n");
                out.append("<item quantity=\"");
                out.append(pv[k].variate.android_key());
                out.append("\">");
                let text = pv[k].translation_value.sanitize_for_android();
                out.append(text.as_str());
                out.append("</item>");
                k = k + 1;
            }
            out.append("\n</plurals>");
            assert(items.take(pv@.len() as int) =~= items);
        },
    }
}

/// The document of one language.
fn render_document(records: &Vec<SingleLocalizedPerLanguage>, app_name: &String) -> (r: String)
    ensures
        r@ == document(records@.map_values(|r: SingleLocalizedPerLanguage| r@), app_name@),
{
    let ghost recs = records@.map_values(|r: SingleLocalizedPerLanguage| r@);
    let ghost head: Seq<Seq<char>> = if app_name@.len() > 0 {
        seq![string_line("app_name"@, app_name@)]
    } else {
        Seq::empty()
    };
    let mut body = String::new();
    let mut any = false;
    if app_name.unicode_len() > 0 {
        body.append("<string name=\"");
        body.append("app_name");
        body.append("\">");
        body.append(app_name.as_str());
        body.append("</string>");
        any = true;
        assert(join_lines(head) == head[0]);
    }
    assert(head + recs.take(0).map_values(|r: RecordView| record_xml(r)) =~= head);
    let mut k: usize = 0;
    while k < records.len()
        invariant
            recs == records@.map_values(|r: SingleLocalizedPerLanguage| r@),
            head == (if app_name@.len() > 0 {
                seq![string_line("app_name"@, app_name@)]
            } else {
                Seq::empty()
            }),
            k <= records@.len(),
            any == (head.len() + k > 0),
            body@ == join_lines(head + recs.take(k as int).map_values(|r: RecordView| record_xml(r))),
        decreases records@.len() - k,
    {
        let ghost before = head + recs.take(k as int).map_values(|r: RecordView| record_xml(r));
        let ghost after = head + recs.take(k + 1).map_values(|r: RecordView| record_xml(r));
        assert(after.drop_last() =~= before);
        assert(after.last() == record_xml(records@[k as int]@));
        if any {
            body.append("\n");
        } else {
            assert(before.len() == 0);
            assert(after.len() == 1);
        }
        render_record(&records[k], &mut body);
        any = true;
        k = k + 1;
    }
    assert(recs.take(records@.len() as int) =~= recs);
    let mut doc = String::from_str("<resources>\n");
    doc.append(body.as_str());
    doc.append("\n</resources>");
    doc
}

impl LocalizedPerLanguage {
    /// The Android document of each language, in order of language, and, where
    /// `config` asks for files, the file of each language to write (or of the one
    /// language it names) with its directory.
    pub fn localized_for_android(&self, config: &AndroidLocalizeConfig) -> (r: LocalizedForAndroid)
        requires
            self.wf(),
        ensures
            keys_sorted(r.sorted_languages@),
            r.sorted_languages@.len() == self.language_localized@.len(),
            forall|i: int|
                0 <= i < r.sorted_languages@.len() ==> (#[trigger] r.sorted_languages@[i]).0@
                    == self.language_localized@[i].0@ && r.sorted_languages@[i].1@ == document(
                    self.language_localized@[i].1@.translations,
                    config.app_name@,
                ),
            r.written_xmls@.map_values(|w: WrittenXml| w@) == match config.write_config {
                None => Seq::empty(),
                Some(wc) => planned(self.languages(), self.source_language@, only_of(wc)),
            },
    {
        let mut docs: Vec<(String, String)> = Vec::new();
        let mut i: usize = 0;
        while i < self.language_localized.len()
            invariant
                self.wf(),
                i <= self.language_localized@.len(),
                docs@.len() == i,
                forall|j: int|
                    0 <= j < i ==> (#[trigger] docs@[j]).0@ == self.language_localized@[j].0@
                        && docs@[j].1@ == document(
                        self.language_localized@[j].1@.translations,
                        config.app_name@,
                    ),
            decreases self.language_localized@.len() - i,
        {
            let doc = render_document(&self.language_localized[i].1.translations, &config.app_name);
            docs.push((self.language_localized[i].0.clone(), doc));
            i = i + 1;
        }
        assert(keys_sorted(docs@)) by {
            assert forall|a: int, b: int| 0 <= a < b < docs@.len() implies crate::text::seq_lt(
                #[trigger] docs@[a].0@,
                #[trigger] docs@[b].0@,
            ) by {
                assert(crate::text::seq_lt(
                    self.language_localized@[a].0@,
                    self.language_localized@[b].0@,
                ));
            }
        }
        let mut written: Vec<WrittenXml> = Vec::new();
        match &config.write_config {
            None => {
                assert(written@.map_values(|w: WrittenXml| w@) =~= Seq::<(Seq<char>, Seq<char>)>::empty());
            },
            Some(wc) => {
                let ghost only = only_of(*wc);
                let ghost langs = self.languages();
                let mut k: usize = 0;
                assert(written@.map_values(|w: WrittenXml| w@) =~= planned(langs.take(0), self.source_language@, only));
                while k < self.language_localized.len()
                    invariant
                        k <= self.language_localized@.len(),
                        langs == self.languages(),
                        only == only_of(*wc),
                        written@.map_values(|w: WrittenXml| w@) == planned(langs.take(k as int), self.source_language@, only),
                    decreases self.language_localized@.len() - k,
                {
                    let ghost before = written@.map_values(|w: WrittenXml| w@);
                    assert(langs.take(k + 1).drop_last() =~= langs.take(k as int));
                    assert(langs.take(k + 1).last() == self.language_localized@[k as int].0@);
                    let language = &self.language_localized[k].0;
                    let wanted = match &wc.only_write_language_code {
                        Some(o) => str_eq(o.as_str(), language.as_str()),
                        None => true,
                    };
                    if wanted {
                        let sub_dir = if str_eq(language.as_str(), self.source_language.as_str()) {
                            String::from_str("values")
                        } else {
                            let mut s = String::from_str("values");
                            s.append("-");
                            s.append(language.as_str());
                            s
                        };
                        written.push(WrittenXml { language_code: language.clone(), sub_dir });
                        assert(written@.map_values(|w: WrittenXml| w@) =~= before.push(
                            (language@, sub_dir_of(language@, self.source_language@)),
                        ));
                    }
                    k = k + 1;
                }
                assert(langs.take(self.language_localized@.len() as int) =~= langs);
            },
        }
        LocalizedForAndroid { sorted_languages: docs, written_xmls: written }
    }
}

} // verus!
