//! Conversion of Apple String Catalogs into Android string resources.
use vstd::prelude::*;


pub mod android;
pub mod catalog;
pub mod json;
pub mod key;
pub mod keyed;
pub mod laws;
pub mod parse;
pub mod per_language;

pub mod text;
pub mod types;

use vstd::utf8::{decode_utf8, valid_utf8};

use crate::catalog::{catalog_error, catalog_of, read_catalog};
use crate::json::{JsonValue, json_parse_of, parse_json};
use crate::keyed::lemma_map_of_index;
use crate::parse::{key_ok, normalize, normalized_entry};
use crate::text::{lemma_seq_lt_total, seq_lt};
use crate::types::input::CatalogView;
use crate::types::output::{EntryView, Parsed, ParsedError, ParsedResult};

verus! {

/// The state of a translation that is done.
pub const TRANSLATED_STATE: &'static str = "translated";

/// The state of a translation that is still to be made.
pub const NEW_STATE: &'static str = "new";

/// `entries` are the entries of catalog `c`: one per key, in ascending order of
/// keys, each made from the key's record.
pub open spec fn entries_of(c: CatalogView, entries: Seq<EntryView>) -> bool {
    &&& forall|i: int, j: int|
        0 <= i < j < entries.len() ==> seq_lt(
            #[trigger] entries[i].key_raw,
            #[trigger] entries[j].key_raw,
        )
    &&& forall|i: int|
        0 <= i < entries.len() ==> c.strings.contains_key(#[trigger] entries[i].key_raw)
            && entries[i] == normalized_entry(
            entries[i].key_raw,
            c.strings[entries[i].key_raw],
            c.source_language,
        )
    &&& forall|k: Seq<char>|
        c.strings.contains_key(k) ==> exists|i: int|
            0 <= i < entries.len() && #[trigger] entries[i].key_raw == k
}

/// What parsing the JSON value `v` gives: a schema error naming the first
/// requirement it breaks where it is no catalog; else the first key, in ascending order, that carries whitespace at
/// either end; else the catalog and its entries.
pub open spec fn parse_outcome(v: JsonValue, r: ParsedResult) -> bool {
    match catalog_of(v) {
        None => r matches Err(ParsedError::ParseToJson(m)) && m@ == catalog_error(v),
        Some(c) => {
            if forall|k: Seq<char>| c.strings.contains_key(k) ==> key_ok(k) {
                r matches Ok(p) && p.translation@ == c && p.translation.wf() && p.localizable.wf()
                    && p.localizable@.source_language == c.source_language && entries_of(
                    c,
                    p.localizable@.entries,
                )
            } else {
                r matches Err(ParsedError::InvalidTranslationKey(k)) && c.strings.contains_key(k@)
                    && !key_ok(k@) && forall|k2: Seq<char>|
                    c.strings.contains_key(k2) && seq_lt(k2, k@) ==> key_ok(k2)
            }
        },
    }
}

/// Reads a catalog from a JSON value and turns it into its entries.
pub fn parse_from_json(v: &JsonValue) -> (r: ParsedResult)
    ensures
        parse_outcome(*v, r),
{
    let cat = match read_catalog(v) {
        Ok(cat) => cat,
        Err(msg) => return Err(ParsedError::ParseToJson(msg)),
    };
    let ghost c = catalog_of(*v)->0;
    let ghost s = cat.strings@;
    proof {
        assert forall|k: Seq<char>| c.strings.contains_key(k) implies exists|i: int|
            0 <= i < s.len() && #[trigger] s[i].0@ == k by {}
    }
    match normalize(&cat) {
        Ok(loc) => {
            proof {
                let es = loc@.entries;
                assert forall|i: int| 0 <= i < es.len() implies (#[trigger] es[i]) == normalized_entry(
                    s[i].0@,
                    s[i].1@,
                    cat.source_language@,
                ) by {
                    assert(es[i] == loc.single_translation@[i]@);
                }
                assert forall|i: int|
                    0 <= i < es.len() implies c.strings.contains_key(#[trigger] es[i].key_raw)
                    && es[i] == normalized_entry(
                    es[i].key_raw,
                    c.strings[es[i].key_raw],
                    c.source_language,
                ) by {
                    lemma_map_of_index(s, i);
                }
                assert forall|k: Seq<char>| c.strings.contains_key(k) implies exists|i: int|
                    0 <= i < es.len() && #[trigger] es[i].key_raw == k by {
                    let i = choose|i: int| 0 <= i < s.len() && #[trigger] s[i].0@ == k;
                    assert(es[i].key_raw == k);
                }
                assert forall|k: Seq<char>| c.strings.contains_key(k) implies key_ok(k) by {
                    let i = choose|i: int| 0 <= i < s.len() && #[trigger] s[i].0@ == k;
                }
                assert forall|i: int, j: int| 0 <= i < j < es.len() implies seq_lt(
                    #[trigger] es[i].key_raw,
                    #[trigger] es[j].key_raw,
                ) by {
                    assert(seq_lt(s[i].0@, s[j].0@));
                }
            }
            Ok(Parsed { localizable: loc, translation: cat })
        },
        Err(e) => {
            proof {
                let i = choose|i: int|
                    0 <= i < s.len() && !key_ok(#[trigger] s[i].0@) && (e->InvalidTranslationKey_0)@
                        == s[i].0@ && forall|j: int| 0 <= j < i ==> key_ok(s[j].0@);
                lemma_map_of_index(s, i);
                assert forall|k2: Seq<char>|
                    c.strings.contains_key(k2) && seq_lt(k2, s[i].0@) implies key_ok(k2) by {
                    let j = choose|j: int| 0 <= j < s.len() && #[trigger] s[j].0@ == k2;
                    lemma_seq_lt_total(k2, s[i].0@);
                    if j > i {
                        assert(seq_lt(s[i].0@, s[j].0@));
                    } else if j == i {
                    }
                }
            }
            Err(e)
        },
    }
}

/// What parsing the text `text` gives: the JSON parser's message where it is
/// no JSON, else what parsing its value gives.
pub open spec fn text_outcome(text: Seq<char>, r: ParsedResult) -> bool {
    match json_parse_of(text) {
        Err(m) => r matches Err(ParsedError::ParseToJson(e)) && e@ == m,
        Ok(v) => parse_outcome(v, r),
    }
}

/// Reads a catalog from JSON text and turns it into its entries.
pub fn parse_from_string(raw: String) -> (r: ParsedResult)
    ensures
        text_outcome(raw@, r),
{
    match parse_json(raw.as_str()) {
        Ok(v) => parse_from_json(&v),
        Err(msg) => Err(ParsedError::ParseToJson(msg)),
    }
}

/// Relies on `String::from_utf8`: the text that the bytes encode, where they
/// are valid UTF-8, else a description of the first fault.
#[verifier::external_body]
fn string_from_utf8(raw: &[u8]) -> (r: Result<String, String>)
    ensures
        match r {
            Ok(s) => valid_utf8(raw@) && s@ == decode_utf8(raw@),
            Err(_) => !valid_utf8(raw@),
        },
{
    String::from_utf8(raw.to_vec()).map_err(|e| e.to_string())
}

/// Reads a catalog from UTF-8 encoded JSON and turns it into its entries: for
/// valid UTF-8, what `parse_from_string` gives for the text it encodes.
pub fn parse_from_bytes(raw: &[u8]) -> (r: ParsedResult)
    ensures
        !valid_utf8(raw@) ==> r matches Err(ParsedError::InvalidUtf8(_)),
        valid_utf8(raw@) ==> text_outcome(decode_utf8(raw@), r),
{
    match string_from_utf8(raw) {
        Ok(text) => parse_from_string(text),
        Err(msg) => Err(ParsedError::InvalidUtf8(msg)),
    }
}

} // verus!
