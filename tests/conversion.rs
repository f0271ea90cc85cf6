use xcstrings_android::key::android_name_of;
use xcstrings_android::parse_from_bytes;
use xcstrings_android::parse_from_string;
use xcstrings_android::types::inoutoutput::TranslationValue;
use xcstrings_android::types::output::{
    AndroidLocalizeConfig, AndroidWriteConfig, LocalizedForAndroid, LocalizedPerLanguage, Parsed,
    ParsedError, PluralVariate, Translation,
};

const CATALOG: &str = r#"{"sourceLanguage":"en","version":"1.0","strings":{
  "Hello, World!":{"comment":"greeting","localizations":{
    "en":{"stringUnit":{"state":"translated","value":"Hello, World!"}},
    "nl":{"stringUnit":{"state":"translated","value":"Hallo, Wereld!"}}}},
  "%lld items":{"localizations":{
    "en":{"variations":{"plural":{
      "one":{"stringUnit":{"state":"translated","value":"%lld item"}},
      "other":{"stringUnit":{"state":"translated","value":"%lld items"}}}}},
    "nl":{"variations":{"plural":{
      "one":{"stringUnit":{"state":"translated","value":"%lld ding"}},
      "other":{"stringUnit":{"state":"translated","value":"%lld dingen"}}}}}}},
  "Don't go":{"localizations":{
    "nl":{"stringUnit":{"state":"new","value":"Ga niet"}}}}
}}"#;

const EXPECTED_EN: &str = "<resources>
<plurals name=\"lld_items\">
<item quantity=\"one\">%lld item</item>
<item quantity=\"other\">%lld items</item>
</plurals>
<string name=\"don_t_go\">Don\\'t go</string>
<string name=\"hello_world\">Hello, World!</string>
</resources>";

const EXPECTED_NL: &str = "<resources>
<plurals name=\"lld_items\">
<item quantity=\"one\">%lld ding</item>
<item quantity=\"other\">%lld dingen</item>
</plurals>
<string name=\"don_t_go\">Ga niet</string>
<string name=\"hello_world\">Hallo, Wereld!</string>
</resources>";

fn parse(text: &str) -> Parsed {
    parse_from_string(text.to_string()).unwrap()
}

fn render(text: &str, config: &AndroidLocalizeConfig) -> LocalizedForAndroid {
    parse(text).localizable.localized_per_language().localized_for_android(config)
}

fn no_config() -> AndroidLocalizeConfig {
    AndroidLocalizeConfig { app_name: String::new(), write_config: None }
}

fn doc_of<'a>(out: &'a LocalizedForAndroid, language: &str) -> Option<&'a String> {
    out.sorted_languages.iter().find(|(l, _)| l == language).map(|(_, d)| d)
}

fn tv(value: &str) -> TranslationValue {
    TranslationValue { state: "translated".to_string(), value: value.to_string() }
}

#[test]
fn it_works() {
    let parsed = parse_from_bytes(CATALOG.as_bytes()).unwrap();
    let localized_per_language = parsed.localizable.localized_per_language();
    let android_actual = localized_per_language.localized_for_android(&no_config()).sorted_languages;
    assert_eq!(android_actual.len(), 2);
    for (language, value) in android_actual {
        let expect = if language == parsed.localizable.source_language {
            EXPECTED_EN
        } else {
            assert_eq!(language, "nl");
            EXPECTED_NL
        };
        assert_eq!(value.trim(), expect.trim());
    }
}

#[test]
fn entries_are_sorted_by_key() {
    let parsed = parse(CATALOG);
    let keys: Vec<&str> =
        parsed.localizable.single_translation.iter().map(|e| e.key_raw.as_str()).collect();
    assert_eq!(keys, vec!["%lld items", "Don't go", "Hello, World!"]);
}

#[test]
fn key_names_are_alphanumeric() {
    assert_eq!(android_name_of("Hello, World!"), "hello_world");
    assert_eq!(android_name_of("__A--b__"), "a_b");
    assert_eq!(android_name_of("%lld items"), "lld_items");
    assert_eq!(android_name_of("Ünïcode key"), "n_code_key");
    assert_eq!(android_name_of("!!!"), "");
    let parsed = parse(CATALOG);
    let names: Vec<&str> =
        parsed.localizable.single_translation.iter().map(|e| e.key_alphanumeric.as_str()).collect();
    assert_eq!(names, vec!["lld_items", "don_t_go", "hello_world"]);
}

#[test]
fn source_language_is_filled_with_the_key() {
    let parsed = parse(CATALOG);
    let entry = &parsed.localizable.single_translation[1];
    assert_eq!(entry.key_raw, "Don't go");
    let (_, en) = entry
        .localization_value
        .language_translation
        .iter()
        .find(|(l, _)| l == "en")
        .unwrap();
    let value = en.clone().expect_localization().unwrap();
    assert_eq!(value.value, "Don't go");
    assert_eq!(value.state, "translated");
}

#[test]
fn many_and_other_render_two_items() {
    let text = r#"{"sourceLanguage":"en","version":"1.0","strings":{"n":{"localizations":{
      "en":{"variations":{"plural":{
        "other":{"stringUnit":{"state":"translated","value":"%d left"}},
        "many":{"stringUnit":{"state":"translated","value":"%d lots"}}}}}}}}}"#;
    let out = render(text, &no_config());
    assert_eq!(
        doc_of(&out, "en").unwrap(),
        "<resources>\n<plurals name=\"n\">\n<item quantity=\"many\">%d lots</item>\n<item quantity=\"other\">%d left</item>\n</plurals>\n</resources>"
    );
}

#[test]
fn sanitize_leaves_plain_text() {
    for v in ["plain text", "", "100% $ld $ll", "x$ll d $LLD"] {
        assert_eq!(tv(v).sanitize_for_android(), v);
    }
}

#[test]
fn sanitize_escapes_quote_and_format() {
    assert_eq!(tv("It's %1$lld items").sanitize_for_android(), "It\\'s %1$d items");
    assert_eq!(tv("''").sanitize_for_android(), "\\'\\'");
    assert_eq!(tv("$lld$lld").sanitize_for_android(), "$d$d");
}

#[test]
fn end_to_end_single_string() {
    let text = r#"{"sourceLanguage":"en","version":"1.0","strings":{"hello":{"localizations":{"en":{"stringUnit":{"state":"translated","value":"Hello"}}}}}}"#;
    let out = render(text, &no_config());
    assert_eq!(
        doc_of(&out, "en").unwrap(),
        "<resources>\n<string name=\"hello\">Hello</string>\n</resources>"
    );
    assert!(out.written_xmls.is_empty());
}

#[test]
fn app_name_comes_first() {
    let text = r#"{"sourceLanguage":"en","version":"1.0","strings":{"hello":{"localizations":{"en":{"stringUnit":{"state":"translated","value":"Hello"}}}}}}"#;
    let config = AndroidLocalizeConfig { app_name: "My App".to_string(), write_config: None };
    let out = render(text, &config);
    assert_eq!(
        doc_of(&out, "en").unwrap(),
        "<resources>\n<string name=\"app_name\">My App</string>\n<string name=\"hello\">Hello</string>\n</resources>"
    );
}

#[test]
fn empty_catalog_renders_nothing() {
    let out = render(r#"{"sourceLanguage":"en","version":"1.0","strings":{}}"#, &no_config());
    assert!(out.sorted_languages.is_empty());
}

#[test]
fn key_with_leading_space_is_rejected() {
    let text = r#"{"sourceLanguage":"en","version":"1.0","strings":{" hello":{"localizations":{}}}}"#;
    match parse_from_string(text.to_string()) {
        Err(ParsedError::InvalidTranslationKey(k)) => assert_eq!(k, " hello"),
        other => panic!("unexpected {:?}", other),
    }
}

#[test]
fn key_with_trailing_tab_is_rejected() {
    let text = r#"{"sourceLanguage":"en","version":"1.0","strings":{"ok":{},"bad\t":{}}}"#;
    match parse_from_string(text.to_string()) {
        Err(ParsedError::InvalidTranslationKey(k)) => assert_eq!(k, "bad\t"),
        other => panic!("unexpected {:?}", other),
    }
}

#[test]
fn malformed_json_is_a_parse_error() {
    assert!(matches!(
        parse_from_string("{not json".to_string()),
        Err(ParsedError::ParseToJson(_))
    ));
}

#[test]
fn missing_version_is_a_parse_error() {
    let text = r#"{"sourceLanguage":"en","strings":{}}"#;
    assert!(matches!(parse_from_string(text.to_string()), Err(ParsedError::ParseToJson(_))));
}

#[test]
fn unit_of_unknown_shape_is_a_parse_error() {
    let text = r#"{"sourceLanguage":"en","version":"1","strings":{"a":{"localizations":{"en":{"other":1}}}}}"#;
    assert!(matches!(parse_from_string(text.to_string()), Err(ParsedError::ParseToJson(_))));
}

#[test]
fn invalid_utf8_is_reported() {
    assert!(matches!(parse_from_bytes(&[0x7b, 0xff, 0x7d]), Err(ParsedError::InvalidUtf8(_))));
}

#[test]
fn error_messages() {
    assert_eq!(
        ParsedError::InvalidTranslationKey(" a".to_string()).message(),
        "Invalid translation key:  a"
    );
    assert_eq!(ParsedError::Io("gone".to_string()).message(), "IO error: gone");
}

#[test]
fn word_counts_per_language() {
    let per: LocalizedPerLanguage = parse(CATALOG).localizable.localized_per_language();
    let counts: Vec<(&str, usize)> =
        per.language_localized.iter().map(|(l, i)| (l.as_str(), i.word_count)).collect();
    assert_eq!(counts, vec![("en", 8), ("nl", 8)]);
    let nl = &per.language_localized[1].1;
    let keys: Vec<&str> = nl.translations.iter().map(|r| r.key_raw.as_str()).collect();
    assert_eq!(keys, vec!["%lld items", "Don't go", "Hello, World!"]);
}

#[test]
fn only_language_limits_the_files() {
    let config = AndroidLocalizeConfig {
        app_name: String::new(),
        write_config: Some(AndroidWriteConfig {
            write_in: "/tmp/out".to_string(),
            only_write_language_code: Some("nl".to_string()),
        }),
    };
    let out = render(CATALOG, &config);
    assert!(doc_of(&out, "en").is_some());
    assert_eq!(out.written_xmls.len(), 1);
    assert_eq!(out.written_xmls[0].language_code, "nl");
    assert_eq!(out.written_xmls[0].sub_dir, "values-nl");
}

#[test]
fn all_languages_get_files() {
    let config = AndroidLocalizeConfig {
        app_name: String::new(),
        write_config: Some(AndroidWriteConfig {
            write_in: "/tmp/out".to_string(),
            only_write_language_code: None,
        }),
    };
    let out = render(CATALOG, &config);
    let dirs: Vec<&str> = out.written_xmls.iter().map(|w| w.sub_dir.as_str()).collect();
    assert_eq!(dirs, vec!["values", "values-nl"]);
}

#[test]
fn plural_keys_round_trip() {
    for v in [
        PluralVariate::Zero,
        PluralVariate::One,
        PluralVariate::Two,
        PluralVariate::Few,
        PluralVariate::Many,
        PluralVariate::Other,
    ] {
        assert_eq!(PluralVariate::from_android_key(v.android_key()), Some(v));
    }
    assert_eq!(PluralVariate::Zero.android_key(), "zero");
    assert_eq!(PluralVariate::from_android_key("zero"), Some(PluralVariate::Zero));
    assert_eq!(PluralVariate::from_android_key("Zero"), None);
}

#[test]
fn expect_helpers_return_none_on_other_shape() {
    let t = Translation::Localization(tv("x"));
    assert!(t.clone().expect_plural_variation().is_none());
    assert_eq!(t.expect_localization().unwrap().value, "x");
    let p = Translation::PluralVariation(vec![]);
    assert!(p.clone().expect_localization().is_none());
    assert!(p.expect_plural_variation().unwrap().is_empty());
}

#[test]
fn duplicate_keys_keep_the_last() {
    let text = r#"{"sourceLanguage":"en","version":"1.0","strings":{
      "a":{"localizations":{"en":{"stringUnit":{"state":"translated","value":"first"}}}},
      "a":{"localizations":{"en":{"stringUnit":{"state":"translated","value":"second"}}}}}}"#;
    let out = render(text, &no_config());
    assert_eq!(
        doc_of(&out, "en").unwrap(),
        "<resources>\n<string name=\"a\">second</string>\n</resources>"
    );
}

#[test]
fn missing_comment_and_localizations_default() {
    let text = r#"{"sourceLanguage":"en","version":"1.0","strings":{"Plain":{}}}"#;
    let parsed = parse(text);
    let entry = &parsed.localizable.single_translation[0];
    assert_eq!(entry.comment, "");
    assert_eq!(entry.localization_value.language_translation.len(), 1);
    let out = render(text, &no_config());
    assert_eq!(
        doc_of(&out, "en").unwrap(),
        "<resources>\n<string name=\"plain\">Plain</string>\n</resources>"
    );
}

#[test]
fn null_plural_slot_is_empty() {
    let text = r#"{"sourceLanguage":"en","version":"1.0","strings":{"k":{"comment":"c","localizations":{
      "en":{"variations":{"plural":{"zero":null,
        "one":{"stringUnit":{"state":"new","value":"It's one"}}}}}}}}}"#;
    let out = render(text, &no_config());
    assert_eq!(
        doc_of(&out, "en").unwrap(),
        "<resources>\n<plurals name=\"k\">\n<item quantity=\"one\">It\\'s one</item>\n</plurals>\n</resources>"
    );
}

#[test]
fn zero_category_renders_lower_case() {
    let text = r#"{"sourceLanguage":"en","version":"1.0","strings":{"k":{"localizations":{
      "en":{"variations":{"plural":{
        "zero":{"stringUnit":{"state":"translated","value":"none"}},
        "other":{"stringUnit":{"state":"translated","value":"some"}}}}}}}}}"#;
    let out = render(text, &no_config());
    assert_eq!(
        doc_of(&out, "en").unwrap(),
        "<resources>\n<plurals name=\"k\">\n<item quantity=\"zero\">none</item>\n<item quantity=\"other\">some</item>\n</plurals>\n</resources>"
    );
}

#[test]
fn word_counts_add_up() {
    assert_eq!(xcstrings_android::per_language::sum_word_counts(&vec![2, 2]), 4);
    assert_eq!(xcstrings_android::per_language::sum_word_counts(&vec![]), 0);
    assert_eq!(xcstrings_android::per_language::sum_word_counts(&vec![1, 0, 7]), 8);
}

#[test]
fn schema_errors_name_what_is_wrong() {
    let cases = [
        (r#"[]"#, "expected a String Catalog object"),
        (r#"{"version":"1","strings":{}}"#, "missing or non-string field `sourceLanguage`"),
        (r#"{"sourceLanguage":"en","strings":{}}"#, "missing or non-string field `version`"),
        (r#"{"sourceLanguage":"en","version":"1"}"#, "missing or non-object field `strings`"),
    ];
    for (text, expected) in cases {
        match parse_from_string(text.to_string()) {
            Err(ParsedError::ParseToJson(m)) => assert_eq!(m, expected),
            other => panic!("unexpected {:?}", other),
        }
    }
    let text = r#"{"sourceLanguage":"en","version":"1","strings":{"a":{},"b":{"comment":3}}}"#;
    match parse_from_string(text.to_string()) {
        Err(ParsedError::ParseToJson(m)) => assert!(m.starts_with("invalid record for key `b`")),
        other => panic!("unexpected {:?}", other),
    }
}

#[test]
fn bytes_and_text_give_the_same_error() {
    let text = "{\"sourceLanguage\": 1";
    let from_text = parse_from_string(text.to_string());
    let from_bytes = parse_from_bytes(text.as_bytes());
    match (from_text, from_bytes) {
        (Err(ParsedError::ParseToJson(a)), Err(ParsedError::ParseToJson(b))) => {
            assert_eq!(a, b);
            assert!(!a.is_empty());
        }
        other => panic!("unexpected {:?}", other),
    }
}
