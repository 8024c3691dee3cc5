use xcstrings_mcp::codec::find_member;
use xcstrings_mcp::error::StoreError;
use xcstrings_mcp::json::{JsonNumber, JsonValue};
use xcstrings_mcp::manager::{
    eq_ignore_ascii_case, is_catalog_extension, is_skipped_directory, PathRequest,
    XcStringsStoreManager,
};
use xcstrings_mcp::model::{FormatVersion, XcLocalization, XcStringUnit, XcStringsFile};
use xcstrings_mcp::normalize::{
    context_below, default_source_language, default_version, is_blank, localization_is_empty,
    normalize_localization, normalize_strings_file, sanitize_string_unit,
    string_unit_has_content, VariationContext,
};
use xcstrings_mcp::ordered_map::OrderedMap;
use xcstrings_mcp::parse::parse_json;
use xcstrings_mcp::store::XcStringsStore;
use xcstrings_mcp::text::{str_contains, str_equal, str_is_blank, str_less, str_less_by, trim};
use xcstrings_mcp::update::{apply_update, FieldUpdate, TranslationUpdate};
use xcstrings_mcp::value::TranslationValue;

fn unit(state: Option<&str>, value: Option<&str>) -> XcStringUnit {
    XcStringUnit {
        state: state.map(|s| s.to_string()),
        value: value.map(|s| s.to_string()),
    }
}

fn sanitized(state: Option<&str>, value: Option<&str>) -> (Option<String>, Option<String>) {
    let mut u = unit(state, value);
    sanitize_string_unit(&mut u);
    (u.state, u.value)
}

fn some(s: &str) -> Option<String> {
    Some(s.to_string())
}

fn text(value: &str) -> TranslationUpdate {
    TranslationUpdate::from_value_state(Some(value.to_string()), None)
}

fn fresh_store() -> XcStringsStore {
    XcStringsStore::load_or_create("/tmp/catalog/Localizable.xcstrings".to_string(), None)
        .expect("load store")
}

#[test]
fn defaults() {
    assert_eq!(default_version(), "1.0");
    assert_eq!(default_source_language(), "en");
    let doc = XcStringsFile::default();
    assert_eq!(doc.version, "1.0");
    assert_eq!(doc.source_language, "en");
    assert!(doc.format_version.is_none());
    assert!(doc.strings.is_empty());
    let store = fresh_store();
    assert_eq!(store.path(), "/tmp/catalog/Localizable.xcstrings");
    assert_eq!(
        store.serialize(),
        "{\n  \"version\" : \"1.0\",\n  \"sourceLanguage\" : \"en\",\n  \"strings\" : {}\n}"
    );
}

#[test]
fn blank_texts() {
    assert!(is_blank(&None));
    assert!(is_blank(&some("")));
    assert!(is_blank(&some(" \t\n\u{a0}\u{3000}")));
    assert!(!is_blank(&some(" x ")));
    assert!(!is_blank(&some("\u{200b}")));
    assert!(str_is_blank("\u{2028}\u{2029}\u{85}\u{1680}\u{202f}\u{205f}"));
    assert_eq!(trim("  fr \n"), "fr");
    assert_eq!(trim("\u{a0}zh-Hans\u{2003}"), "zh-Hans");
    assert_eq!(trim(" a b "), "a b");
    assert_eq!(trim("   "), "");
    assert_eq!(trim(""), "");
}

#[test]
fn strings_compare_as_str_does() {
    for (a, b) in [
        ("", "a"),
        ("a", "b"),
        ("a", "ab"),
        ("ab", "b"),
        ("Z", "a"),
        ("de", "en"),
        ("fr", "fr-FR"),
        ("é", "ꙮ"),
        ("z", "é"),
        ("\u{ffff}", "\u{10000}"),
    ] {
        assert!(a < b);
        assert!(str_less(a, b), "{a} < {b}");
        assert!(!str_less(b, a), "{b} < {a}");
        assert!(!str_less(a, a));
        assert!(str_equal(a, a));
        assert!(!str_equal(a, b));
    }
}

#[test]
fn filters_ignore_case() {
    let mut store = fresh_store();
    store.upsert_translation("Menu.TITLE", "en", text("Straße ÄÖ")).unwrap();
    store.upsert_translation("other", "en", text("plain")).unwrap();
    for (filter, count) in [
        ("menu.title", 1),
        ("MENU", 1),
        ("straße äö", 1),
        ("STRASSE", 0),
        ("Ä", 1),
        ("", 2),
        ("PLAIN", 1),
        ("absent", 0),
    ] {
        assert_eq!(store.list_records(Some(filter)).len(), count, "{filter}");
        assert_eq!(store.list_summaries(Some(filter)).len(), count, "{filter}");
    }
    assert_eq!(store.list_records(None).len(), 2);
}

#[test]
fn sanitizing_string_units() {
    assert_eq!(sanitized(None, None), (None, None));
    assert_eq!(sanitized(None, Some("Hello")), (some("translated"), some("Hello")));
    assert_eq!(sanitized(Some("new"), Some("Hello")), (some("new"), some("Hello")));
    assert_eq!(sanitized(None, Some("  ")), (None, None));
    assert_eq!(sanitized(Some("new"), Some("")), (some("new"), None));
    assert_eq!(sanitized(Some("new"), Some("   ")), (some("new"), None));
    assert_eq!(sanitized(Some("  "), Some("")), (None, None));
    assert_eq!(sanitized(Some("  "), Some("x")), (some("translated"), some("x")));
    assert_eq!(sanitized(Some(" "), None), (None, None));
    assert_eq!(sanitized(Some("needs-translation"), None), (some("needs-translation"), None));
    assert!(string_unit_has_content(&unit(Some("new"), None)));
    assert!(string_unit_has_content(&unit(None, Some("x"))));
    assert!(!string_unit_has_content(&unit(None, None)));
}

#[test]
fn contexts_below_selectors() {
    let top = VariationContext::TopLevel;
    let plural = VariationContext::NestedUnderPlural;
    let device = VariationContext::NestedUnderDevice;
    assert_eq!(context_below(top, "plural"), plural);
    assert_eq!(context_below(top, "device"), device);
    assert_eq!(context_below(top, "other"), top);
    assert_eq!(context_below(device, "plural"), plural);
    assert_eq!(context_below(device, "device"), device);
    assert_eq!(context_below(plural, "device"), plural);
    assert_eq!(context_below(plural, "plural"), plural);
}

#[test]
fn normalizing_is_idempotent() {
    let text = r#"{
        "version": " ",
        "sourceLanguage": "",
        "extra": [1, {"k": null}],
        "strings": {
            "empty": {"localizations": {"en": {"stringUnit": {"value": "  "}}, "fr": {"stringUnit": {"state": " "}}}},
            "noted": {"comment": "kept", "localizations": {}},
            "both": {"localizations": {"en": {"variations": {
                "plural": {"one": {"stringUnit": {"value": "1"},
                                   "variations": {"device": {"mac": {"stringUnit": {"value": "m"}}}}}},
                "device": {"iphone": {"stringUnit": {"value": "i"}}},
                "hollow": {}
            }}}},
            "device": {"localizations": {"en": {"variations": {
                "device": {"iphone": {"variations": {
                    "device": {"ipad": {"stringUnit": {"value": "x"}}},
                    "plural": {"one": {"stringUnit": {"value": "one"}}}
                }}}
            }, "substitutions": {"gone": {}, "n": {"argNum": 1}}}}}
        }
    }"#;
    let json = parse_json(text).expect("json");
    let mut doc = XcStringsFile::from_json_value(&json).expect("catalog");
    normalize_strings_file(&mut doc);
    let once = xcstrings_mcp::apple_json_formatter::to_apple_format(&doc.to_json_value());
    normalize_strings_file(&mut doc);
    let twice = xcstrings_mcp::apple_json_formatter::to_apple_format(&doc.to_json_value());
    assert_eq!(once, twice);

    assert_eq!(doc.version, "1.0");
    assert_eq!(doc.source_language, "en");
    let keys: Vec<&str> = (0..doc.strings.len()).map(|i| doc.strings.key_at(i).as_str()).collect();
    assert_eq!(keys, vec!["noted", "both", "device"]);

    let both = doc.strings.get("both").unwrap().localizations.get("en").unwrap();
    let selectors = both.variations.as_ref().unwrap();
    assert!(selectors.contains_key("plural"));
    assert!(!selectors.contains_key("device"));
    assert!(!selectors.contains_key("hollow"));
    let one = selectors.get("plural").unwrap().get("one").unwrap();
    assert_eq!(one.string_unit.as_ref().unwrap().state.as_deref(), Some("translated"));
    assert!(one.variations.as_ref().map(|v| v.is_empty()).unwrap_or(true));

    let device = doc.strings.get("device").unwrap().localizations.get("en").unwrap();
    let iphone = device.variations.as_ref().unwrap().get("device").unwrap().get("iphone").unwrap();
    let nested = iphone.variations.as_ref().unwrap();
    assert!(nested.contains_key("plural"));
    assert!(!nested.contains_key("device"));
    let substitutions = device.substitutions.as_ref().unwrap();
    assert_eq!(substitutions.len(), 1);
    assert_eq!(substitutions.get("n").unwrap().arg_num, Some(1));

    // Members that the library does not know stay where they were.
    assert!(once.contains("\"extra\" : [\n    1,\n    {\n      \"k\" : null\n    }\n  ]"));
    assert!(once.find("\"sourceLanguage\"").unwrap() < once.find("\"extra\"").unwrap());
}

#[test]
fn reading_a_catalog() {
    let not_an_object = parse_json("[1, 2]").unwrap();
    assert!(matches!(
        XcStringsFile::from_json_value(&not_an_object),
        Err(StoreError::ParseFailed(_))
    ));
    assert!(matches!(
        XcStringsStore::load_or_create("p".to_string(), Some("{ nope")),
        Err(StoreError::ParseFailed(_))
    ));
    assert!(matches!(
        XcStringsStore::load_or_create("p".to_string(), Some("3")),
        Err(StoreError::ParseFailed(_))
    ));

    let doc = XcStringsFile::from_json_value(&parse_json(r#"{"formatVersion": 2}"#).unwrap()).unwrap();
    assert!(matches!(doc.format_version, Some(FormatVersion::Integer(2))));
    assert_eq!(doc.version, "1.0");
    assert_eq!(doc.source_language, "en");
    let doc = XcStringsFile::from_json_value(
        &parse_json(r#"{"formatVersion": "b", "version": "2.0", "sourceLanguage": "de"}"#).unwrap(),
    )
    .unwrap();
    assert!(matches!(doc.format_version, Some(FormatVersion::String(ref s)) if s == "b"));
    assert_eq!(doc.version, "2.0");
    assert_eq!(doc.source_language, "de");
    let doc = XcStringsFile::from_json_value(&parse_json(r#"{"formatVersion": 1.5}"#).unwrap()).unwrap();
    assert!(doc.format_version.is_none());
    let written = xcstrings_mcp::apple_json_formatter::to_apple_format(&doc.to_json_value());
    assert!(!written.contains("formatVersion"));

    // One malformed entry leaves the catalog without entries.
    for strings in [
        r#"{"a": {"comment": 5}}"#,
        r#"{"a": {"localizations": null}}"#,
        r#"{"a": {"localizations": {"en": {"stringUnit": "x"}}}}"#,
        r#"{"a": {"localizations": {"en": {"substitutions": {"n": {"argNum": 1.5}}}}}}"#,
        r#"{"a": {"shouldTranslate": "yes"}}"#,
        r#"{"a": []}"#,
        r#"[]"#,
    ] {
        let text = format!(r#"{{"strings": {strings}}}"#);
        let doc = XcStringsFile::from_json_value(&parse_json(&text).unwrap()).unwrap();
        assert!(doc.strings.is_empty(), "{strings}");
    }
    let text = r#"{"strings": {"a": {"comment": null, "unknown": 1, "shouldTranslate": false,
        "localizations": {"en": {"stringUnit": {"value": null}}}}}}"#;
    let doc = XcStringsFile::from_json_value(&parse_json(text).unwrap()).unwrap();
    let entry = doc.strings.get("a").unwrap();
    assert_eq!(entry.should_translate, Some(false));
    assert!(entry.comment.is_none());
    assert!(entry.localizations.contains_key("en"));

    let members = vec![
        ("a".to_string(), JsonValue::Null),
        ("b".to_string(), JsonValue::Bool(true)),
        ("a".to_string(), JsonValue::Number(JsonNumber::Integer(1))),
    ];
    assert_eq!(find_member(&members, "a"), Some(&JsonValue::Null));
    assert_eq!(find_member(&members, "b"), Some(&JsonValue::Bool(true)));
    assert_eq!(find_member(&members, "c"), None);
}

#[test]
fn reload_replaces_the_document() {
    let mut store = fresh_store();
    store.upsert_translation("a", "en", text("A")).unwrap();
    let saved = store.serialize();
    store.upsert_translation("b", "en", text("B")).unwrap();
    assert!(store.reload("{ broken").is_err());
    assert!(store.get_translation("b", "en").unwrap().is_some());
    store.reload(&saved).unwrap();
    assert!(store.get_translation("b", "en").unwrap().is_none());
    assert!(store.get_translation("a", "en").unwrap().is_some());
    assert_eq!(store.serialize(), saved);
    assert_eq!(store.document().strings.len(), 1);

    // A store that is found again keeps its document where the file cannot be read.
    store.upsert_translation("c", "en", text("C")).unwrap();
    let before = store.serialize();
    store.reload_or_keep("{ broken");
    assert_eq!(store.serialize(), before);
    store.reload_or_keep(&saved);
    assert_eq!(store.serialize(), saved);
    assert!(store.get_translation("c", "en").unwrap().is_none());
}

#[test]
fn order_is_preserved() {
    let mut store = fresh_store();
    for key in ["A", "B", "C"] {
        store.upsert_translation(key, "en", text(key)).unwrap();
    }
    store.upsert_translation("B", "en", text("changed")).unwrap();
    let keys: Vec<String> = store.list_records(None).into_iter().map(|r| r.key).collect();
    assert_eq!(keys, vec!["A", "B", "C"]);
    store.upsert_translation("D", "en", text("D")).unwrap();
    let keys: Vec<String> = store.list_records(None).into_iter().map(|r| r.key).collect();
    assert_eq!(keys, vec!["A", "B", "C", "D"]);
    store.rename_key("A", "E").unwrap();
    let keys: Vec<String> = store.list_summaries(None).into_iter().map(|r| r.key).collect();
    assert_eq!(keys, vec!["B", "C", "D", "E"]);
    assert!(store.rename_key("B", "B").unwrap().is_none());
    assert!(store.rename_key("missing", "missing").unwrap().is_none());
    assert!(matches!(store.rename_key("missing", "other"), Err(StoreError::KeyMissing(k)) if k == "missing"));
}

#[test]
fn tri_state_clearing() {
    let mut loc = XcLocalization {
        string_unit: Some(unit(Some("translated"), Some("X"))),
        substitutions: None,
        variations: None,
    };
    let clear_value = TranslationUpdate {
        state: FieldUpdate::Unchanged,
        value: FieldUpdate::Clear,
        substitutions: None,
        variations: None,
    };
    apply_update(&mut loc, &clear_value);
    let left = loc.string_unit.as_ref().expect("the state keeps the unit");
    assert!(left.value.is_none());
    assert_eq!(left.state.as_deref(), Some("translated"));
    assert!(!localization_is_empty(&loc));

    let clear_state = TranslationUpdate {
        state: FieldUpdate::Clear,
        value: FieldUpdate::Unchanged,
        substitutions: None,
        variations: None,
    };
    apply_update(&mut loc, &clear_state);
    assert!(loc.string_unit.is_none());
    assert!(localization_is_empty(&loc));
    assert!(normalize_localization(&mut loc));

    // In a catalog the localization that is left empty is pruned, and its entry with it.
    let mut store = fresh_store();
    store.upsert_translation("k", "en", text("X")).unwrap();
    let clear_both = TranslationUpdate::from_value_state(None, None);
    let (reported, contents) = store.upsert_translation("k", "en", clear_both).unwrap();
    assert!(reported.value.is_none() && reported.state.is_none());
    assert!(store.get_translation("k", "en").unwrap().is_none());
    assert!(!contents.contains("\"k\""));
}

#[test]
fn values_become_updates() {
    let mut store = fresh_store();
    let update = text("Found %#@n@").add_variation("device", "mac", text("Mac"));
    store.upsert_translation("k", "en", update).unwrap();
    let reported = store.get_translation("k", "en").unwrap().unwrap();
    let copy = TranslationUpdate::from_value(&reported);
    assert!(matches!(copy.value, FieldUpdate::Replace(ref v) if v == "Found %#@n@"));
    assert!(matches!(copy.state, FieldUpdate::Replace(ref v) if v == "translated"));
    assert!(copy.substitutions.is_none());
    let (again, _) = store.upsert_translation("k", "de", copy).unwrap();
    assert_eq!(again.value.as_deref(), Some("Found %#@n@"));
    assert_eq!(
        again.variation_cases("device").unwrap().get("mac").unwrap().value.as_deref(),
        Some("Mac")
    );
    let empty = TranslationUpdate::from_value(&TranslationValue::from_localization(
        &XcLocalization::default(),
    ));
    assert!(matches!(empty.value, FieldUpdate::Clear));
    assert!(matches!(empty.state, FieldUpdate::Clear));
    assert!(empty.variations.is_none());
}

#[test]
fn errors_have_messages() {
    let cases = vec![
        (StoreError::ReadFailed("gone".into()), "failed to read xcstrings file: gone"),
        (StoreError::WriteFailed("full".into()), "failed to write xcstrings file: full"),
        (
            StoreError::ParseFailed("eof".into()),
            "failed to deserialize/serialize xcstrings json: eof",
        ),
        (
            StoreError::TranslationMissing { key: "k".into(), language: "fr".into() },
            "translation not found for key 'k' and language 'fr'",
        ),
        (StoreError::KeyMissing("k".into()), "string key 'k' not found"),
        (StoreError::KeyExists("k".into()), "string key 'k' already exists"),
        (
            StoreError::PathRequired,
            "xcstrings path is required when no default file has been configured",
        ),
        (StoreError::LanguageMissing("fr".into()), "language 'fr' not found"),
        (StoreError::LanguageExists("fr".into()), "language 'fr' already exists"),
        (StoreError::InvalidLanguage("why".into()), "invalid language: why"),
        (StoreError::CannotRemoveSourceLanguage("en".into()), "cannot remove source language 'en'"),
        (StoreError::CannotRenameSourceLanguage("en".into()), "cannot rename source language 'en'"),
    ];
    for (error, message) in cases {
        assert_eq!(error.message(), message);
    }
    let mut store = fresh_store();
    match store.delete_translation("k", "fr") {
        Err(StoreError::TranslationMissing { key, language }) => {
            assert_eq!(key, "k");
            assert_eq!(language, "fr");
        }
        _ => panic!("expected a missing translation"),
    }
    match store.add_language(" ") {
        Err(StoreError::InvalidLanguage(message)) => {
            assert_eq!(message, "Language code cannot be empty")
        }
        _ => panic!("expected an invalid language"),
    }
}

#[test]
fn registry_of_stores() {
    let mut manager: XcStringsStoreManager<u32> =
        XcStringsStoreManager::new(Some("/work/Localizable.xcstrings".to_string()), "/work".to_string());
    assert_eq!(manager.default_path().as_deref(), Some("/work/Localizable.xcstrings"));
    assert_eq!(manager.search_root(), "/work");
    assert!(manager.available_paths().is_empty());
    assert!(matches!(manager.resolve_path(None), Ok(PathRequest::Default(p)) if p == "/work/Localizable.xcstrings"));
    assert!(matches!(manager.resolve_path(Some("a/b.xcstrings")), Ok(PathRequest::Given(p)) if p == "a/b.xcstrings"));
    assert!(matches!(manager.default_store(), Ok(PathRequest::Default(_))));

    let found = vec![
        "/work/z.xcstrings".to_string(),
        "/work/a/b.xcstrings".to_string(),
        "/work/z.xcstrings".to_string(),
    ];
    let listed = manager.refresh_discovered_paths(found, Some("/work/Localizable.xcstrings".to_string()));
    assert_eq!(
        listed,
        vec!["/work/Localizable.xcstrings", "/work/a/b.xcstrings", "/work/z.xcstrings"]
    );
    assert_eq!(manager.available_paths(), listed);
    let listed = manager.refresh_discovered_paths(vec![], None);
    assert!(listed.is_empty());
    assert!(manager.available_paths().is_empty());

    assert_eq!(manager.insert_store("/work/a".to_string(), 1), 0);
    assert_eq!(manager.insert_store("/work/b".to_string(), 2), 1);
    assert_eq!(manager.insert_store("/work/a".to_string(), 3), 0);
    assert_eq!(manager.store_for("/work/a"), Some(&1));
    assert_eq!(manager.store_for("/work/b"), Some(&2));
    assert_eq!(manager.store_for("/work/c"), None);
    assert_eq!(manager.store_count(), 2);
    assert_eq!(*manager.store_at(1), 2);
}

#[test]
fn discovery_rules() {
    for name in ["target", "Target", ".git", ".GIT", "node_modules", "NODE_MODULES"] {
        assert!(is_skipped_directory(name), "{name}");
    }
    for name in ["targets", "git", "src", "", "node-modules", "tärget"] {
        assert!(!is_skipped_directory(name), "{name}");
    }
    assert!(is_catalog_extension("xcstrings"));
    assert!(is_catalog_extension("XCStrings"));
    assert!(!is_catalog_extension("json"));
    assert!(!is_catalog_extension("xcstring"));
    assert!(eq_ignore_ascii_case("AbC", "aBc"));
    assert!(!eq_ignore_ascii_case("É", "é"));
    assert!(!eq_ignore_ascii_case("[", "{"));
}

#[test]
fn ordered_map_keeps_insertion_order() {
    let mut map: OrderedMap<u32> = OrderedMap::new();
    assert!(map.is_empty());
    assert_eq!(map.insert("b".to_string(), 1), None);
    assert_eq!(map.insert("a".to_string(), 2), None);
    assert_eq!(map.insert("c".to_string(), 3), None);
    assert_eq!(map.insert("a".to_string(), 4), Some(2));
    assert_eq!(map.len(), 3);
    assert_eq!(map.index_of("a"), Some(1));
    assert_eq!(map.index_of("z"), None);
    assert_eq!(map.get("a"), Some(&4));
    assert_eq!(map.key_at(0).as_str(), "b");
    *map.value_at_mut(0) = 9;
    assert_eq!(*map.value_at(0), 9);
    assert_eq!(map.shift_remove("b"), Some(9));
    assert_eq!(map.shift_remove("b"), None);
    assert_eq!(map.key_at(0).as_str(), "a");
    assert_eq!(map.key_at(1).as_str(), "c");
    assert_eq!(map.shift_remove_index(0), ("a".to_string(), 4));
    assert!(map.contains_key("c"));
    let copy = map.clone();
    assert_eq!(copy.len(), 1);
    assert_eq!(copy.get("c"), Some(&3));
}

#[test]
fn paths_are_ordered_by_their_components() {
    let paths = [
        "/",
        "/a",
        "/a/b",
        "/a/b/c.xcstrings",
        "/a-b/c",
        "/a.b/c",
        "/a b/c",
        "/ab/c",
        "/b",
        "/work/Localizable.xcstrings",
        "/work/a/b.xcstrings",
        "/work/z.xcstrings",
        "/é/x",
        "relative/x",
    ];
    for a in paths {
        for b in paths {
            let expected = std::path::Path::new(a) < std::path::Path::new(b);
            assert_eq!(str_less_by(a, b, true), expected, "{a} before {b}");
        }
    }
    // As strings the two orders part: `-` comes before `/`.
    assert!(str_less("/a-b/c", "/a/b"));
    assert!(str_less_by("/a/b", "/a-b/c", true));

    let mut manager: XcStringsStoreManager<u32> = XcStringsStoreManager::new(None, "/".to_string());
    let listed = manager.refresh_discovered_paths(
        vec!["/a-b/c".to_string(), "/a/b".to_string(), "/a".to_string(), "/a/b".to_string()],
        Some("/a.b/c".to_string()),
    );
    let mut expected = vec![
        std::path::PathBuf::from("/a-b/c"),
        std::path::PathBuf::from("/a/b"),
        std::path::PathBuf::from("/a"),
        std::path::PathBuf::from("/a.b/c"),
    ];
    expected.sort();
    expected.dedup();
    let expected: Vec<String> = expected
        .into_iter()
        .map(|p| p.to_string_lossy().into_owned())
        .collect();
    assert_eq!(listed, expected);
    assert_eq!(listed, vec!["/a", "/a/b", "/a-b/c", "/a.b/c"]);
}

#[test]
fn substrings_are_found() {
    assert!(str_contains("hello world", "lo w"));
    assert!(str_contains("hello", ""));
    assert!(str_contains("", ""));
    assert!(str_contains("hello", "hello"));
    assert!(str_contains("hello", "o"));
    assert!(str_contains("aaab", "aab"));
    assert!(str_contains("grüße 🌍", "ße 🌍"));
    assert!(!str_contains("hello", "world"));
    assert!(!str_contains("hello", "hello!"));
    assert!(!str_contains("", "a"));
    assert!(!str_contains("abab", "bb"));
}

#[test]
fn copies_hold_what_was_copied() {
    let mut store = fresh_store();
    let update = text("Found %#@n@").add_variation("plural", "one", text("One"));
    let copy = update.clone();
    store.upsert_translation("k", "en", update).unwrap();
    let (second, _) = store.upsert_translation("k", "de", copy).unwrap();
    let first = store.get_translation("k", "en").unwrap().unwrap();
    let again = second.clone();
    assert_eq!(again.value, first.value);
    assert_eq!(
        again.variation_cases("plural").unwrap().get("one").unwrap().value.as_deref(),
        Some("One")
    );

    let doc = store.document().clone();
    assert_eq!(
        xcstrings_mcp::apple_json_formatter::to_apple_format(&doc.to_json_value()),
        store.serialize()
    );
    let entry = doc.strings.get("k").unwrap().clone();
    assert_eq!(entry.localizations.len(), 2);
    let loc = entry.localizations.get("en").unwrap().clone();
    assert_eq!(loc.string_unit.unwrap().value.as_deref(), Some("Found %#@n@"));
    let records = store.list_records(None);
    let record = records[0].clone();
    assert_eq!(record.key, "k");
    assert!(record.translations.contains_key("de"));
    let json = doc.to_json_value();
    assert_eq!(json.clone(), json);
}
