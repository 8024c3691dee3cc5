use xcstrings_mcp::error::StoreError;
use xcstrings_mcp::ordered_map::OrderedMap;
use xcstrings_mcp::progress::UntranslatedKeys;
use xcstrings_mcp::store::XcStringsStore;
use xcstrings_mcp::update::{FieldUpdate, SubstitutionUpdate, TranslationUpdate};

fn fresh_store(name: &str) -> XcStringsStore {
    XcStringsStore::load_or_create(format!("/tmp/{name}/Localizable.xcstrings"), None)
        .expect("load store")
}

fn text(value: &str) -> TranslationUpdate {
    TranslationUpdate::from_value_state(Some(value.to_string()), None)
}

/// A second store that reads what the first one wrote.
fn reloaded(contents: &str) -> XcStringsStore {
    let mut other = fresh_store("reader");
    other.reload(contents).expect("what was written can be read");
    assert_eq!(other.serialize(), contents);
    other
}

fn keys_for<'a>(report: &'a [UntranslatedKeys], language: &str) -> Option<&'a Vec<String>> {
    report
        .iter()
        .find(|entry| entry.language == language)
        .map(|entry| &entry.keys)
}

fn count_substitution() -> OrderedMap<Option<SubstitutionUpdate>> {
    let mut substitutions = OrderedMap::new();
    let mut count = SubstitutionUpdate::default();
    count.value = FieldUpdate::Replace("%lld".into());
    count.arg_num = FieldUpdate::Replace(1);
    count.format_specifier = FieldUpdate::Replace("lld".into());
    substitutions.insert("count".to_string(), Some(count));
    substitutions
}

fn value_only(value: &str) -> TranslationUpdate {
    TranslationUpdate {
        value: FieldUpdate::Replace(value.to_string()),
        state: FieldUpdate::Unchanged,
        variations: None,
        substitutions: None,
    }
}

#[test]
fn delete_translation_tool_removes_existing_translation() {
    let mut store = fresh_store("delete_translation_tool");
    store.upsert_translation("greeting", "en", text("Hello")).unwrap();
    store.upsert_translation("greeting", "fr", text("Bonjour")).unwrap();

    let contents = store.delete_translation("greeting", "fr").unwrap();

    let store = reloaded(&contents);
    assert!(store.get_translation("greeting", "fr").unwrap().is_none());
    let en = store.get_translation("greeting", "en").unwrap();
    assert!(en.is_some());
    assert_eq!(en.unwrap().value.as_deref(), Some("Hello"));
}

#[test]
fn delete_translation_tool_fails_for_nonexistent_key() {
    let mut store = fresh_store("delete_translation_tool_missing_key");
    let err = store.delete_translation("nonexistent", "en").unwrap_err();
    assert!(matches!(err, StoreError::TranslationMissing { .. }));
    assert_eq!(
        err.message(),
        "translation not found for key 'nonexistent' and language 'en'"
    );
}

#[test]
fn delete_translation_tool_fails_for_nonexistent_language() {
    let mut store = fresh_store("delete_translation_tool_missing_lang");
    store.upsert_translation("greeting", "en", text("Hello")).unwrap();
    let err = store.delete_translation("greeting", "fr").unwrap_err();
    assert!(matches!(err, StoreError::TranslationMissing { .. }));
    assert!(store.get_translation("greeting", "en").unwrap().is_some());
}

#[test]
fn delete_translation_tool_handles_format_specifiers() {
    let mut store = fresh_store("delete_translation_tool_format");
    let key_with_format = "paywall_badge_savings %lld";
    let (_, written) = store
        .upsert_translation(key_with_format, "en", text("Save %lld%"))
        .unwrap();
    assert!(reloaded(&written).get_translation(key_with_format, "en").unwrap().is_some());

    let contents = store.delete_translation(key_with_format, "en").unwrap();

    let store = reloaded(&contents);
    assert!(store.get_translation(key_with_format, "en").unwrap().is_none());
}

#[test]
fn delete_translation_tool_handles_special_characters() {
    let mut store = fresh_store("delete_translation_tool_special");
    let special_keys = vec![
        "key with spaces",
        "key.with.dots",
        "key-with-dashes",
        "key_with_underscores",
        "key/with/slashes",
        "key@with@symbols",
        "key#with#hash",
        "key$with$dollar",
        "key%with%percent",
        "key^with^caret",
        "key&with&ampersand",
        "key*with*asterisk",
        "key(with)parentheses",
        "key[with]brackets",
        "key{with}braces",
        "key|with|pipes",
        "key\\with\\backslashes",
        "key\"with\"quotes",
        "key'with'apostrophes",
        "key`with`backticks",
        "key~with~tildes",
        "key!with!exclamation",
        "key?with?question",
        "key<with>angles",
        "key=with=equals",
        "key+with+plus",
        "key,with,commas",
        "key;with;semicolons",
        "key:with:colons",
    ];

    for key in &special_keys {
        let (_, written) = store
            .upsert_translation(key, "en", text(&format!("Value for {}", key)))
            .unwrap();
        let read = reloaded(&written);
        assert_eq!(
            read.get_translation(key, "en").unwrap().unwrap().value,
            Some(format!("Value for {}", key))
        );

        let contents = store.delete_translation(key, "en").unwrap();

        let read = reloaded(&contents);
        assert!(
            read.get_translation(key, "en").unwrap().is_none(),
            "Translation should be deleted for key: {}",
            key
        );
    }
}

#[test]
fn delete_translation_tool_removes_key_when_last_translation() {
    let mut store = fresh_store("delete_translation_tool_last");
    store
        .upsert_translation("single_lang_key", "en", text("Only English"))
        .unwrap();

    let records_before = store.list_records(None);
    assert_eq!(records_before.len(), 1);
    assert_eq!(records_before[0].key, "single_lang_key");

    let contents = store.delete_translation("single_lang_key", "en").unwrap();

    let records_after = reloaded(&contents).list_records(None);
    assert_eq!(records_after.len(), 0);
}

#[test]
fn delete_translation_tool_handles_unicode_characters() {
    let mut store = fresh_store("delete_translation_tool_unicode");
    for (unicode_key, unicode_value) in [
        ("greeting_emoji___", "Hello World!    "),
        ("gruß_😀_日本語", "Grüße 🌍 \u{1f}\u{7f} ✓"),
    ] {
        let (_, written) = store
            .upsert_translation(unicode_key, "en", text(unicode_value))
            .unwrap();
        let read = reloaded(&written);
        assert_eq!(
            read.get_translation(unicode_key, "en").unwrap().unwrap().value.as_deref(),
            Some(unicode_value)
        );

        let contents = store.delete_translation(unicode_key, "en").unwrap();

        assert!(reloaded(&contents).get_translation(unicode_key, "en").unwrap().is_none());
    }
}

#[test]
fn delete_translation_tool_handles_empty_and_whitespace_keys() {
    let mut store = fresh_store("delete_translation_tool_empty");
    let whitespace_keys = vec![" ", "  ", "\t", "\n", "\r", " \t\n\r "];

    for key in &whitespace_keys {
        let (_, written) = store
            .upsert_translation(key, "en", text("Whitespace key"))
            .unwrap();
        assert!(reloaded(&written).get_translation(key, "en").unwrap().is_some());

        let contents = store.delete_translation(key, "en").unwrap();

        assert!(
            reloaded(&contents).get_translation(key, "en").unwrap().is_none(),
            "Translation should be deleted for whitespace key: {:?}",
            key
        );
    }
}

#[test]
fn delete_translation_tool_handles_variations() {
    let mut store = fresh_store("delete_translation_tool_variations");
    let mut plural_cases = OrderedMap::new();
    plural_cases.insert("one".to_string(), value_only("One item"));
    plural_cases.insert("other".to_string(), value_only("Many items"));
    let mut variations = OrderedMap::new();
    variations.insert("plural".to_string(), plural_cases);
    let update = TranslationUpdate::default().with_variations(variations);

    let (_, written) = store.upsert_translation("item_count", "en", update).unwrap();

    let translation = reloaded(&written).get_translation("item_count", "en").unwrap();
    assert!(translation.is_some());
    let translation = translation.unwrap();
    assert!(translation.variation_cases("plural").is_some());
    assert_eq!(
        translation.variation_cases("plural").unwrap().get("one").unwrap().state.as_deref(),
        Some("translated")
    );

    let contents = store.delete_translation("item_count", "en").unwrap();

    assert!(reloaded(&contents).get_translation("item_count", "en").unwrap().is_none());
}

#[test]
fn delete_translation_tool_handles_substitutions() {
    let mut store = fresh_store("delete_translation_tool_substitutions");
    let mut update = value_only("Downloaded %lld files");
    update.substitutions = Some(count_substitution());

    let (_, written) = store
        .upsert_translation("download_progress", "en", update)
        .unwrap();

    let translation = reloaded(&written).get_translation("download_progress", "en").unwrap();
    assert!(translation.is_some());
    let translation = translation.unwrap();
    let count = translation.substitution("count").expect("count");
    assert_eq!(count.arg_num, Some(1));
    assert_eq!(count.format_specifier.as_deref(), Some("lld"));
    assert_eq!(count.value.as_deref(), Some("%lld"));

    let contents = store.delete_translation("download_progress", "en").unwrap();

    assert!(reloaded(&contents).get_translation("download_progress", "en").unwrap().is_none());
}

#[test]
fn delete_translation_tool_handles_complex_variations_and_substitutions() {
    let mut store = fresh_store("delete_translation_tool_complex");
    let mut one = value_only("Downloaded %lld file");
    one.substitutions = Some(count_substitution());
    let mut other = value_only("Downloaded %lld files");
    other.substitutions = Some(count_substitution());
    let mut plural_cases = OrderedMap::new();
    plural_cases.insert("one".to_string(), one);
    plural_cases.insert("other".to_string(), other);
    let mut variations = OrderedMap::new();
    variations.insert("plural".to_string(), plural_cases);
    let mut update = TranslationUpdate::default().with_variations(variations);
    update.substitutions = Some(count_substitution());

    let (_, written) = store
        .upsert_translation("complex_download_status", "en", update)
        .unwrap();

    let translation = reloaded(&written)
        .get_translation("complex_download_status", "en")
        .unwrap();
    assert!(translation.is_some());
    let translation = translation.unwrap();
    assert!(translation.variation_cases("plural").is_some());
    assert!(translation.substitution("count").is_some());
    let one = translation.variation_cases("plural").unwrap().get("one").unwrap();
    assert!(one.substitution("count").is_some());

    let contents = store
        .delete_translation("complex_download_status", "en")
        .unwrap();

    assert!(reloaded(&contents)
        .get_translation("complex_download_status", "en")
        .unwrap()
        .is_none());
}

#[test]
fn set_extraction_state_tool_creates_key_if_not_exists() {
    let mut store = fresh_store("set_extraction_state_tool_new");
    let contents = store
        .set_extraction_state("new_key", Some("manual".to_string()))
        .unwrap();

    let records = reloaded(&contents).list_records(None);
    assert_eq!(records.len(), 1);
    assert_eq!(records[0].key, "new_key");
    assert_eq!(records[0].extraction_state.as_deref(), Some("manual"));
}

#[test]
fn set_extraction_state_tool_handles_special_characters() {
    let mut store = fresh_store("set_extraction_state_tool_special");
    let key_with_format = "paywall_badge_savings %lld";
    store
        .upsert_translation(key_with_format, "en", text("Save %lld%"))
        .unwrap();

    let contents = store
        .set_extraction_state(key_with_format, Some("manual".to_string()))
        .unwrap();

    let records = reloaded(&contents).list_records(None);
    assert_eq!(records.len(), 1);
    assert_eq!(records[0].key, key_with_format);
    assert_eq!(records[0].extraction_state.as_deref(), Some("manual"));
}

#[test]
fn set_extraction_state_tool_clears_state() {
    let mut store = fresh_store("set_extraction_state_tool_clear");
    store.upsert_translation("test_key", "en", text("Test value")).unwrap();

    let contents = store
        .set_extraction_state("test_key", Some("manual".to_string()))
        .unwrap();
    let records = reloaded(&contents).list_records(None);
    assert_eq!(records[0].extraction_state.as_deref(), Some("manual"));

    let contents = store.set_extraction_state("test_key", None).unwrap();
    let records = reloaded(&contents).list_records(None);
    assert!(records[0].extraction_state.is_none());

    // Clearing the last thing that an entry holds removes the entry.
    let mut store = fresh_store("set_extraction_state_tool_clear_only");
    store.set_extraction_state("only_state", Some("manual".to_string())).unwrap();
    let contents = store.set_extraction_state("only_state", None).unwrap();
    assert!(reloaded(&contents).list_records(None).is_empty());
}

#[test]
fn list_untranslated_tool_returns_untranslated_keys() {
    let mut store = fresh_store("list_untranslated_tool");
    for (key, language, value) in [
        ("key1", "en", "Hello"),
        ("key1", "fr", "Bonjour"),
        ("key2", "en", "World"),
        ("key3", "en", "Foo"),
        ("key3", "fr", "Foo"),
    ] {
        store.upsert_translation(key, language, text(value)).unwrap();
    }

    let report = store.list_untranslated();

    let fr_untranslated = keys_for(&report, "fr").expect("fr");
    assert_eq!(fr_untranslated.len(), 1);
    assert!(fr_untranslated.iter().any(|v| v == "key2"));

    if let Some(keys) = keys_for(&report, "en") {
        assert!(keys.is_empty());
    }
    assert_eq!(report.len(), 1);
}

#[test]
fn list_untranslated_tool_handles_empty_store() {
    let store = fresh_store("list_untranslated_tool_empty");
    let report = store.list_untranslated();
    if let Some(en_untranslated) = keys_for(&report, "en") {
        assert!(en_untranslated.is_empty());
    }
    assert!(report.is_empty());
}

#[test]
fn list_untranslated_tool_handles_fully_translated() {
    let mut store = fresh_store("list_untranslated_tool_full");
    for (key, language, value) in [
        ("key1", "en", "Hello"),
        ("key1", "fr", "Bonjour"),
        ("key2", "en", "World"),
        ("key2", "fr", "Monde"),
    ] {
        store.upsert_translation(key, language, text(value)).unwrap();
    }

    let report = store.list_untranslated();

    if let Some(en_untranslated) = keys_for(&report, "en") {
        assert!(en_untranslated.is_empty());
    }
    if let Some(fr_untranslated) = keys_for(&report, "fr") {
        assert!(fr_untranslated.is_empty());
    }
}

#[test]
fn untranslated_keys_come_in_catalog_order() {
    let mut store = fresh_store("untranslated_order");
    for (key, language, value) in [
        ("b", "en", "B"),
        ("a", "en", "A"),
        ("c", "de", "C"),
        ("a", "de", "A"),
    ] {
        store.upsert_translation(key, language, text(value)).unwrap();
    }
    store.add_language("fr").unwrap();
    let report = store.list_untranslated();
    let summary: Vec<(String, Vec<String>)> = report
        .into_iter()
        .map(|entry| (entry.language, entry.keys))
        .collect();
    assert_eq!(
        summary,
        vec![
            ("de".to_string(), vec!["b".to_string()]),
            ("en".to_string(), vec!["c".to_string()]),
            (
                "fr".to_string(),
                vec!["b".to_string(), "a".to_string(), "c".to_string()]
            ),
        ]
    );
}

#[test]
fn list_translations_tool_returns_records() {
    let mut store = fresh_store("list_translations_tool");
    store.upsert_translation("greeting", "en", text("Hello")).unwrap();

    let summaries = store.list_summaries(None);

    assert_eq!(summaries.len(), 1);
    let item = &summaries[0];
    assert_eq!(item.key, "greeting");
    assert_eq!(item.languages.len(), 1);
    assert_eq!(item.languages[0], "en");
    assert!(!item.has_variations);
}

#[test]
fn list_keys_tool_returns_matching_keys() {
    let mut store = fresh_store("list_keys_tool");
    store.upsert_translation("greeting", "en", text("Hello")).unwrap();
    store.upsert_translation("farewell", "en", text("Bye")).unwrap();

    let keys: Vec<String> = store.list_summaries(None).into_iter().map(|s| s.key).collect();
    assert_eq!(keys.len(), 2);
    assert!(keys.contains(&"greeting".to_string()));
    assert!(keys.contains(&"farewell".to_string()));

    let keys: Vec<String> = store
        .list_summaries(Some("well"))
        .into_iter()
        .map(|s| s.key)
        .collect();
    assert_eq!(keys.len(), 1);
    assert_eq!(keys[0], "farewell");
}

#[test]
fn list_languages_tool_reports_unique_entries() {
    let mut store = fresh_store("list_languages_tool");
    store.upsert_translation("greeting", "en", text("Hello")).unwrap();
    let (_, contents) = store.upsert_translation("greeting", "fr", text("Bonjour")).unwrap();

    let languages = reloaded(&contents).list_languages();
    assert!(languages.iter().any(|v| v == "en"));
    assert!(languages.iter().any(|v| v == "fr"));
    assert_eq!(languages.len(), 2);
}

#[test]
fn upsert_translation_tool_supports_plural_variations() {
    let mut store = fresh_store("upsert_plural_tool");
    let mut plural_cases = OrderedMap::new();
    plural_cases.insert("one".to_string(), value_only("One"));
    plural_cases.insert("other".to_string(), value_only("Many"));
    let mut variations = OrderedMap::new();
    variations.insert("plural".to_string(), plural_cases);
    let update = TranslationUpdate::default().with_variations(variations);

    store.upsert_translation("items", "en", update).unwrap();

    let translation = store.get_translation("items", "en").unwrap().unwrap();
    let plural = translation.variation_cases("plural").expect("plural");
    assert_eq!(plural.get("one").and_then(|entry| entry.value.as_deref()), Some("One"));
    assert_eq!(plural.get("other").and_then(|entry| entry.value.as_deref()), Some("Many"));
}

#[test]
fn set_extraction_state_tool_updates_entry() {
    let mut store = fresh_store("set_extraction_state_tool");
    store.upsert_translation("message", "en", text("Hello")).unwrap();

    store.set_extraction_state("message", Some("manual".into())).unwrap();
    let records = store.list_records(None);
    assert_eq!(records.len(), 1);
    assert_eq!(records[0].extraction_state.as_deref(), Some("manual"));

    store.set_extraction_state("message", None).unwrap();
    let records = store.list_records(None);
    assert!(records[0].extraction_state.is_none());
}

#[test]
fn add_language_tool_creates_placeholder_localizations() {
    let mut store = fresh_store("add_language_tool");
    store.upsert_translation("greeting", "en", text("Hello")).unwrap();

    let contents = store.add_language("fr").unwrap();
    assert!(contents.contains("\"state\" : \"needs-translation\",\n            \"value\" : null"));

    let read = reloaded(&contents);
    assert!(read.list_languages().contains(&"fr".to_string()));
    let placeholder = read.get_translation("greeting", "fr").unwrap().unwrap();
    assert_eq!(placeholder.state.as_deref(), Some("needs-translation"));
    assert!(placeholder.value.is_none());

    store.upsert_translation("greeting", "fr", text("Bonjour")).unwrap();

    assert!(store.list_languages().contains(&"fr".to_string()));
    let greeting_fr = store.get_translation("greeting", "fr").unwrap().unwrap();
    assert_eq!(greeting_fr.value.as_deref(), Some("Bonjour"));
    assert_eq!(greeting_fr.state.as_deref(), Some("translated"));
}

#[test]
fn add_language_tool_fails_if_exists() {
    let mut store = fresh_store("add_language_tool_exists");
    let result = store.add_language("en");
    assert!(result.is_err());
    assert_eq!(result.unwrap_err().message(), "language 'en' already exists");
}

#[test]
fn remove_language_tool_deletes_localizations() {
    let mut store = fresh_store("remove_language_tool");
    store.upsert_translation("greeting", "en", text("Hello")).unwrap();
    store.upsert_translation("greeting", "fr", text("Bonjour")).unwrap();

    let contents = store.remove_language("fr").unwrap();

    let read = reloaded(&contents);
    assert!(!read.list_languages().contains(&"fr".to_string()));
    assert!(read.get_translation("greeting", "fr").unwrap().is_none());
}

#[test]
fn remove_language_tool_fails_if_source_language() {
    let mut store = fresh_store("remove_language_tool_source");
    let result = store.remove_language("en");
    assert!(result.is_err());
    assert_eq!(result.unwrap_err().message(), "cannot remove source language 'en'");
}

#[test]
fn update_language_tool_renames_successfully() {
    let mut store = fresh_store("update_language_tool");
    store.upsert_translation("greeting", "en", text("Hello")).unwrap();
    store.upsert_translation("greeting", "fr", text("Bonjour")).unwrap();

    let contents = store.update_language("fr", "fr-FR").unwrap();

    let read = reloaded(&contents);
    let languages = read.list_languages();
    assert!(!languages.contains(&"fr".to_string()));
    assert!(languages.contains(&"fr-FR".to_string()));
    assert!(read.get_translation("greeting", "fr").unwrap().is_none());
    let renamed = read.get_translation("greeting", "fr-FR").unwrap().unwrap();
    assert_eq!(renamed.value.as_deref(), Some("Bonjour"));
}

#[test]
fn update_language_tool_fails_if_source_language() {
    let mut store = fresh_store("update_language_tool_source");
    let result = store.update_language("en", "en-US");
    assert!(result.is_err());
    assert_eq!(result.unwrap_err().message(), "cannot rename source language 'en'");
}

#[test]
fn test_web_api_delete_plural_variation() {
    let initial_content = r#"{
            "sourceLanguage": "en",
            "version": "1.0",
            "strings": {
                "items.count": {
                    "localizations": {
                        "en": {
                            "variations": {
                                "plural": {
                                    "one": {
                                        "stringUnit": {
                                            "state": "translated",
                                            "value": "1 item"
                                        }
                                    },
                                    "other": {
                                        "stringUnit": {
                                            "state": "translated",
                                            "value": "%d items"
                                        }
                                    },
                                    "zero": {
                                        "stringUnit": {
                                            "state": "translated",
                                            "value": "No items"
                                        }
                                    }
                                }
                            }
                        }
                    }
                }
            }
        }"#;
    let mut store =
        XcStringsStore::load_or_create("/tmp/web/test.xcstrings".to_string(), Some(initial_content))
            .unwrap();

    let mut plural_cases = OrderedMap::new();
    plural_cases.insert(
        "one".to_string(),
        TranslationUpdate {
            state: FieldUpdate::Clear,
            value: FieldUpdate::Clear,
            substitutions: None,
            variations: None,
        },
    );
    let mut variations = OrderedMap::new();
    variations.insert("plural".to_string(), plural_cases);
    let delete_update = TranslationUpdate {
        state: FieldUpdate::Unchanged,
        value: FieldUpdate::Unchanged,
        variations: Some(variations),
        substitutions: None,
    };

    store
        .upsert_translation("items.count", "en", delete_update)
        .unwrap();

    let translation = store.get_translation("items.count", "en").unwrap().unwrap();

    let plural_vars = translation.variation_cases("plural").unwrap();
    assert_eq!(plural_vars.len(), 2, "Should have 2 plural cases left (other and zero)");
    assert!(!plural_vars.contains_key("one"), "The 'one' case should be deleted");
    assert!(plural_vars.contains_key("other"), "The 'other' case should remain");
    assert!(plural_vars.contains_key("zero"), "The 'zero' case should remain");
}
