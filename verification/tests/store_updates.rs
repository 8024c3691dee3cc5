use xcstrings_mcp::error::StoreError;
use xcstrings_mcp::manager::XcStringsStoreManager;
use xcstrings_mcp::model::{XcLocalization, XcStringUnit};
use xcstrings_mcp::ordered_map::OrderedMap;
use xcstrings_mcp::store::XcStringsStore;
use xcstrings_mcp::update::{FieldUpdate, SubstitutionUpdate, TranslationUpdate};
use xcstrings_mcp::value::TranslationValue;

fn fresh_store(name: &str) -> XcStringsStore {
    XcStringsStore::load_or_create(format!("/tmp/{name}/Localizable.xcstrings"), None)
        .expect("load store")
}

fn store_from(name: &str, contents: &str) -> XcStringsStore {
    XcStringsStore::load_or_create(format!("/tmp/{name}/Localizable.xcstrings"), Some(contents))
        .expect("load store")
}

fn text(value: &str, state: Option<&str>) -> TranslationUpdate {
    TranslationUpdate::from_value_state(Some(value.to_string()), state.map(|s| s.to_string()))
}

fn localization(value: &str) -> XcLocalization {
    XcLocalization {
        string_unit: Some(XcStringUnit {
            state: Some("translated".to_string()),
            value: Some(value.to_string()),
        }),
        substitutions: None,
        variations: None,
    }
}

fn update_of(loc: &XcLocalization) -> TranslationUpdate {
    TranslationUpdate::from_value(&TranslationValue::from_localization(loc))
}

fn cases_of(entries: Vec<(&str, XcLocalization)>) -> OrderedMap<XcLocalization> {
    let mut cases = OrderedMap::new();
    for (name, loc) in entries {
        cases.insert(name.to_string(), loc);
    }
    cases
}

fn updates_of(entries: Vec<(&str, &OrderedMap<XcLocalization>)>) -> OrderedMap<OrderedMap<TranslationUpdate>> {
    let mut variations = OrderedMap::new();
    for (selector, cases) in entries {
        let mut updates = OrderedMap::new();
        for i in 0..cases.len() {
            updates.insert(cases.key_at(i).clone(), update_of(cases.value_at(i)));
        }
        variations.insert(selector.to_string(), updates);
    }
    variations
}

#[test]
fn upsert_and_fetch_translation() {
    let mut store = fresh_store("upsert_fetch");

    store
        .upsert_translation("greeting", "en", text("Hello", None))
        .expect("upsert");
    store
        .upsert_translation("greeting", "fr", text("Bonjour", None))
        .expect("upsert");

    let value = store
        .get_translation("greeting", "en")
        .expect("get")
        .expect("value");
    assert_eq!(value.value.as_deref(), Some("Hello"));

    let languages = store.list_languages();
    assert!(languages.contains(&"en".to_string()));
    assert!(languages.contains(&"fr".to_string()));
    assert_eq!(languages, vec!["en".to_string(), "fr".to_string()]);

    let records = store.list_records(None);
    assert_eq!(records.len(), 1);
    assert_eq!(records[0].key, "greeting");
    assert!(records[0].translations.contains_key("fr"));
    assert_eq!(
        records[0].translations.get("en").and_then(|t| t.value.as_deref()),
        Some("Hello")
    );
    assert_eq!(
        records[0].translations.get("fr").and_then(|t| t.value.as_deref()),
        Some("Bonjour")
    );
}

#[test]
fn delete_translation_removes_empty_keys() {
    let mut store = fresh_store("delete_translation");

    store
        .upsert_translation("farewell", "en", text("Bye", None))
        .expect("upsert");

    store
        .delete_translation("farewell", "en")
        .expect("delete translation");

    assert!(matches!(
        store.get_translation("farewell", "en").expect("get"),
        None
    ));

    let err = store.delete_key("farewell").unwrap_err();
    assert!(matches!(err, StoreError::KeyMissing(_)));
}

#[test]
fn rename_key_moves_entry() {
    let mut store = fresh_store("rename_key");

    store
        .upsert_translation("old.key", "en", text("Original", None))
        .expect("seed translation");

    store.rename_key("old.key", "new.key").expect("rename");

    let missing = store
        .get_translation("old.key", "en")
        .expect("fetch old")
        .is_none();
    assert!(missing);

    let renamed = store
        .get_translation("new.key", "en")
        .expect("fetch new")
        .expect("translation exists");
    assert_eq!(renamed.value.as_deref(), Some("Original"));

    store
        .upsert_translation("other.key", "en", text("Conflict", None))
        .expect("seed other");

    let err = store.rename_key("new.key", "other.key").unwrap_err();
    assert!(matches!(err, StoreError::KeyExists(conflict) if conflict == "other.key"));
}

#[test]
fn comment_round_trip() {
    let mut store = fresh_store("comment_round_trip");

    store
        .upsert_translation("title", "en", text("Welcome", None))
        .expect("seed translation");

    store
        .set_comment("title", Some("Shown on welcome screen".into()))
        .expect("set comment");

    let records = store.list_records(None);
    assert_eq!(
        records[0].comment.as_deref(),
        Some("Shown on welcome screen")
    );

    store.set_comment("title", None).expect("clear comment");
    let records = store.list_records(None);
    assert!(records[0].comment.is_none());
}

#[test]
fn set_extraction_state_round_trip() {
    let mut store = fresh_store("extraction_state_round_trip");

    store
        .upsert_translation("welcome", "en", text("Hi", None))
        .expect("seed translation for extraction state");

    store
        .set_extraction_state("welcome", Some("manual".into()))
        .expect("set extraction state");

    let records = store.list_records(None);
    assert_eq!(records.len(), 1);
    assert_eq!(records[0].extraction_state.as_deref(), Some("manual"));

    store
        .set_extraction_state("welcome", None)
        .expect("clear extraction state");
    let records = store.list_records(None);
    assert!(records[0].extraction_state.is_none());
}

#[test]
fn set_should_translate_round_trip() {
    let mut store = fresh_store("should_translate_round_trip");

    store
        .upsert_translation("login.button", "en", text("Login", None))
        .expect("seed translation for should_translate");

    store
        .set_should_translate("login.button", Some(true))
        .expect("set should_translate to true");

    let records = store.list_records(None);
    assert_eq!(records.len(), 1);
    assert_eq!(records[0].should_translate, Some(true));

    store
        .set_should_translate("login.button", Some(false))
        .expect("set should_translate to false");
    let records = store.list_records(None);
    assert_eq!(records[0].should_translate, Some(false));

    store
        .set_should_translate("login.button", None)
        .expect("clear should_translate");
    let records = store.list_records(None);
    assert!(records[0].should_translate.is_none());
}

#[test]
fn substitution_updates_round_trip() {
    let mut store = fresh_store("substitution_round_trip");

    let mut update = TranslationUpdate::default();
    update.value = FieldUpdate::Replace("Found %#@arg1@".into());
    let mut substitutions = OrderedMap::new();
    let mut substitution = SubstitutionUpdate::default();
    substitution.value = FieldUpdate::Replace("%arg item".into());
    substitution.arg_num = FieldUpdate::Replace(1);
    substitution.format_specifier = FieldUpdate::Replace("ld".into());
    substitutions.insert("arg1".to_string(), Some(substitution));
    update.substitutions = Some(substitutions);

    store
        .upsert_translation("message", "en", update)
        .expect("upsert substitution");

    let en_translation = store
        .get_translation("message", "en")
        .expect("fetch translation")
        .expect("translation exists");

    let arg1 = en_translation
        .substitution("arg1")
        .expect("substitution present");
    assert_eq!(arg1.value.as_deref(), Some("%arg item"));
    assert_eq!(arg1.arg_num, Some(1));
    assert_eq!(arg1.format_specifier.as_deref(), Some("ld"));

    let mut removal = TranslationUpdate::default();
    let mut removal_map = OrderedMap::new();
    removal_map.insert("arg1".to_string(), None);
    removal.substitutions = Some(removal_map);

    store
        .upsert_translation("message", "en", removal)
        .expect("remove substitution");

    let en_translation = store
        .get_translation("message", "en")
        .expect("fetch translation")
        .expect("translation exists");
    assert!(!en_translation.has_substitutions());
}

#[test]
fn list_summaries_returns_languages_and_variation_flag() {
    let mut store = fresh_store("list_summaries");

    store
        .upsert_translation("greeting", "en", text("Hello", None))
        .expect("save en");
    let plural_update = TranslationUpdate::from_value_state(None, None).add_variation(
        "plural",
        "other",
        text("Hallo alle", None),
    );
    store
        .upsert_translation("greeting", "de", plural_update)
        .expect("save de");

    let summaries = store.list_summaries(None);
    assert_eq!(summaries.len(), 1);
    let summary = &summaries[0];
    assert_eq!(summary.key, "greeting");
    assert_eq!(summary.languages, vec!["en".to_string(), "de".to_string()]);
    assert!(summary.has_variations);
}

#[test]
fn plural_variations_round_trip() {
    let mut store = fresh_store("plural_round_trip");

    let update = TranslationUpdate::from_value_state(None, None)
        .add_variation("plural", "one", text("One file", Some("translated")))
        .add_variation("plural", "other", text("{count} files", Some("translated")));

    store
        .upsert_translation("file_count", "en", update)
        .expect("save plural");

    let value = store
        .get_translation("file_count", "en")
        .expect("fetch translation")
        .expect("translation exists");

    assert!(value.value.is_none());
    let plural = value
        .variation_cases("plural")
        .expect("plural selector present");
    assert_eq!(
        plural.get("one").and_then(|entry| entry.value.as_deref()),
        Some("One file")
    );
    assert_eq!(
        plural.get("other").and_then(|entry| entry.value.as_deref()),
        Some("{count} files")
    );

    let records = store.list_records(Some("files"));
    assert_eq!(records.len(), 1);
    assert!(records[0]
        .translations
        .get("en")
        .and_then(|entry| entry.variation_cases("plural"))
        .is_some());

    // The filter matches without regard to case, and rejects what it does not find.
    assert_eq!(store.list_records(Some("FILES")).len(), 1);
    assert_eq!(store.list_records(Some("FILE_COUNT")).len(), 1);
    assert_eq!(store.list_records(Some("nothing here")).len(), 0);
}

#[test]
fn plural_variation_merge_preserves_existing() {
    let mut store = fresh_store("plural_merge");

    let initial = TranslationUpdate::from_value_state(None, None)
        .add_variation("plural", "one", text("One", None))
        .add_variation("plural", "other", text("Many", None));
    store.upsert_translation("items", "en", initial).expect("save");

    let patch = TranslationUpdate::from_value_state(None, None).add_variation(
        "plural",
        "one",
        text("Exactly one", None),
    );
    store.upsert_translation("items", "en", patch).expect("patch");

    let value = store
        .get_translation("items", "en")
        .expect("fetch")
        .expect("exists");
    let plural = value
        .variation_cases("plural")
        .expect("plural variations available");
    assert_eq!(
        plural.get("one").and_then(|entry| entry.value.as_deref()),
        Some("Exactly one")
    );
    assert_eq!(
        plural.get("other").and_then(|entry| entry.value.as_deref()),
        Some("Many")
    );
}

#[test]
fn manager_requires_path_without_default() {
    let manager: XcStringsStoreManager<XcStringsStore> =
        XcStringsStoreManager::new(None, "/tmp".to_string());
    let err = manager.resolve_path(None).err().expect("missing path");
    assert!(matches!(err, StoreError::PathRequired));
    let err = manager.default_store().err().expect("missing path");
    assert!(matches!(err, StoreError::PathRequired));
}

#[test]
fn manager_reuses_loaded_store_for_same_path() {
    let mut manager: XcStringsStoreManager<XcStringsStore> =
        XcStringsStoreManager::new(None, "/tmp".to_string());
    let path = "/tmp/manager_reuse/Localizable.xcstrings".to_string();

    assert!(manager.store_for(path.as_str()).is_none());
    let mut first = fresh_store("manager_reuse");
    first
        .upsert_translation("marker", "en", text("first", None))
        .expect("upsert");
    let store_a = manager.insert_store(path.clone(), first);
    let store_b = manager.insert_store(path.clone(), fresh_store("manager_reuse"));

    assert_eq!(store_a, store_b);
    assert_eq!(manager.store_count(), 1);
    let kept = manager.store_for(path.as_str()).expect("cached store");
    assert!(kept.get_translation("marker", "en").expect("get").is_some());
}

#[test]
fn test_add_substitution_with_empty_value_and_state() {
    let initial_content = r#"{"sourceLanguage":"en","version":"1.0","strings":{"test.key":{"localizations":{"en":{"stringUnit":{"state":"translated","value":"Hello %@, you have %d messages"}}}}}}"#;
    let mut store = store_from("test_substitution_with_state", initial_content);

    let mut update = TranslationUpdate::default();
    let mut substitutions = OrderedMap::new();

    let mut sub_update = SubstitutionUpdate::default();
    sub_update.value = FieldUpdate::Replace("".to_string());
    sub_update.state = FieldUpdate::Replace("new".to_string());

    substitutions.insert("userName".to_string(), Some(sub_update));
    update.substitutions = Some(substitutions);

    let (result, content) = store
        .upsert_translation("test.key", "en", update)
        .unwrap();

    assert!(result.has_substitutions());
    let user_name_sub = result.substitution("userName").expect("userName");
    assert_eq!(user_name_sub.value, None);
    assert_eq!(user_name_sub.state, Some("new".to_string()));

    assert!(content.contains("\"userName\""));
    assert!(content.contains("\"substitutions\""));
}

#[test]
fn test_add_plural_variation_with_empty_value_and_state() {
    let initial_content = r#"{"sourceLanguage":"en","version":"1.0","strings":{"message.count":{"localizations":{"en":{"stringUnit":{"state":"translated","value":"You have messages"}}}}}}"#;
    let mut store = store_from("test_plural_with_state", initial_content);

    let mut update = TranslationUpdate::default();
    let mut variations = OrderedMap::new();
    let mut plural_cases = OrderedMap::new();

    let mut one_update = TranslationUpdate::default();
    one_update.value = FieldUpdate::Replace("".to_string());
    one_update.state = FieldUpdate::Replace("new".to_string());

    plural_cases.insert("one".to_string(), one_update);
    variations.insert("plural".to_string(), plural_cases);
    update.variations = Some(variations);

    let (result, content) = store
        .upsert_translation("message.count", "en", update)
        .unwrap();

    assert!(result.has_variations());
    let plural_vars = result.variation_cases("plural").expect("plural");
    assert!(plural_vars.contains_key("one"));

    let one_var = plural_vars.get("one").expect("one");
    assert_eq!(one_var.value, None);
    assert_eq!(one_var.state, Some("new".to_string()));

    assert!(content.contains("\"variations\""));
    assert!(content.contains("\"plural\""));
    assert!(content.contains("\"one\""));
}

#[test]
fn test_substitution_without_state_gets_filtered() {
    let initial_content = r#"{"sourceLanguage":"en","version":"1.0","strings":{"test.key":{"localizations":{"en":{"stringUnit":{"state":"translated","value":"Hello"}}}}}}"#;
    let mut store = store_from("test_substitution_without_state", initial_content);

    let mut update = TranslationUpdate::default();
    let mut substitutions = OrderedMap::new();

    let mut sub_update = SubstitutionUpdate::default();
    sub_update.value = FieldUpdate::Replace("".to_string());

    substitutions.insert("userName".to_string(), Some(sub_update));
    update.substitutions = Some(substitutions);

    let (result, content) = store
        .upsert_translation("test.key", "en", update)
        .unwrap();

    assert!(!result.has_substitutions());
    assert!(!content.contains("\"substitutions\""));
}

#[test]
fn test_substitution_variations_with_state() {
    let initial_content = r#"{"sourceLanguage":"en","version":"1.0","strings":{"test.key":{"localizations":{"en":{"stringUnit":{"state":"translated","value":"You have %d messages"},"substitutions":{"count":{"stringUnit":{"state":"translated","value":"message count"},"argNum":1,"formatSpecifier":"d"}}}}}}}"#;
    let mut store = store_from("test_substitution_variations", initial_content);

    let mut update = TranslationUpdate::default();
    let mut substitutions = OrderedMap::new();

    let mut sub_update = SubstitutionUpdate::default();
    let mut variations = OrderedMap::new();
    let mut plural_cases = OrderedMap::new();

    let mut one_update = TranslationUpdate::default();
    one_update.value = FieldUpdate::Replace("".to_string());
    one_update.state = FieldUpdate::Replace("new".to_string());
    plural_cases.insert("one".to_string(), one_update);

    let mut other_update = TranslationUpdate::default();
    other_update.value = FieldUpdate::Replace("".to_string());
    other_update.state = FieldUpdate::Replace("new".to_string());
    plural_cases.insert("other".to_string(), other_update);

    variations.insert("plural".to_string(), plural_cases);
    sub_update.variations = Some(variations);

    substitutions.insert("count".to_string(), Some(sub_update));
    update.substitutions = Some(substitutions);

    let (result, content) = store
        .upsert_translation("test.key", "en", update)
        .unwrap();

    assert!(result.has_substitutions());
    let count_sub = result.substitution("count").expect("count");
    assert!(count_sub.has_variations());
    assert!(count_sub.variation_cases("plural").is_some());
    assert_eq!(count_sub.arg_num, Some(1));
    assert_eq!(count_sub.format_specifier.as_deref(), Some("d"));
    assert_eq!(count_sub.value.as_deref(), Some("message count"));

    let plural_vars = count_sub.variation_cases("plural").expect("plural");
    assert_eq!(plural_vars.len(), 2);
    assert!(plural_vars.contains_key("one"));
    assert!(plural_vars.contains_key("other"));

    for i in 0..plural_vars.len() {
        let var = plural_vars.value_at(i);
        assert_eq!(var.value, None);
        assert_eq!(var.state, Some("new".to_string()));
    }

    assert!(content.contains("\"variations\""));
    assert!(content.contains("\"plural\""));
}

#[test]
fn test_variation_constraints_top_level_plural_and_device() {
    let mut store = fresh_store("variation_constraints_top");

    let plural_cases = cases_of(vec![
        ("one", localization("One item")),
        ("other", localization("Many items")),
    ]);
    let device_cases = cases_of(vec![("iphone", localization("iPhone version"))]);

    let mut update = TranslationUpdate::default();
    update.variations = Some(updates_of(vec![
        ("plural", &plural_cases),
        ("device", &device_cases),
    ]));

    let (result, _) = store
        .upsert_translation("test.key", "en", update)
        .unwrap();

    assert!(result.variation_cases("plural").is_some());
    assert!(result.variation_cases("device").is_none());
}

#[test]
fn test_variation_constraints_no_device_under_plural() {
    let mut store = fresh_store("variation_constraints_nested_plural");

    let mut one_loc = XcLocalization::default();
    one_loc.string_unit = Some(XcStringUnit {
        state: Some("translated".to_string()),
        value: Some("One".to_string()),
    });
    let mut nested = OrderedMap::new();
    nested.insert(
        "device".to_string(),
        cases_of(vec![("iphone", localization("iPhone One"))]),
    );
    one_loc.variations = Some(nested);
    let plural_cases = cases_of(vec![("one", one_loc)]);

    let mut update = TranslationUpdate::default();
    update.variations = Some(updates_of(vec![("plural", &plural_cases)]));

    let (result, _) = store
        .upsert_translation("test.key2", "en", update)
        .unwrap();

    let plural_vars = result.variation_cases("plural").unwrap();
    let one_var = plural_vars.get("one").unwrap();
    assert!(one_var.variation_cases("device").is_none());
}

#[test]
fn test_variation_constraints_no_device_under_device() {
    let mut store = fresh_store("variation_constraints_nested_device");

    let mut iphone_loc = XcLocalization::default();
    iphone_loc.string_unit = Some(XcStringUnit {
        state: Some("translated".to_string()),
        value: Some("iPhone".to_string()),
    });
    let mut nested = OrderedMap::new();
    nested.insert(
        "device".to_string(),
        cases_of(vec![("ipad", localization("Nested iPad"))]),
    );
    iphone_loc.variations = Some(nested);
    let device_cases = cases_of(vec![("iphone", iphone_loc)]);

    let mut update = TranslationUpdate::default();
    update.variations = Some(updates_of(vec![("device", &device_cases)]));

    let (result, _) = store
        .upsert_translation("test.key3", "en", update)
        .unwrap();

    let device_vars = result.variation_cases("device").unwrap();
    let iphone_var = device_vars.get("iphone").unwrap();
    assert!(iphone_var.variation_cases("device").is_none());
}

#[test]
fn test_variation_constraints_plural_allowed_under_device() {
    let mut store = fresh_store("variation_constraints_plural_under_device");

    let mut iphone_loc = XcLocalization::default();
    let mut nested = OrderedMap::new();
    nested.insert(
        "plural".to_string(),
        cases_of(vec![
            ("one", localization("One item on iPhone")),
            ("other", localization("Many items on iPhone")),
        ]),
    );
    iphone_loc.variations = Some(nested);
    let device_cases = cases_of(vec![("iphone", iphone_loc)]);

    let mut update = TranslationUpdate::default();
    update.variations = Some(updates_of(vec![("device", &device_cases)]));

    let (result, _) = store
        .upsert_translation("test.key4", "en", update)
        .unwrap();

    let device_vars = result.variation_cases("device").unwrap();
    let iphone_var = device_vars.get("iphone").unwrap();
    assert!(iphone_var.variation_cases("plural").is_some());
    let plural_vars = iphone_var.variation_cases("plural").unwrap();
    assert!(plural_vars.contains_key("one"));
    assert!(plural_vars.contains_key("other"));
}

#[test]
fn delete_plural_variation_with_null_value() {
    let mut store = fresh_store("delete_plural_null");

    let initial = TranslationUpdate::from_value_state(None, None)
        .add_variation("plural", "one", text("One item", Some("translated")))
        .add_variation("plural", "other", text("%d items", Some("translated")));

    store
        .upsert_translation("items.count", "en", initial)
        .expect("create initial");

    let result = store
        .get_translation("items.count", "en")
        .expect("fetch initial")
        .expect("translation exists");

    let plural_vars = result.variation_cases("plural").expect("has plural");
    assert_eq!(plural_vars.len(), 2);
    assert!(plural_vars.contains_key("one"));
    assert!(plural_vars.contains_key("other"));

    let mut plural_cases = OrderedMap::new();
    plural_cases.insert(
        "one".to_string(),
        TranslationUpdate {
            state: FieldUpdate::Clear,
            value: FieldUpdate::Clear,
            substitutions: None,
            variations: None,
        },
    );
    let mut variations = OrderedMap::new();
    variations.insert("plural".to_string(), plural_cases);
    let delete_one = TranslationUpdate {
        state: FieldUpdate::Unchanged,
        value: FieldUpdate::Unchanged,
        variations: Some(variations),
        substitutions: None,
    };

    store
        .upsert_translation("items.count", "en", delete_one)
        .expect("delete one case");

    let result = store
        .get_translation("items.count", "en")
        .expect("fetch after delete")
        .expect("translation still exists");

    let plural_vars = result.variation_cases("plural").expect("still has plural");
    assert_eq!(plural_vars.len(), 1, "Should have only one plural case left");
    assert!(!plural_vars.contains_key("one"), "One case should be deleted");
    assert!(plural_vars.contains_key("other"), "Other case should remain");
}

#[test]
fn test_format_preservation() {
    let initial_content = r#"{
  "version" : "1.0",
  "sourceLanguage" : "en",
  "strings" : {
    "first.key" : {
      "localizations" : {
        "en" : {
          "stringUnit" : {
            "state" : "translated",
            "value" : "First value"
          }
        }
      }
    },
    "second.key" : {
      "localizations" : {
        "en" : {
          "stringUnit" : {
            "state" : "translated",
            "value" : "Second value"
          }
        }
      }
    }
  }
}"#;
    let mut store = store_from("format_preservation", initial_content);

    let (_, updated_content) = store
        .upsert_translation("third.key", "en", text("Third value", Some("translated")))
        .unwrap();

    assert!(updated_content.contains("\"version\" : \"1.0\""));
    assert!(updated_content.contains("\"sourceLanguage\" : \"en\""));
    assert!(updated_content.contains("\"first.key\" : {"));
    assert!(updated_content.contains("\"second.key\" : {"));
    assert!(updated_content.contains("\"third.key\" : {"));
    assert!(updated_content.contains("\"state\" : \"translated\""));

    let first_pos = updated_content.find("\"first.key\"").unwrap();
    let second_pos = updated_content.find("\"second.key\"").unwrap();
    let third_pos = updated_content.find("\"third.key\"").unwrap();
    assert!(first_pos < second_pos);
    assert!(second_pos < third_pos);

    let (_, updated_content2) = store
        .upsert_translation("first.key", "en", text("Updated first value", None))
        .unwrap();

    let first_pos2 = updated_content2.find("\"first.key\"").unwrap();
    let second_pos2 = updated_content2.find("\"second.key\"").unwrap();
    let third_pos2 = updated_content2.find("\"third.key\"").unwrap();
    assert!(first_pos2 < second_pos2);
    assert!(second_pos2 < third_pos2);
    assert!(updated_content2.contains("\"value\" : \"Updated first value\""));
}
