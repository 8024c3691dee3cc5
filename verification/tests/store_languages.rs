use xcstrings_mcp::error::StoreError;
use xcstrings_mcp::progress::{LanguageProgress, UntranslatedKeys};
use xcstrings_mcp::store::XcStringsStore;
use xcstrings_mcp::update::TranslationUpdate;

fn fresh_store(name: &str) -> XcStringsStore {
    XcStringsStore::load_or_create(format!("/tmp/{name}/Localizable.xcstrings"), None)
        .expect("load store")
}

fn text(value: &str) -> TranslationUpdate {
    TranslationUpdate::from_value_state(Some(value.to_string()), None)
}

fn seed(store: &mut XcStringsStore, entries: &[(&str, &str, &str)]) {
    for (key, language, value) in entries {
        store
            .upsert_translation(key, language, text(value))
            .unwrap();
    }
}

fn keys_for<'a>(report: &'a [UntranslatedKeys], language: &str) -> Option<&'a Vec<String>> {
    report
        .iter()
        .find(|entry| entry.language == language)
        .map(|entry| &entry.keys)
}

fn percentage(report: &[LanguageProgress], language: &str) -> Option<f64> {
    report
        .iter()
        .find(|entry| entry.language == language)
        .map(|entry| (entry.translated as f64 / entry.total as f64) * 100.0)
}

#[test]
fn add_language_succeeds_and_ready_for_translations() {
    let mut store = fresh_store("add_language");
    seed(&mut store, &[("greeting", "en", "Hello")]);

    store.add_language("fr").unwrap();

    let languages = store.list_languages();
    assert!(languages.contains(&"fr".to_string()));

    let placeholder = store
        .get_translation("greeting", "fr")
        .expect("lookup succeeds")
        .expect("placeholder created");
    assert_eq!(placeholder.state.as_deref(), Some("needs-translation"));
    assert!(placeholder.value.is_none());

    seed(&mut store, &[("greeting", "fr", "Bonjour")]);

    let languages = store.list_languages();
    assert!(languages.contains(&"fr".to_string()));

    let greeting = store.get_translation("greeting", "fr").unwrap().unwrap();
    assert_eq!(greeting.value.as_deref(), Some("Bonjour"));
    assert_eq!(greeting.state.as_deref(), Some("translated"));
}

#[test]
fn add_language_to_empty_file_succeeds_but_not_visible() {
    let mut store = fresh_store("add_language_empty");

    store.add_language("fr").unwrap();

    let languages = store.list_languages();
    assert!(!languages.contains(&"fr".to_string()));
    assert!(languages.contains(&"en".to_string()));

    seed(&mut store, &[("greeting", "fr", "Bonjour")]);

    let languages = store.list_languages();
    assert!(languages.contains(&"fr".to_string()));
}

#[test]
fn add_language_fails_if_already_exists() {
    let mut store = fresh_store("add_language_exists");
    seed(&mut store, &[("greeting", "en", "Hello")]);

    let result = store.add_language("en");
    assert!(matches!(result, Err(StoreError::LanguageExists(_))));

    seed(&mut store, &[("greeting", "fr", "Bonjour")]);

    let result = store.add_language("fr");
    assert!(matches!(result, Err(StoreError::LanguageExists(_))));
}

#[test]
fn add_language_fails_if_empty() {
    let mut store = fresh_store("add_language_empty");

    let result = store.add_language("");
    assert!(matches!(result, Err(StoreError::InvalidLanguage(_))));

    let result = store.add_language("   ");
    assert!(matches!(result, Err(StoreError::InvalidLanguage(_))));
}

#[test]
fn remove_language_deletes_localizations() {
    let mut store = fresh_store("remove_language");
    seed(
        &mut store,
        &[
            ("greeting", "en", "Hello"),
            ("greeting", "fr", "Bonjour"),
            ("greeting", "es", "Hola"),
        ],
    );

    store.remove_language("fr").unwrap();

    let languages = store.list_languages();
    assert!(!languages.contains(&"fr".to_string()));
    assert!(languages.contains(&"en".to_string()));
    assert!(languages.contains(&"es".to_string()));

    let greeting_fr = store.get_translation("greeting", "fr").unwrap();
    assert!(greeting_fr.is_none());

    let greeting_en = store.get_translation("greeting", "en").unwrap();
    assert!(greeting_en.is_some());
    assert_eq!(greeting_en.unwrap().value.as_deref(), Some("Hello"));
}

#[test]
fn remove_language_fails_if_source_language() {
    let mut store = fresh_store("remove_source_language");

    let result = store.remove_language("en");
    assert!(matches!(
        result,
        Err(StoreError::CannotRemoveSourceLanguage(_))
    ));
}

#[test]
fn remove_language_fails_if_not_exists() {
    let mut store = fresh_store("remove_language_missing");

    let result = store.remove_language("fr");
    assert!(matches!(result, Err(StoreError::LanguageMissing(_))));
}

#[test]
fn update_language_renames_successfully() {
    let mut store = fresh_store("update_language");
    seed(
        &mut store,
        &[("greeting", "en", "Hello"), ("greeting", "fr", "Bonjour")],
    );

    store.update_language("fr", "fr-FR").unwrap();

    let languages = store.list_languages();
    assert!(!languages.contains(&"fr".to_string()));
    assert!(languages.contains(&"fr-FR".to_string()));

    let greeting_fr = store.get_translation("greeting", "fr").unwrap();
    assert!(greeting_fr.is_none());

    let greeting_fr_fr = store.get_translation("greeting", "fr-FR").unwrap();
    assert!(greeting_fr_fr.is_some());
    assert_eq!(greeting_fr_fr.unwrap().value.as_deref(), Some("Bonjour"));
}

#[test]
fn update_language_fails_if_source_language() {
    let mut store = fresh_store("update_source_language");

    let result = store.update_language("en", "en-US");
    assert!(matches!(
        result,
        Err(StoreError::CannotRenameSourceLanguage(_))
    ));
}

#[test]
fn update_language_fails_if_old_not_exists() {
    let mut store = fresh_store("update_language_missing");

    let result = store.update_language("fr", "fr-FR");
    assert!(matches!(result, Err(StoreError::LanguageMissing(_))));
}

#[test]
fn update_language_fails_if_new_exists() {
    let mut store = fresh_store("update_language_exists");
    seed(
        &mut store,
        &[("greeting", "fr", "Bonjour"), ("greeting", "es", "Hola")],
    );

    let result = store.update_language("fr", "es");
    assert!(matches!(result, Err(StoreError::LanguageExists(_))));
}

#[test]
fn update_language_no_op_if_same_name() {
    let mut store = fresh_store("update_language_same");
    seed(&mut store, &[("greeting", "fr", "Bonjour")]);

    // A language that is renamed to itself is a language that exists.
    let result = store.update_language("fr", "fr");
    assert!(matches!(result, Err(StoreError::LanguageExists(ref language)) if language == "fr"));

    let greeting_fr = store.get_translation("greeting", "fr").unwrap();
    assert!(greeting_fr.is_some());
    assert_eq!(greeting_fr.unwrap().value.as_deref(), Some("Bonjour"));
}

#[test]
fn update_language_protects_the_source_language() {
    let mut store = fresh_store("update_language_source_same");
    seed(&mut store, &[("greeting", "en", "Hello")]);
    for target in ["en", " en ", "en-US", "fr"] {
        let result = store.update_language("en", target);
        assert!(
            matches!(result, Err(StoreError::CannotRenameSourceLanguage(ref language)) if language == "en"),
            "{target}"
        );
    }
    assert!(matches!(store.update_language("en", " "), Err(StoreError::InvalidLanguage(_))));
    assert!(matches!(store.update_language("", "fr"), Err(StoreError::InvalidLanguage(_))));
    assert_eq!(
        store.get_translation("greeting", "en").unwrap().unwrap().value.as_deref(),
        Some("Hello")
    );
}

#[test]
fn list_untranslated_with_empty_values() {
    let mut store = fresh_store("list_untranslated_empty");
    seed(
        &mut store,
        &[("key1", "en", "Hello"), ("key2", "en", "World"), ("key2", "fr", "Monde")],
    );

    let untranslated = store.list_untranslated();

    let fr_untranslated = keys_for(&untranslated, "fr");
    assert!(fr_untranslated.is_some());
    let fr_keys = fr_untranslated.unwrap();
    assert_eq!(fr_keys.len(), 1);
    assert!(fr_keys.contains(&"key1".to_string()));

    let en_untranslated = keys_for(&untranslated, "en");
    if let Some(keys) = en_untranslated {
        assert!(keys.is_empty());
    }
}

#[test]
fn list_untranslated_with_duplicate_values() {
    let mut store = fresh_store("list_untranslated_duplicates");
    seed(
        &mut store,
        &[
            ("key1", "en", "Hello"),
            ("key1", "fr", "Hello"),
            ("key2", "en", "World"),
            ("key2", "fr", "Monde"),
        ],
    );

    let untranslated = store.list_untranslated();

    if let Some(keys) = keys_for(&untranslated, "fr") {
        assert!(keys.is_empty());
    }
    if let Some(keys) = keys_for(&untranslated, "en") {
        assert!(keys.is_empty());
    }
}

#[test]
fn list_untranslated_with_no_translations() {
    let store = fresh_store("list_untranslated_none");

    let untranslated = store.list_untranslated();

    assert!(untranslated.is_empty() || keys_for(&untranslated, "en").unwrap().is_empty());
}

#[test]
fn list_untranslated_with_all_translated() {
    let mut store = fresh_store("list_untranslated_all_done");
    seed(
        &mut store,
        &[
            ("key1", "en", "Hello"),
            ("key1", "fr", "Bonjour"),
            ("key2", "en", "World"),
            ("key2", "fr", "Monde"),
        ],
    );

    let untranslated = store.list_untranslated();

    for entry in untranslated.iter() {
        assert!(entry.keys.is_empty());
    }
}

#[test]
fn get_translation_percentages_empty_store() {
    let store = fresh_store("percentages_empty");

    let percentages = store.get_translation_percentages();

    assert!(percentages.is_empty());
}

#[test]
fn get_translation_percentages_partial_translation() {
    let mut store = fresh_store("percentages_partial");
    seed(
        &mut store,
        &[
            ("key1", "en", "Hello"),
            ("key2", "en", "World"),
            ("key3", "en", "Foo"),
            ("key4", "en", "Bar"),
            ("key1", "fr", "Bonjour"),
            ("key2", "fr", "Monde"),
            ("key4", "fr", "Bar"),
        ],
    );

    let percentages = store.get_translation_percentages();

    let en_percentage = percentage(&percentages, "en").unwrap();
    assert_eq!(en_percentage, 100.0);

    let fr_percentage = percentage(&percentages, "fr").unwrap();
    assert_eq!(fr_percentage, 75.0);
}

#[test]
fn get_translation_percentages_fully_translated() {
    let mut store = fresh_store("percentages_full");
    seed(
        &mut store,
        &[
            ("key1", "en", "Hello"),
            ("key1", "fr", "Bonjour"),
            ("key2", "en", "World"),
            ("key2", "fr", "Monde"),
        ],
    );

    let percentages = store.get_translation_percentages();

    assert_eq!(percentage(&percentages, "en").unwrap(), 100.0);
    assert_eq!(percentage(&percentages, "fr").unwrap(), 100.0);
}

#[test]
fn get_translation_percentages_multiple_languages() {
    let mut store = fresh_store("percentages_multi");
    seed(
        &mut store,
        &[
            ("key1", "en", "Hello"),
            ("key2", "en", "World"),
            ("key1", "fr", "Bonjour"),
            ("key1", "de", "Hallo"),
            ("key2", "de", "Welt"),
        ],
    );

    let percentages = store.get_translation_percentages();

    assert_eq!(percentage(&percentages, "en").unwrap(), 100.0);
    assert_eq!(percentage(&percentages, "fr").unwrap(), 50.0);
    assert_eq!(percentage(&percentages, "de").unwrap(), 100.0);

    // The languages come in the order of their codes.
    let order: Vec<&str> = percentages.iter().map(|p| p.language.as_str()).collect();
    assert_eq!(order, vec!["de", "en", "fr"]);
}

#[test]
fn get_translation_percentages_excludes_should_not_translate() {
    let mut store = fresh_store("percentages_should_translate");
    seed(
        &mut store,
        &[
            ("key1", "en", "Hello"),
            ("key2", "en", "World"),
            ("key3", "en", "NoTranslate"),
        ],
    );

    store.set_should_translate("key3", Some(false)).unwrap();

    seed(&mut store, &[("key1", "fr", "Bonjour")]);

    let percentages = store.get_translation_percentages();

    assert_eq!(percentage(&percentages, "en").unwrap(), 100.0);
    assert_eq!(percentage(&percentages, "fr").unwrap(), 50.0);
}

#[test]
fn completion_percentage_of_two_in_three() {
    let mut store = fresh_store("percentages_two_thirds");
    seed(
        &mut store,
        &[
            ("key1", "en", "One"),
            ("key2", "en", "Two"),
            ("key3", "en", "Three"),
            ("key4", "en", "Four"),
            ("key1", "fr", "Un"),
            ("key2", "fr", "Deux"),
        ],
    );
    store.set_should_translate("key4", Some(false)).unwrap();

    let percentages = store.get_translation_percentages();
    let fr = percentages.iter().find(|p| p.language == "fr").unwrap();
    assert_eq!(fr.translated, 2);
    assert_eq!(fr.total, 3);
    let value = percentage(&percentages, "fr").unwrap();
    assert!((value - 66.67).abs() < 0.01);
}

#[test]
fn language_lifecycle() {
    let mut store = fresh_store("language_lifecycle");
    seed(&mut store, &[("greeting", "en", "Hello"), ("farewell", "en", "Bye")]);

    store.add_language(" fr ").unwrap();
    for key in ["greeting", "farewell"] {
        let placeholder = store.get_translation(key, "fr").unwrap().unwrap();
        assert!(placeholder.value.is_none());
        assert_eq!(placeholder.state.as_deref(), Some("needs-translation"));
        assert!(!placeholder.has_variations());
        assert!(!placeholder.has_substitutions());
    }

    store.remove_language("fr").unwrap();
    for key in ["greeting", "farewell"] {
        assert!(store.get_translation(key, "fr").unwrap().is_none());
    }

    match store.add_language("en") {
        Err(StoreError::LanguageExists(language)) => assert_eq!(language, "en"),
        other => panic!("unexpected result: {:?}", other.is_ok()),
    }
    match store.remove_language("en") {
        Err(StoreError::CannotRemoveSourceLanguage(language)) => assert_eq!(language, "en"),
        other => panic!("unexpected result: {:?}", other.is_ok()),
    }
}
