use xcstrings_mcp::store::XcStringsStore;
use xcstrings_mcp::update::{FieldUpdate, TranslationUpdate};

fn set_value(value: &str, state: Option<&str>) -> TranslationUpdate {
    TranslationUpdate::from_value_state(Some(value.to_string()), state.map(|s| s.to_string()))
}

#[test]
fn test_preserves_apple_format() {
    let apple_formatted_content = r#"{
  "version" : "1.0",
  "sourceLanguage" : "en",
  "strings" : {
    "greeting.morning" : {
      "extractionState" : "manual",
      "localizations" : {
        "en" : {
          "stringUnit" : {
            "state" : "translated",
            "value" : "Good morning"
          }
        },
        "es" : {
          "stringUnit" : {
            "state" : "translated",
            "value" : "Buenos días"
          }
        }
      }
    },
    "greeting.evening" : {
      "localizations" : {
        "en" : {
          "stringUnit" : {
            "state" : "translated",
            "value" : "Good evening"
          }
        }
      }
    }
  }
}"#;

    let mut store =
        XcStringsStore::load_or_create("test.xcstrings".to_string(), Some(apple_formatted_content))
            .expect("load store");

    // Loading and writing back without a change reproduces the text.
    assert_eq!(store.serialize(), apple_formatted_content);

    let update = set_value("Bonjour", Some("translated"));
    let (_, modified_content) = store
        .upsert_translation("greeting.morning", "fr", update)
        .expect("upsert");

    assert!(modified_content.contains("\"version\" : \"1.0\""));
    assert!(modified_content.contains("\"sourceLanguage\" : \"en\""));
    assert!(modified_content.contains("\"strings\" : {"));
    assert!(modified_content.contains("\"greeting.morning\" : {"));
    assert!(modified_content.contains("\"greeting.evening\" : {"));
    assert!(modified_content.contains("\"localizations\" : {"));
    assert!(modified_content.contains("\"stringUnit\" : {"));
    assert!(modified_content.contains("\"state\" : \"translated\""));
    assert!(modified_content.contains("\"value\" : \"Good morning\""));

    let morning_pos = modified_content.find("\"greeting.morning\"").unwrap();
    let evening_pos = modified_content.find("\"greeting.evening\"").unwrap();
    assert!(morning_pos < evening_pos, "Key order should be preserved");

    let en_pos = modified_content.find("\"en\" : {").unwrap();
    let es_pos = modified_content.find("\"es\" : {").unwrap();
    let fr_pos = modified_content.find("\"fr\" : {").unwrap();
    assert!(en_pos < es_pos, "English should come before Spanish");
    assert!(es_pos < fr_pos, "Spanish should come before French (newly added)");

    assert!(modified_content.contains("\"value\" : \"Bonjour\""));
    assert!(modified_content.contains("\"value\" : \"Good morning\""));
    assert!(modified_content.contains("\"value\" : \"Buenos días\""));
    assert!(modified_content.contains("\"value\" : \"Good evening\""));
    assert!(matches!(FieldUpdate::<String>::Clear, FieldUpdate::Clear));
}

fn load(contents: &str) -> XcStringsStore {
    XcStringsStore::load_or_create("test.xcstrings".to_string(), Some(contents)).expect("load store")
}

#[test]
fn test_preserves_key_order_on_update() {
    let initial_content = r#"{
  "version" : "1.0",
  "sourceLanguage" : "en",
  "strings" : {
    "first" : {
      "localizations" : {
        "en" : {
          "stringUnit" : {
            "state" : "translated",
            "value" : "First"
          }
        }
      }
    },
    "second" : {
      "localizations" : {
        "en" : {
          "stringUnit" : {
            "state" : "translated",
            "value" : "Second"
          }
        }
      }
    },
    "third" : {
      "localizations" : {
        "en" : {
          "stringUnit" : {
            "state" : "translated",
            "value" : "Third"
          }
        }
      }
    }
  }
}"#;
    let mut store = load(initial_content);

    store
        .upsert_translation("second", "en", set_value("Updated Second", None))
        .unwrap();
    let (_, modified_content) = store
        .upsert_translation("fourth", "en", set_value("Fourth", Some("translated")))
        .unwrap();

    let first_pos = modified_content.find("\"first\"").unwrap();
    let second_pos = modified_content.find("\"second\"").unwrap();
    let third_pos = modified_content.find("\"third\"").unwrap();
    let fourth_pos = modified_content.find("\"fourth\"").unwrap();

    assert!(first_pos < second_pos, "first should come before second");
    assert!(second_pos < third_pos, "second should come before third");
    assert!(third_pos < fourth_pos, "third should come before fourth (newly added)");

    assert!(modified_content.contains("\"value\" : \"Updated Second\""));
    assert!(modified_content.contains("\"value\" : \"Fourth\""));
    assert_eq!(modified_content, store.serialize());
}

#[test]
fn test_preserves_format_with_variations() {
    let initial_content = r#"{
  "version" : "1.0",
  "sourceLanguage" : "en",
  "strings" : {
    "items.count" : {
      "localizations" : {
        "en" : {
          "variations" : {
            "plural" : {
              "one" : {
                "stringUnit" : {
                  "state" : "translated",
                  "value" : "%lld item"
                }
              },
              "other" : {
                "stringUnit" : {
                  "state" : "translated",
                  "value" : "%lld items"
                }
              }
            }
          }
        }
      }
    }
  }
}"#;
    let mut store = load(initial_content);
    assert_eq!(store.serialize(), initial_content);

    let update = TranslationUpdate::from_value_state(None, None).add_variation(
        "plural",
        "zero",
        set_value("No items", Some("translated")),
    );
    let (_, modified_content) = store
        .upsert_translation("items.count", "en", update)
        .unwrap();

    assert!(modified_content.contains("\"variations\" : {"));
    assert!(modified_content.contains("\"plural\" : {"));

    let one_pos = modified_content.find("\"one\" :").unwrap();
    let other_pos = modified_content.find("\"other\" :").unwrap();
    let zero_pos = modified_content.find("\"zero\" :").unwrap();

    assert!(one_pos < other_pos, "one should come before other");
    assert!(other_pos < zero_pos, "other should come before zero (newly added)");

    assert!(modified_content.contains("\"value\" : \"%lld item\""));
    assert!(modified_content.contains("\"value\" : \"%lld items\""));
    assert!(modified_content.contains("\"value\" : \"No items\""));
}

#[test]
fn test_preserves_stringunit_field_order() {
    let initial_content = r#"{
  "version" : "1.0",
  "sourceLanguage" : "en",
  "strings" : {
    "test.key" : {
      "comment" : "Test comment",
      "extractionState" : "manual",
      "localizations" : {
        "en" : {
          "stringUnit" : {
            "state" : "translated",
            "value" : "Original value"
          }
        },
        "fr" : {
          "stringUnit" : {
            "state" : "needs_review",
            "value" : "Valeur originale"
          }
        }
      }
    }
  }
}"#;
    let mut store = load(initial_content);

    let (_, modified_content) = store
        .upsert_translation("test.key", "en", set_value("Updated value", None))
        .unwrap();

    let en_unit_start = modified_content
        .find("\"en\" : {\n          \"stringUnit\" : {")
        .unwrap();
    let en_unit_end = modified_content[en_unit_start..].find("          }").unwrap() + en_unit_start;
    let en_unit = &modified_content[en_unit_start..en_unit_end];

    let state_pos = en_unit.find("\"state\"").expect("state field not found");
    let value_pos = en_unit.find("\"value\"").expect("value field not found");
    assert!(state_pos < value_pos, "In stringUnit, 'state' should come before 'value'");

    assert!(en_unit.contains("\"state\" : \"translated\""));
    assert!(en_unit.contains("\"value\" : \"Updated value\""));

    let fr_unit_start = modified_content
        .find("\"fr\" : {\n          \"stringUnit\" : {")
        .unwrap();
    let fr_unit_end = modified_content[fr_unit_start..].find("          }").unwrap() + fr_unit_start;
    let fr_unit = &modified_content[fr_unit_start..fr_unit_end];

    let fr_state_pos = fr_unit.find("\"state\"").expect("state field not found");
    let fr_value_pos = fr_unit.find("\"value\"").expect("value field not found");
    assert!(fr_state_pos < fr_value_pos, "In French stringUnit, 'state' should come before 'value'");

    assert!(fr_unit.contains("\"state\" : \"needs_review\""));
    assert!(fr_unit.contains("\"value\" : \"Valeur originale\""));

    let comment_pos = modified_content.find("\"comment\"").unwrap();
    let extraction_pos = modified_content.find("\"extractionState\"").unwrap();
    assert!(comment_pos < extraction_pos, "comment should come before extractionState");
}

fn greeting_file(members: [&str; 3]) -> String {
    let strings = r#""strings" : {
    "greeting" : {
      "localizations" : {
        "en" : {
          "stringUnit" : {
            "state" : "translated",
            "value" : "Hello"
          }
        }
      }
    }
  }"#;
    let parts: Vec<String> = members
        .iter()
        .map(|m| match *m {
            "strings" => strings.to_string(),
            "version" => "\"version\" : \"1.0\"".to_string(),
            _ => "\"sourceLanguage\" : \"en\"".to_string(),
        })
        .collect();
    format!("{{\n  {}\n}}", parts.join(",\n  "))
}

#[test]
fn test_preserves_version_key_position() {
    // Version at the end (after strings)
    let content_version_at_end = greeting_file(["sourceLanguage", "strings", "version"]);
    let mut store = load(&content_version_at_end);
    assert_eq!(store.serialize(), content_version_at_end);
    let (_, result) = store
        .upsert_translation("greeting", "en", set_value("Hi", None))
        .unwrap();
    let version_pos = result.find("\"version\"").expect("version not found");
    let strings_pos = result.find("\"strings\"").expect("strings not found");
    assert!(version_pos > strings_pos, "Version should remain at the end after strings");

    // Version in the middle
    let content_version_middle = greeting_file(["sourceLanguage", "version", "strings"]);
    let mut store = load(&content_version_middle);
    let (_, result) = store
        .upsert_translation("greeting", "en", set_value("Hi", None))
        .unwrap();
    let source_pos = result.find("\"sourceLanguage\"").expect("sourceLanguage not found");
    let version_pos = result.find("\"version\"").expect("version not found");
    let strings_pos = result.find("\"strings\"").expect("strings not found");
    assert!(
        source_pos < version_pos && version_pos < strings_pos,
        "Version should remain in the middle between sourceLanguage and strings"
    );

    // Version at the beginning
    let content_version_begin = greeting_file(["version", "sourceLanguage", "strings"]);
    let mut store = load(&content_version_begin);
    let (_, result) = store
        .upsert_translation("greeting", "en", set_value("Hi", None))
        .unwrap();
    let version_pos = result.find("\"version\"").expect("version not found");
    let source_pos = result.find("\"sourceLanguage\"").expect("sourceLanguage not found");
    assert!(version_pos < source_pos, "Version should remain at the beginning before sourceLanguage");
}
