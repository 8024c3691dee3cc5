use xcstrings_mcp::apple_json_formatter::{escape_string, to_apple_format, write_indent};
use xcstrings_mcp::json::{JsonNumber, JsonValue};
use xcstrings_mcp::parse::parse_json;

fn string(s: &str) -> JsonValue {
    JsonValue::String(s.to_string())
}

fn object(members: Vec<(&str, JsonValue)>) -> JsonValue {
    JsonValue::Object(
        members
            .into_iter()
            .map(|(name, value)| (name.to_string(), value))
            .collect(),
    )
}

#[test]
fn test_apple_format() {
    let value = object(vec![
        ("version", string("1.0")),
        ("sourceLanguage", string("en")),
        (
            "strings",
            object(vec![(
                "hello",
                object(vec![(
                    "localizations",
                    object(vec![(
                        "en",
                        object(vec![(
                            "stringUnit",
                            object(vec![
                                ("state", string("translated")),
                                ("value", string("Hello")),
                            ]),
                        )]),
                    )]),
                )]),
            )]),
        ),
    ]);

    let formatted = to_apple_format(&value);
    assert!(formatted.contains("\"version\" : \"1.0\""));
    assert!(formatted.contains("\"sourceLanguage\" : \"en\""));
    assert!(formatted.contains("\"state\" : \"translated\""));
}

#[test]
fn test_empty_objects_and_arrays() {
    let value = object(vec![
        ("empty_object", object(vec![])),
        ("empty_array", JsonValue::Array(vec![])),
        ("nested", object(vec![("also_empty", object(vec![]))])),
    ]);

    let formatted = to_apple_format(&value);
    assert!(formatted.contains("\"empty_object\" : {}"));
    assert!(formatted.contains("\"empty_array\" : []"));
    assert!(formatted.contains("\"also_empty\" : {}"));
}

#[test]
fn test_string_escaping() {
    let value = object(vec![("test", string("Line 1\nLine 2\t\"quoted\""))]);

    let formatted = to_apple_format(&value);
    assert!(formatted.contains("Line 1\\nLine 2\\t\\\"quoted\\\""));
}

#[test]
fn exact_layout_of_a_document() {
    let value = object(vec![
        ("name", string("a")),
        (
            "list",
            JsonValue::Array(vec![
                JsonValue::Null,
                JsonValue::Bool(true),
                JsonValue::Bool(false),
                JsonValue::Number(JsonNumber::Integer(-12)),
                JsonValue::Array(vec![JsonValue::Number(JsonNumber::Integer(0))]),
            ]),
        ),
        ("inner", object(vec![("k", object(vec![]))])),
    ]);
    let expected = "{\n  \"name\" : \"a\",\n  \"list\" : [\n    null,\n    true,\n    false,\n    -12,\n    [\n      0\n    ]\n  ],\n  \"inner\" : {\n    \"k\" : {}\n  }\n}";
    assert_eq!(to_apple_format(&value), expected);
    assert_eq!(to_apple_format(&JsonValue::Null), "null");
    assert_eq!(to_apple_format(&object(vec![])), "{}");
}

#[test]
fn numbers_are_written_in_decimal() {
    for (n, text) in [
        (0i64, "0"),
        (7, "7"),
        (10, "10"),
        (-1, "-1"),
        (1234567890, "1234567890"),
        (i64::MAX, "9223372036854775807"),
        (i64::MIN, "-9223372036854775808"),
    ] {
        assert_eq!(to_apple_format(&JsonValue::Number(JsonNumber::Integer(n))), text);
    }
    assert_eq!(
        to_apple_format(&JsonValue::Number(JsonNumber::Other("1.5".to_string()))),
        "1.5"
    );
}

#[test]
fn escapes_control_characters() {
    assert_eq!(escape_string("plain"), "plain");
    assert_eq!(escape_string("a\"b\\c"), "a\\\"b\\\\c");
    assert_eq!(escape_string("\n\r\t\u{8}\u{c}"), "\\n\\r\\t\\b\\f");
    assert_eq!(escape_string("\u{0}\u{1f}\u{7f}\u{9f}"), "\\u0000\\u001f\\u007f\\u009f");
    assert_eq!(escape_string("\u{1b}[0m"), "\\u001b[0m");
    assert_eq!(escape_string("días ✓ \u{a0}"), "días ✓ \u{a0}");
}

#[test]
fn indentation_is_two_spaces_per_level() {
    let mut out = String::from("x");
    write_indent(&mut out, 0);
    assert_eq!(out, "x");
    write_indent(&mut out, 3);
    assert_eq!(out, "x      ");
}

#[test]
fn parser_reads_documents() {
    let parsed = parse_json(r#"{"b": [1, -2, 1.5, 18446744073709551615], "a": {"x": null, "y": true}, "s": "té\n"}"#)
        .expect("valid json");
    let expected = object(vec![
        (
            "b",
            JsonValue::Array(vec![
                JsonValue::Number(JsonNumber::Integer(1)),
                JsonValue::Number(JsonNumber::Integer(-2)),
                JsonValue::Number(JsonNumber::Other("1.5".to_string())),
                JsonValue::Number(JsonNumber::Other("18446744073709551615".to_string())),
            ]),
        ),
        ("a", object(vec![("x", JsonValue::Null), ("y", JsonValue::Bool(true))])),
        ("s", string("té\n")),
    ]);
    assert_eq!(parsed, expected);
    assert!(parse_json("{ not json").is_err());
    assert!(parse_json("").is_err());
    assert_eq!(parse_json("[]").unwrap(), JsonValue::Array(vec![]));
}

#[test]
fn parser_keeps_the_last_of_equal_members() {
    let parsed = parse_json(r#"{"a": 1, "b": 2, "a": 3}"#).expect("valid json");
    let expected = object(vec![
        ("a", JsonValue::Number(JsonNumber::Integer(3))),
        ("b", JsonValue::Number(JsonNumber::Integer(2))),
    ]);
    assert_eq!(parsed, expected);
}
