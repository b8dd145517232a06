use pklx::nix_serializer::{
    escape_nix_quoted_key, format_nix_float, format_nix_string, is_simple_nix_ident, pkl_value_to_nix, pkl_value_to_nix_with_options, FloatText, PklValue,
    SerializeOptions, value_to_nix_inner,
};

fn float(f: f64) -> PklValue {
    PklValue::Float(FloatText::Finite(format!("{}", f)))
}

fn object(pairs: Vec<(&str, PklValue)>, class_name: Option<&str>) -> PklValue {
    let entries = pairs.into_iter().map(|(k, v)| (k.to_string(), v)).collect();
    PklValue::Object(entries, class_name.map(|s| s.to_string()))
}

#[test]
fn test_null() {
    assert_eq!(pkl_value_to_nix(&PklValue::Null), "null");
}

#[test]
fn test_bool() {
    assert_eq!(pkl_value_to_nix(&PklValue::Bool(true)), "true");
    assert_eq!(pkl_value_to_nix(&PklValue::Bool(false)), "false");
}

#[test]
fn test_int() {
    assert_eq!(pkl_value_to_nix(&PklValue::Int(42)), "42");
    assert_eq!(pkl_value_to_nix(&PklValue::Int(-1)), "-1");
    assert_eq!(pkl_value_to_nix(&PklValue::Int(0)), "0");
}

#[test]
fn test_float() {
    assert_eq!(pkl_value_to_nix(&float(2.5)), "2.5");
}

#[test]
fn test_float_integer_value() {
    let result = pkl_value_to_nix(&float(42.0));
    assert!(result == "42.0" || result == "42");
}

#[test]
fn test_string_simple() {
    assert_eq!(
        pkl_value_to_nix(&PklValue::String("hello".into())),
        "\"hello\""
    );
}

#[test]
fn test_string_with_dollar_brace() {
    assert_eq!(
        pkl_value_to_nix(&PklValue::String("${interp}".into())),
        "\"\\${interp}\""
    );
}

#[test]
fn test_empty_list() {
    assert_eq!(pkl_value_to_nix(&PklValue::List(vec![])), "[ ]");
}

#[test]
fn test_list() {
    let list = PklValue::List(vec![PklValue::Int(1), PklValue::Int(2), PklValue::Int(3)]);
    let result = pkl_value_to_nix(&list);
    assert!(result.contains("1"));
    assert!(result.contains("2"));
    assert!(result.contains("3"));
}

#[test]
fn test_empty_object() {
    assert_eq!(pkl_value_to_nix(&PklValue::Object(vec![], None)), "{ }");
}

#[test]
fn test_object() {
    let value = object(
        vec![("name", PklValue::String("test".into())), ("count", PklValue::Int(42))],
        None,
    );
    let result = pkl_value_to_nix(&value);
    assert!(result.contains("name = \"test\""));
    assert!(result.contains("count = 42"));
}

#[test]
fn test_nested_object() {
    let inner = object(vec![("x", PklValue::Int(1))], None);
    let outer = object(vec![("inner", inner)], None);
    let result = pkl_value_to_nix(&outer);
    assert!(result.contains("inner = {"));
    assert!(result.contains("x = 1"));
}

#[test]
fn test_ident_key_with_hyphen() {
    let value = object(vec![("my-key", PklValue::Int(1))], None);
    let result = pkl_value_to_nix(&value);
    assert!(result.contains("my-key = 1"));
}

#[test]
fn test_quoted_key() {
    let value = object(vec![("weird!key", PklValue::Bool(true))], None);
    let result = pkl_value_to_nix(&value);
    assert!(result.contains("\"weird!key\" = true"));
}

#[test]
fn list_layout_is_exact() {
    let list = PklValue::List(vec![PklValue::Int(1), PklValue::Int(2), PklValue::Int(3)]);
    assert_eq!(pkl_value_to_nix(&list), "[\n  1\n  2\n  3\n]");
}

#[test]
fn nested_list_in_object_is_indented_by_depth() {
    let value = object(
        vec![("xs", PklValue::List(vec![PklValue::Int(1), PklValue::List(vec![PklValue::Null])]))],
        None,
    );
    assert_eq!(
        pkl_value_to_nix(&value),
        "{ xs = [\n    1\n    [\n      null\n    ]\n  ]; }"
    );
}

#[test]
fn object_layout_is_exact() {
    let value = object(
        vec![
            ("host", PklValue::String("example.com".into())),
            ("port", PklValue::Int(443)),
            ("tls", PklValue::Bool(true)),
        ],
        None,
    );
    assert_eq!(
        pkl_value_to_nix(&value),
        "{ host = \"example.com\"; port = 443; tls = true; }"
    );
}

#[test]
fn class_name_is_carried_through() {
    let alice = object(
        vec![("name", PklValue::String("Alice".into())), ("age", PklValue::Int(30))],
        Some("User"),
    );
    let users = object(vec![("alice", alice)], None);
    let doc = object(vec![("users", users)], None);
    assert_eq!(
        pkl_value_to_nix(&doc),
        "{ users = { alice = { __pkl_class = \"User\"; name = \"Alice\"; age = 30; }; }; }"
    );
}

#[test]
fn empty_object_of_a_class_keeps_its_class() {
    let value = PklValue::Object(vec![], Some("User".to_string()));
    assert_eq!(pkl_value_to_nix(&value), "{ __pkl_class = \"User\"; }");
    assert_eq!(
        pkl_value_to_nix_with_options(&value, SerializeOptions::data_only()),
        "{ }"
    );
}

#[test]
fn data_only_drops_class_and_null_fields() {
    let value = object(
        vec![("a", PklValue::Null), ("b", PklValue::Int(2)), ("c", PklValue::List(vec![PklValue::Null]))],
        Some("Thing"),
    );
    assert_eq!(
        pkl_value_to_nix_with_options(&value, SerializeOptions::data_only()),
        "{ b = 2; c = [\n    null\n  ]; }"
    );
    assert_eq!(
        pkl_value_to_nix_with_options(&value, SerializeOptions::default()),
        "{ __pkl_class = \"Thing\"; a = null; b = 2; c = [\n    null\n  ]; }"
    );
}

#[test]
fn data_only_object_of_nulls_is_empty_set() {
    let value = object(vec![("a", PklValue::Null)], None);
    assert_eq!(
        pkl_value_to_nix_with_options(&value, SerializeOptions::data_only()),
        "{ }"
    );
}

#[test]
fn lambda_is_a_placeholder_string() {
    assert_eq!(pkl_value_to_nix(&PklValue::Lambda), "\"<lambda>\"");
}

#[test]
fn int_extremes() {
    assert_eq!(pkl_value_to_nix(&PklValue::Int(i64::MIN)), "-9223372036854775808");
    assert_eq!(pkl_value_to_nix(&PklValue::Int(i64::MAX)), "9223372036854775807");
    assert_eq!(pkl_value_to_nix(&PklValue::Int(1000)), "1000");
}

#[test]
fn float_texts() {
    assert_eq!(format_nix_float(&FloatText::PosInfinity), "Infinity");
    assert_eq!(format_nix_float(&FloatText::NegInfinity), "-Infinity");
    assert_eq!(format_nix_float(&FloatText::NaN), "NaN");
    assert_eq!(format_nix_float(&FloatText::Finite("1e300".into())), "1e300");
    assert_eq!(format_nix_float(&FloatText::Finite(format!("{}", -3.0f64))), "-3.0");
    assert_eq!(format_nix_float(&FloatText::Finite(format!("{}", 0.1f64))), "0.1");
}

#[test]
fn strings_are_always_escaped() {
    assert_eq!(
        format_nix_string("a\"b\\c\n${d}"),
        "\"a\\\"b\\\\c\n\\${d}\""
    );
    assert_eq!(format_nix_string("it''s \"x\""), "\"it''s \\\"x\\\"\"");
    assert_eq!(format_nix_string("a\"${b}"), "\"a\\\"\\${b}\"");
    assert_eq!(format_nix_string("a\"b"), "\"a\\\"b\"");
    assert_eq!(format_nix_string("$${x} $"), "\"$\\${x} $\"");
    assert_eq!(format_nix_string(""), "\"\"");
}

#[test]
fn identifiers() {
    assert!(is_simple_nix_ident("abc"));
    assert!(is_simple_nix_ident("_x-y'z9"));
    assert!(!is_simple_nix_ident(""));
    assert!(!is_simple_nix_ident("9abc"));
    assert!(!is_simple_nix_ident("-a"));
    assert!(!is_simple_nix_ident("a.b"));
    assert!(!is_simple_nix_ident("é"));
}

#[test]
fn quoted_keys_are_escaped() {
    assert_eq!(escape_nix_quoted_key("a b"), "\"a b\"");
    assert_eq!(escape_nix_quoted_key("q\"\\${"), "\"q\\\"\\\\\\${\"");
}

#[test]
fn class_names_are_escaped_like_strings() {
    let value = PklValue::Object(vec![], Some("a\"b".to_string()));
    assert_eq!(pkl_value_to_nix(&value), "{ __pkl_class = \"a\\\"b\"; }");
}

#[test]
fn inner_writer_indents_lists() {
    let list = PklValue::List(vec![PklValue::Int(1)]);
    assert_eq!(
        value_to_nix_inner(&list, 4, SerializeOptions::default()),
        "[\n      1\n    ]"
    );
}

#[test]
fn nesting_depth_counts_containers() {
    assert_eq!(PklValue::Int(1).nesting_depth(), 0);
    let value = object(vec![("xs", PklValue::List(vec![PklValue::List(vec![])]))], None);
    assert_eq!(value.nesting_depth(), 3);
}

#[test]
fn nix_string_law_on_values() {
    // Fully escaped strings read back: every `"` and `\` escaped, `${` escaped.
    let out = format_nix_string("x\n\"y\\${z}");
    assert_eq!(out, "\"x\n\\\"y\\\\\\${z}\"");
}
