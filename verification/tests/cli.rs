use pklx::cli::{json_value_to_pkl, wrap_nixos_module, JsonNumber, JsonValue};
use pklx::nix_serializer::{pkl_value_to_nix, PklValue};

#[test]
fn json_scalars() {
    assert_eq!(json_value_to_pkl(&JsonValue::Null, 0), "null");
    assert_eq!(json_value_to_pkl(&JsonValue::Bool(false), 0), "false");
    assert_eq!(json_value_to_pkl(&JsonValue::Number(JsonNumber::Int(-12)), 0), "-12");
    assert_eq!(
        json_value_to_pkl(&JsonValue::Number(JsonNumber::Float(format!("{}", 3.0f64))), 0),
        "3.0"
    );
    assert_eq!(
        json_value_to_pkl(&JsonValue::Number(JsonNumber::Float(format!("{}", 0.5f64))), 0),
        "0.5"
    );
    assert_eq!(json_value_to_pkl(&JsonValue::String("hi".into()), 0), "\"hi\"");
    assert_eq!(
        json_value_to_pkl(&JsonValue::String("a\"b\\\n".into()), 0),
        "\"a\\\"b\\\\\\n\""
    );
    assert_eq!(
        json_value_to_pkl(&JsonValue::Number(JsonNumber::Text("123456789012345678901234567890".into())), 0),
        "123456789012345678901234567890"
    );
    assert_eq!(
        json_value_to_pkl(&JsonValue::Number(JsonNumber::Float(format!("{}", u64::MAX as f64))), 0),
        "18446744073709552000.0"
    );
}

#[test]
fn json_empty_containers() {
    assert_eq!(json_value_to_pkl(&JsonValue::Array(vec![]), 0), "new Listing {}");
    assert_eq!(json_value_to_pkl(&JsonValue::Object(vec![]), 0), "new {}");
}

#[test]
fn json_nested() {
    let v = JsonValue::Object(vec![
        ("host".into(), JsonValue::String("example.com".into())),
        ("port".into(), JsonValue::Number(JsonNumber::Int(443))),
        (
            "tags".into(),
            JsonValue::Array(vec![JsonValue::String("a".into()), JsonValue::Null]),
        ),
    ]);
    assert_eq!(
        json_value_to_pkl(&v, 0),
        "new {\n  host = \"example.com\"\n  port = 443\n  tags = new {\n    \"a\"\n    null\n  }\n}"
    );
    assert_eq!(v.nesting_depth(), 2);
}

#[test]
fn json_member_names() {
    let v = JsonValue::Object(vec![
        ("ok_name1".into(), JsonValue::Null),
        ("my-key".into(), JsonValue::Null),
        ("class".into(), JsonValue::Null),
        ("a\"b".into(), JsonValue::Null),
        ("".into(), JsonValue::Null),
    ]);
    assert_eq!(
        json_value_to_pkl(&v, 0),
        "new {\n  ok_name1 = null\n  [\"my-key\"] = null\n  [\"class\"] = null\n  [\"a\\\"b\"] = null\n  [\"\"] = null\n}"
    );
}

#[test]
fn json_member_names_follow_pkl_identifiers() {
    let v = JsonValue::Object(vec![
        ("a$b".into(), JsonValue::Number(JsonNumber::Int(1))),
        ("$x".into(), JsonValue::Null),
        ("café".into(), JsonValue::Null),
        ("x١".into(), JsonValue::Null),
        ("1abc".into(), JsonValue::Null),
        ("a b".into(), JsonValue::Null),
        ("null".into(), JsonValue::Null),
    ]);
    assert_eq!(
        json_value_to_pkl(&v, 0),
        "new {\n  a$b = 1\n  $x = null\n  café = null\n  x١ = null\n  [\"1abc\"] = null\n  [\"a b\"] = null\n  [\"null\"] = null\n}"
    );
}

#[test]
fn module_of_object() {
    let entries = vec![
        ("host".to_string(), PklValue::String("example.com".into())),
        ("port".to_string(), PklValue::Int(443)),
        ("tls".to_string(), PklValue::Bool(true)),
    ];
    let nix = pkl_value_to_nix(&PklValue::Object(entries, None));
    assert_eq!(
        wrap_nixos_module(&nix),
        "{ config, pkgs, ... }: {\n  host = \"example.com\"; port = 443; tls = true;\n}"
    );
}

#[test]
fn module_of_other_expressions() {
    assert_eq!(wrap_nixos_module("  42 \n"), "{ config, pkgs, ... }: {\n  42\n}");
    assert_eq!(wrap_nixos_module("{}"), "{ config, pkgs, ... }: {\n  \n}");
    assert_eq!(wrap_nixos_module("{"), "{ config, pkgs, ... }: {\n  {\n}");
    assert_eq!(wrap_nixos_module("\t{ a = 1; }\u{3000}"), "{ config, pkgs, ... }: {\n  a = 1;\n}");
}
