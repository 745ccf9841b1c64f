//! Unit tests: the reducer on hand-built span trees, the number literal
//! rules, the serializer, and error rendering.
use instant_json::error::InstantJsonError;
use instant_json::json::JsonValue;
use instant_json::number::{check_float_literal, normalize_number_text};
use instant_json::reduce::reduce;
use instant_json::span::{span_inner, span_leaf, SpanNode};

fn s(text: &str) -> String {
    text.to_string()
}

fn leaf(tag: &str, text: &str) -> SpanNode {
    span_leaf(s(tag), s(text))
}

fn inner(tag: &str, text: &str, children: Vec<SpanNode>) -> SpanNode {
    span_inner(s(tag), s(text), children)
}

#[test]
fn reduce_no_root_span() {
    match reduce(Vec::new()) {
        Err(InstantJsonError::JsonParse { message }) => assert_eq!(message, "invalid root"),
        other => panic!("expected a root error, got {:?}", other),
    }
}

#[test]
fn reduce_root_without_child() {
    let root = leaf("root", "");
    match reduce(vec![root]) {
        Err(InstantJsonError::JsonParse { message }) => {
            assert_eq!(message, "invalid root object")
        }
        other => panic!("expected a root error, got {:?}", other),
    }
}

#[test]
fn reduce_root_not_object() {
    let root = inner("root", "[]", vec![inner("array", "[]", vec![])]);
    match reduce(vec![root]) {
        Err(InstantJsonError::JsonParse { message }) => {
            assert_eq!(message, "Root needs to be object!")
        }
        other => panic!("expected a root type error, got {:?}", other),
    }
}

#[test]
fn reduce_simple_pair() {
    let pair = inner("pair", "\"a\":1", vec![leaf("string", "\"a\""), leaf("number", "1")]);
    let object = inner("object", "{\"a\":1}", vec![pair]);
    let root = inner("root", "{\"a\":1}", vec![object, leaf("EOI", "")]);
    let v = reduce(vec![root]).unwrap();
    assert_eq!(v.serialize(), r#"{"a":1}"#);
}

#[test]
fn reduce_bad_number_aborts() {
    let pair = inner("pair", "\"a\":x", vec![leaf("string", "\"a\""), leaf("number", "x")]);
    let object = inner("object", "{\"a\":x}", vec![pair]);
    let root = inner("root", "{\"a\":x}", vec![object]);
    match reduce(vec![root]) {
        Err(InstantJsonError::FloatParse { literal }) => assert_eq!(literal, "x"),
        other => panic!("expected a number format error, got {:?}", other),
    }
}

#[test]
fn reduce_duplicate_keys_replace_in_place() {
    // two pairs under one object: pair children are deferred and walked
    // latest first, and inserting an existing key replaces its value, so
    // the first pair's value lands last
    let pair1 = inner("pair", "\"a\":1", vec![leaf("string", "\"a\""), leaf("number", "1")]);
    let pair2 = inner("pair", "\"a\":2", vec![leaf("string", "\"a\""), leaf("number", "2")]);
    let object = inner("object", "{\"a\":1,\"a\":2}", vec![pair1, pair2]);
    let root = inner("root", "{\"a\":1,\"a\":2}", vec![object]);
    let v = reduce(vec![root]).unwrap();
    assert_eq!(v.serialize(), r#"{"a":1}"#);
}

#[test]
fn reduce_unquotes_short_string_spans() {
    // a string span too short to carry both quote delimiters becomes empty
    let pair = inner("pair", "x:1", vec![leaf("string", "x"), leaf("number", "1")]);
    let object = inner("object", "{x:1}", vec![pair]);
    let root = inner("root", "{x:1}", vec![object]);
    let v = reduce(vec![root]).unwrap();
    assert_eq!(v.serialize(), r#"{"":1}"#);
}

#[test]
fn normalize_saturates_giant_exponents() {
    assert_eq!(
        normalize_number_text("1e-99999999999999999999999999"),
        "0"
    );
    assert_eq!(normalize_number_text("1E-400"), "0");
}

#[test]
fn float_literal_grammar_accepts() {
    for ok in [
        "0", "1", "-1", "+1", "1.", ".5", "-.5", "1.5", "1e3", "1E3", "1e+3", "1e-3", "1.5e-3",
        "inf", "-inf", "Infinity", "nan", "NaN",
    ] {
        assert!(check_float_literal(ok), "should accept {:?}", ok);
    }
}

#[test]
fn float_literal_grammar_rejects() {
    for bad in ["", ".", "-", "+", "e3", "1e", "1e+", "--1", "1.2.3", "abc", "1x", "in", "1 "] {
        assert!(!check_float_literal(bad), "should reject {:?}", bad);
    }
}

#[test]
fn normalize_keeps_ordinary_literals() {
    for t in ["1", "1.5", "-2e10", "1e-300", "inf", "nan", "0.001e-321"] {
        assert_eq!(normalize_number_text(t), t);
    }
}

#[test]
fn normalize_flattens_tiny_and_zero_literals() {
    for t in ["123.456e-789", "1e-400", "0", "0.0", "-0", "-0.000", "0e5", "0.0001e-321"] {
        assert_eq!(normalize_number_text(t), "0", "literal {:?}", t);
    }
}

#[test]
fn serialize_scalars() {
    assert_eq!(JsonValue::JsonNull.serialize(), "null");
    assert_eq!(JsonValue::JsonBool(true).serialize(), "true");
    assert_eq!(JsonValue::JsonBool(false).serialize(), "false");
    assert_eq!(JsonValue::JsonNumber(s("1.5")).serialize(), "1.5");
    assert_eq!(JsonValue::JsonString(s("hi")).serialize(), r#""hi""#);
}

#[test]
fn serialize_escapes() {
    let v = JsonValue::JsonString(s("a\"b\\c\nd\te\u{1}f"));
    assert_eq!(v.serialize(), "\"a\\\"b\\\\c\\nd\\te\\u0001f\"");
}

#[test]
fn serialize_containers() {
    let arr = JsonValue::JsonArray(vec![
        JsonValue::JsonNumber(s("1")),
        JsonValue::JsonString(s("x")),
        JsonValue::JsonNull,
    ]);
    let obj = JsonValue::JsonObject(vec![(s("k"), arr), (s("m"), JsonValue::JsonBool(true))]);
    assert_eq!(obj.serialize(), r#"{"k":[1,"x",null],"m":true}"#);
}

#[test]
fn error_messages() {
    assert_eq!(InstantJsonError::NotFound.message(), "not found error");
    assert_eq!(
        InstantJsonError::FloatParse { literal: s("x") }.message(),
        "float parsing error: x"
    );
    assert_eq!(
        InstantJsonError::GrammarParse { message: s("boom") }.message(),
        "grammar parsing error: boom"
    );
    assert_eq!(
        InstantJsonError::EscapeParse.message(),
        "Broken UTF-8 escape sequence"
    );
}
