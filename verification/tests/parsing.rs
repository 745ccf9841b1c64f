//! End-to-end tests: register a JSON grammar, parse documents, serialize.
use instant_json::error::InstantJsonError;
use instant_json::json::JsonValue;
use instant_json::InstantJson;

const JSON_GRAMMAR: &str = r#"
root = { object ~ EOI }
object = { "{" ~ pair ~ ("," ~ pair)* ~ "}" | "{" ~ "}" }
pair = { string ~ ":" ~ value }
array = { "[" ~ value ~ ("," ~ value)* ~ "]" | "[" ~ "]" }
value = _{ object | array | string | number | bool | null }
bool = { "true" | "false" }
null = { "null" }
string = @{ "\"" ~ inner ~ "\"" }
inner = @{ chr* }
chr = { !("\"" | "\\") ~ ANY | "\\" ~ ("\"" | "\\" | "/" | "b" | "f" | "n" | "r" | "t") | "\\" ~ "u" ~ ASCII_HEX_DIGIT{4} }
number = @{ "-"? ~ int ~ ("." ~ ASCII_DIGIT+)? ~ (("e" | "E") ~ ("+" | "-")? ~ ASCII_DIGIT+)? }
int = @{ "0" | ASCII_NONZERO_DIGIT ~ ASCII_DIGIT* }
"#;

fn simple_test_init() -> InstantJson {
    let mut ij = InstantJson::new();
    let res = ij.compile("simple_schema", JSON_GRAMMAR);
    assert!(res.is_ok(), "error while compiling rules");
    ij
}

fn is_invertible(res: Result<JsonValue, InstantJsonError>, input: &str) {
    encodes_to(res, input);
}

fn encodes_to(res: Result<JsonValue, InstantJsonError>, expected: &str) {
    match res {
        Err(e) => panic!("got error: {}", e.message()),
        Ok(obj) => {
            assert!(matches!(obj, JsonValue::JsonObject(_)));
            assert_eq!(obj.serialize(), expected);
        }
    }
}

#[test]
fn test_parse_pest() {
    let mut ij = InstantJson::new();
    let res = ij.compile("simple_schema", JSON_GRAMMAR);
    assert!(res.is_ok(), "error while compiling rules");
    let p_res = ij.parse("simple_schema", r#"{"hello":1}"#);
    assert!(p_res.is_ok());
}

#[test]
fn test_parse_number() {
    let ij = simple_test_init();
    let input = r#"{"hello":1}"#;
    let p_res = ij.parse("simple_schema", input);
    is_invertible(p_res, input);
}

#[test]
fn test_parse_string() {
    let ij = simple_test_init();
    let input = r#"{"hello":"world"}"#;
    let p_res = ij.parse("simple_schema", input);
    is_invertible(p_res, input);
}

#[test]
fn test_parse_nested_once() {
    let ij = simple_test_init();
    let input = r#"{"hello":{"world":1}}"#;
    let p_res = ij.parse("simple_schema", input);
    is_invertible(p_res, input);
}

#[test]
fn test_parse_nested_twice() {
    let ij = simple_test_init();
    let input = r#"{"hello":{"world":{"test":1}}}"#;
    let p_res = ij.parse("simple_schema", input);
    is_invertible(p_res, input);
}

#[test]
fn test_parse_null() {
    let ij = simple_test_init();
    let input = r#"{"hello":null}"#;
    let p_res = ij.parse("simple_schema", input);
    is_invertible(p_res, input);
}

#[test]
fn test_parse_array() {
    let ij = simple_test_init();
    let input = r#"{"hello":[1,2,3]}"#;
    let p_res = ij.parse("simple_schema", input);
    is_invertible(p_res, input);
}

#[test]
fn test_parse_array_with_obj() {
    let ij = simple_test_init();
    let input = r#"{"hello":[1,2,{"foo":"bar"}]}"#;
    let p_res = ij.parse("simple_schema", input);
    is_invertible(p_res, input);
}

#[test]
fn test_parse_array_empty() {
    let ij = simple_test_init();
    let input = r#"{"items":[]}"#;
    let p_res = ij.parse("simple_schema", input);
    is_invertible(p_res, input);
}

#[test]
fn test_parse_array_in_obj() {
    let ij = simple_test_init();
    let input = r#"{"obj":{"items":[]}}"#;
    let p_res = ij.parse("simple_schema", input);
    is_invertible(p_res, input);
}

#[test]
fn test_parse_i_number_double_huge_neg_exp() {
    let ij = simple_test_init();
    let input = r#"{"val":123.456e-789}"#;
    let p_res = ij.parse("simple_schema", input);
    encodes_to(p_res, r#"{"val":0}"#);
}

#[test]
fn test_huge_neg_exp_is_number_zero() {
    let ij = simple_test_init();
    let v = ij.parse("simple_schema", r#"{"val":123.456e-789}"#).unwrap();
    match v {
        JsonValue::JsonObject(entries) => {
            assert_eq!(entries.len(), 1);
            assert_eq!(entries[0].0, "val");
            match &entries[0].1 {
                JsonValue::JsonNumber(t) => assert_eq!(t, "0"),
                other => panic!("expected a number, got {:?}", other),
            }
        }
        other => panic!("expected an object, got {:?}", other),
    }
}

#[test]
fn test_parse_empty_string_value() {
    let ij = simple_test_init();
    let input = r#"{"hello":""}"#;
    let p_res = ij.parse("simple_schema", input);
    is_invertible(p_res, input);
}

#[test]
fn test_parse_multiple_scalars_in_array() {
    let ij = simple_test_init();
    let input = r#"{"a":["x","y",null]}"#;
    let p_res = ij.parse("simple_schema", input);
    is_invertible(p_res, input);
}

#[test]
fn test_missing_schema_not_found() {
    let ij = simple_test_init();
    let res = ij.parse("unknown", r#"{"hello":1}"#);
    assert!(matches!(res, Err(InstantJsonError::NotFound)));
    // the registry is untouched: the registered schema still parses
    let p_res = ij.parse("simple_schema", r#"{"hello":1}"#);
    is_invertible(p_res, r#"{"hello":1}"#);
}

#[test]
fn test_reregistration_replaces_program() {
    let mut ij = InstantJson::new();
    ij.compile("s", JSON_GRAMMAR).unwrap();
    is_invertible(ij.parse("s", r#"{"hello":1}"#), r#"{"hello":1}"#);
    // an empty-object-only grammar replaces the full one
    let strict = r#"
root = { object ~ EOI }
object = { "{" ~ "}" }
"#;
    ij.compile("s", strict).unwrap();
    assert!(ij.parse("s", r#"{"hello":1}"#).is_err());
    is_invertible(ij.parse("s", r#"{}"#), r#"{}"#);
}

#[test]
fn test_invalid_grammar_keeps_old_program() {
    let mut ij = InstantJson::new();
    ij.compile("s", JSON_GRAMMAR).unwrap();
    let res = ij.compile("s", "root = {");
    assert!(matches!(
        res,
        Err(InstantJsonError::GrammarParse { .. }) | Err(InstantJsonError::Multiple(_))
    ));
    // the failed compile left the earlier program usable
    is_invertible(ij.parse("s", r#"{"hello":1}"#), r#"{"hello":1}"#);
}

#[test]
fn test_grammar_with_undefined_rule_fails() {
    let mut ij = InstantJson::new();
    let res = ij.compile("s", "root = { missing_rule }");
    assert!(matches!(
        res,
        Err(InstantJsonError::GrammarParse { .. }) | Err(InstantJsonError::Multiple(_))
    ));
}

#[test]
fn test_number_format_error() {
    // a grammar that tags arbitrary words as numbers: the reducer rejects
    // a word that is no float literal
    let loose = r#"
root = { object ~ EOI }
object = { "{" ~ pair ~ "}" }
pair = { string ~ ":" ~ number }
string = @{ "\"" ~ (!"\"" ~ ANY)* ~ "\"" }
number = @{ (!"}" ~ ANY)+ }
"#;
    let mut ij = InstantJson::new();
    ij.compile("loose", loose).unwrap();
    let res = ij.parse("loose", r#"{"a":bogus}"#);
    match res {
        Err(InstantJsonError::FloatParse { literal }) => assert_eq!(literal, "bogus"),
        other => panic!("expected a number format error, got {:?}", other),
    }
}

#[test]
fn test_unrecognized_wrapper_tag_is_traversed() {
    // `value` is not silent here, so every value is wrapped in a span with
    // an unrecognized tag; the content underneath must still be collected
    let wrapped = r#"
root = { object ~ EOI }
object = { "{" ~ pair ~ ("," ~ pair)* ~ "}" | "{" ~ "}" }
pair = { string ~ ":" ~ value }
array = { "[" ~ value ~ ("," ~ value)* ~ "]" | "[" ~ "]" }
value = { object | array | string | number | null }
null = { "null" }
string = @{ "\"" ~ (!"\"" ~ ANY)* ~ "\"" }
number = @{ "-"? ~ ASCII_DIGIT+ ~ ("." ~ ASCII_DIGIT+)? }
"#;
    let mut ij = InstantJson::new();
    ij.compile("wrapped", wrapped).unwrap();
    is_invertible(ij.parse("wrapped", r#"{"hello":1}"#), r#"{"hello":1}"#);
    is_invertible(ij.parse("wrapped", r#"{"a":[1]}"#), r#"{"a":[1]}"#);
    is_invertible(ij.parse("wrapped", r#"{"a":{"b":null}}"#), r#"{"a":{"b":null}}"#);
}

#[test]
fn test_grammar_without_root_rule() {
    // a valid grammar that defines no rule named root compiles, and every
    // parse against it reports the missing entry rule
    let mut ij = InstantJson::new();
    ij.compile("s", r#"only = { "x" }"#).unwrap();
    match ij.parse("s", "x") {
        Err(InstantJsonError::JsonParse { message }) => {
            assert_eq!(message, "grammar has no rule named root")
        }
        other => panic!("expected a missing-root error, got {:?}", other),
    }
}

#[test]
fn test_grammar_with_overflowing_escape_is_rejected() {
    // the compiler cannot carry a \u escape beyond the scalar range; the
    // screen turns it into a compile error instead
    let mut ij = InstantJson::new();
    let res = ij.compile("s", r#"root = { "\u{110000}" }"#);
    assert!(matches!(res, Err(InstantJsonError::GrammarParse { .. })));
    let res2 = ij.compile("s", r#"root = { "\u{d800}" }"#);
    assert!(matches!(res2, Err(InstantJsonError::GrammarParse { .. })));
    // a scalar-valued escape passes the screen and compiles
    let ok = ij.compile("s", r#"root = { "\u{0041}" ~ EOI }"#);
    assert!(ok.is_ok());
}

#[test]
fn test_big_number_in_string_compiles_without_peek() {
    // the integer screen applies only to grammars that use PEEK: a long
    // digit run inside a string literal is harmless and compiles
    let mut ij = InstantJson::new();
    let ok = ij.compile("s", r#"root = { "99999999999" ~ EOI }"#);
    assert!(ok.is_ok());
}

#[test]
fn test_multiple_error_message_carries_diagnostics() {
    // a batch of compiler diagnostics is rendered into the message
    let mut ij = InstantJson::new();
    let res = ij.compile("s", "root = { missing_rule }");
    match res {
        Err(InstantJsonError::Multiple(v)) => {
            assert!(!v.is_empty());
            let m = InstantJsonError::Multiple(v.clone()).message();
            assert!(m.starts_with("multiple errors: "));
            assert!(m.contains(&v[0]));
        }
        Err(InstantJsonError::GrammarParse { message }) => {
            // a single parse diagnostic is also carried in the message
            let m = InstantJsonError::GrammarParse { message: message.clone() }.message();
            assert!(m.contains(&message));
        }
        other => panic!("expected a compile error, got {:?}", other),
    }
}

#[test]
fn test_grammar_with_overflowing_peek_bound_is_rejected() {
    // an integer beyond the 32-bit range in a PEEK slice would abort the
    // compiler; the screen turns it into a compile error instead
    let mut ij = InstantJson::new();
    let res = ij.compile("s", r#"root = { PUSH("a") ~ PEEK[99999999999..] ~ EOI }"#);
    assert!(matches!(res, Err(InstantJsonError::GrammarParse { .. })));
    let ok = ij.compile("s", r#"root = { PUSH("a") ~ PEEK[0..] ~ EOI }"#);
    assert!(ok.is_ok());
}

#[test]
fn test_unmatched_input_is_json_parse_error() {
    let ij = simple_test_init();
    let res = ij.parse("simple_schema", "not json at all");
    assert!(matches!(res, Err(InstantJsonError::JsonParse { .. })));
}

#[test]
fn test_bool_tag_is_skipped() {
    // the recognized tag set has no `bool`: a bool span attaches nothing,
    // and the pair's key stays without a value
    let ij = simple_test_init();
    let v = ij.parse("simple_schema", r#"{"hello":true}"#).unwrap();
    assert_eq!(v.serialize(), "{}");
}
