use my_teams::json::JsonIoError;
use my_teams::json_reader::{parse_json_object, parse_json_value, RawJson};
use my_teams::json_writer::{stringify_json_object, stringify_json_value};

fn create_test_json() -> Vec<(String, RawJson)> {
    vec![
        ("field boolean".to_string(), RawJson::Bool(false)),
        ("field number".to_string(), RawJson::Number("-9876543210.0123".to_string())),
        ("field string".to_string(), RawJson::Str("wawa".to_string())),
    ]
}

fn member<'a>(obj: &'a [(String, RawJson)], key: &str) -> Option<&'a RawJson> {
    obj.iter().find(|(k, _)| k == key).map(|(_, v)| v)
}

fn parse_error(text: &str) -> (String, usize) {
    match parse_json_value(text) {
        Err(JsonIoError::Parse { message, position }) => (message, position),
        Err(other) => panic!("unexpected error kind: {}", other.message()),
        Ok(_) => panic!("expected a parse error for {text:?}"),
    }
}

#[test]
fn basic_json_object_creation() {
    let obj = create_test_json();
    assert!(matches!(member(&obj, "field string"), Some(RawJson::Str(s)) if s == "wawa"));
    assert!(matches!(member(&obj, "field number"), Some(RawJson::Number(n)) if n == "-9876543210.0123"));
    assert!(matches!(member(&obj, "field boolean"), Some(RawJson::Bool(false))));
    assert!(member(&obj, "nonexistent").is_none());
}

#[test]
fn json_object_stringification() {
    let obj = create_test_json();
    assert_eq!(stringify_json_value(member(&obj, "field string").unwrap()), r#""wawa""#);
    assert_eq!(stringify_json_value(member(&obj, "field number").unwrap()), "-9876543210.0123");
    assert_eq!(stringify_json_value(member(&obj, "field boolean").unwrap()), "false");
}

#[test]
fn json_stringification() {
    let obj = create_test_json();
    let json = stringify_json_object(&obj).ok().unwrap();
    assert_eq!(
        json,
        r#"{"field boolean":false,"field number":-9876543210.0123,"field string":"wawa"}"#
    );
}

#[test]
fn json_file_writing() {
    let obj = create_test_json();
    let json = stringify_json_object(&obj).ok().unwrap();
    let back = parse_json_object(&json).ok().expect("written text reads back");
    assert!(matches!(member(&back, "field string"), Some(RawJson::Str(s)) if s == "wawa"));
    assert!(matches!(member(&back, "field number"), Some(RawJson::Number(n)) if n == "-9876543210.0123"));
    assert!(matches!(member(&back, "field boolean"), Some(RawJson::Bool(false))));
    assert!(member(&back, "nonexistent").is_none());
}

#[test]
fn object_keys_are_sorted_and_last_wins() {
    let back = parse_json_object(r#"{ "b": 1, "a": 2, "b": 3 }"#).ok().unwrap();
    assert_eq!(back.len(), 2);
    assert_eq!(back[0].0, "a");
    assert_eq!(back[1].0, "b");
    assert!(matches!(&back[1].1, RawJson::Number(n) if n == "3"));
    assert_eq!(stringify_json_object(&back).ok().unwrap(), r#"{"a":2,"b":3}"#);
}

#[test]
fn nested_document_reads() {
    let v = parse_json_value(" [ null , true, [ ], { } , -0.5e+3, \"x\" ] ").ok().unwrap();
    assert_eq!(stringify_json_value(&v), r#"[null,true,[],{},-0.5e+3,"x"]"#);
}

#[test]
fn strings_escape_and_unescape() {
    let v = parse_json_value(r#""a\"b\\c\/d\n\t\u0041\u00e9""#).ok().unwrap();
    assert!(matches!(&v, RawJson::Str(s) if s == "a\"b\\c/d\n\tAé"));
    let written = stringify_json_value(&RawJson::Str("q\"\\\n\r\t\u{8}\u{c}\u{1}é".to_string()));
    assert_eq!(written, "\"q\\\"\\\\\\n\\r\\t\\b\\f\\u0001é\"");
    let again = parse_json_value(&written).ok().unwrap();
    assert!(matches!(&again, RawJson::Str(s) if s == "q\"\\\n\r\t\u{8}\u{c}\u{1}é"));
}

#[test]
fn parse_errors_report_byte_positions() {
    assert_eq!(parse_error(""), ("unexpected end of input while parsing JSON value".to_string(), 0));
    assert_eq!(parse_error("nul"), ("invalid literal".to_string(), 0));
    assert_eq!(parse_error("tru"), ("invalid boolean literal".to_string(), 0));
    assert_eq!(parse_error("-"), ("invalid number format".to_string(), 1));
    assert_eq!(parse_error("1."), ("fractional part requires at least one digit".to_string(), 2));
    assert_eq!(parse_error("1e+"), ("exponent requires at least one digit".to_string(), 3));
    assert_eq!(parse_error("[1 2]"), ("expected ',' or ']' in array".to_string(), 4));
    assert_eq!(parse_error("[1"), ("expected ',' or ']' in array".to_string(), 2));
    assert_eq!(parse_error("{\"a\" 1}"), ("unexpected token".to_string(), 6));
    assert_eq!(parse_error("{a:1}"), ("expected opening quote for string".to_string(), 2));
    assert_eq!(parse_error("{\"a\":1;"), ("expected ',' or '}' in object".to_string(), 7));
    assert_eq!(parse_error("\"abc"), ("unterminated string literal".to_string(), 4));
    assert_eq!(parse_error("\"\\q\""), ("invalid escape sequence".to_string(), 3));
    assert_eq!(parse_error("\"\\u12\""), ("invalid hex digit in unicode escape".to_string(), 6));
    assert_eq!(parse_error("\"\\ud800\""), ("invalid unicode escape code point".to_string(), 7));
    assert_eq!(parse_error("\"a\u{1}\""), ("control characters are not allowed in strings".to_string(), 3));
    assert_eq!(parse_error("1 2"), ("trailing characters after valid JSON".to_string(), 2));
    assert_eq!(parse_error("?"), ("unexpected token while parsing JSON value".to_string(), 0));
}

#[test]
fn error_positions_count_utf8_bytes() {
    assert_eq!(parse_error("[\"é\" x]"), ("expected ',' or ']' in array".to_string(), 7));
    assert_eq!(parse_error("\"\\é\""), ("invalid escape sequence".to_string(), 3));
}

#[test]
fn non_object_root_is_rejected() {
    match parse_json_object("[1]") {
        Err(JsonIoError::InvalidRootType(m)) => assert_eq!(m, "expected a JSON object at top level"),
        _ => panic!("expected an invalid root error"),
    }
}

#[test]
fn rewriting_a_read_document_reads_back_the_same() {
    let text = r#" { "z" : [1, 2.50, -0e-0], "a": {"y": "\u00e9\n", "x": null}, "a": false } "#;
    let first = parse_json_value(text).ok().unwrap();
    let written = stringify_json_value(&first);
    assert_eq!(written, r#"{"a":false,"z":[1,2.50,-0e-0]}"#);
    let second = parse_json_value(&written).ok().unwrap();
    assert_eq!(stringify_json_value(&second), written);
}
