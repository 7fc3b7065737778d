use my_teams::server::protocol::{parse_request_line, quoted, response, tokenize};

#[test]
fn parse_request_line_valid_command() {
    let line = "C100 LOGIN \"alice\"";
    let result = parse_request_line(line).ok().unwrap();
    assert_eq!(result.name, "LOGIN");
    assert_eq!(result.args, vec!["alice"]);
}

#[test]
fn parse_request_line_command_without_args() {
    let line = "C100 USERS";
    let result = parse_request_line(line).ok().unwrap();
    assert_eq!(result.name, "USERS");
    assert!(result.args.is_empty());
}

#[test]
fn parse_request_line_command_with_multiple_args() {
    let line = "C100 SEND \"uuid-bob\" \"hello world\"";
    let result = parse_request_line(line).ok().unwrap();
    assert_eq!(result.name, "SEND");
    assert_eq!(result.args.len(), 2);
    assert_eq!(result.args[0], "uuid-bob");
    assert_eq!(result.args[1], "hello world");
}

#[test]
fn parse_request_line_lowercase_becomes_uppercase() {
    let line = "C100 login \"alice\"";
    let result = parse_request_line(line).ok().unwrap();
    assert_eq!(result.name, "LOGIN");
}

#[test]
fn parse_request_line_invalid_header() {
    let line = "C101 LOGIN \"alice\"";
    let result = parse_request_line(line);
    assert!(result.is_err());
}

#[test]
fn parse_request_line_missing_header() {
    let line = "LOGIN \"alice\"";
    let result = parse_request_line(line);
    assert!(result.is_err());
}

#[test]
fn parse_request_line_missing_body() {
    let line = "C100";
    let result = parse_request_line(line);
    assert!(result.is_err());
}

#[test]
fn parse_request_line_empty_body_is_error() {
    let line = "C100 ";
    let result = parse_request_line(line);
    assert!(result.is_err());
}

#[test]
fn response_with_body() {
    let result = response(200, Some("OK"));
    assert_eq!(result, "R200 OK\r\n");
}

#[test]
fn response_without_body() {
    let result = response(404, None);
    assert_eq!(result, "R404\r\n");
}

#[test]
fn response_formats_code_with_leading_zeros() {
    let result = response(1, Some("Code"));
    assert_eq!(result, "R001 Code\r\n");
}

#[test]
fn quoted_wraps_string_in_quotes() {
    let result = quoted("hello");
    assert_eq!(result, "\"hello\"");
}

#[test]
fn quoted_escapes_internal_quotes() {
    let result = quoted("hello\"world");
    assert_eq!(result, "\"hello\\\"world\"");
}

#[test]
fn quoted_escapes_backslashes() {
    let result = quoted("path\\to\\file");
    assert_eq!(result, "\"path\\\\to\\\\file\"");
}

#[test]
fn tokenize_plain_words() {
    let result = tokenize("foo bar baz").ok().unwrap();
    assert_eq!(result, vec!["foo", "bar", "baz"]);
}

#[test]
fn tokenize_quoted_string() {
    let result = tokenize("\"hello world\"").ok().unwrap();
    assert_eq!(result, vec!["hello world"]);
}

#[test]
fn tokenize_mixed_quoted_and_plain() {
    let result = tokenize("foo \"bar baz\" qux").ok().unwrap();
    assert_eq!(result, vec!["foo", "bar baz", "qux"]);
}

#[test]
fn tokenize_escaped_quote_inside_string() {
    let result = tokenize("\"hello\\\"world\"").ok().unwrap();
    assert_eq!(result, vec!["hello\"world"]);
}

#[test]
fn tokenize_escaped_backslash() {
    let result = tokenize("\"path\\\\ escaped\"").ok().unwrap();
    assert_eq!(result, vec!["path\\ escaped"]);
}

#[test]
fn tokenize_unterminated_quote_is_error() {
    let result = tokenize("\"unterminated");
    assert!(result.is_err());
}

#[test]
fn tokenize_unterminated_escape_is_error() {
    let result = tokenize("\"text\\");
    assert!(result.is_err());
}

#[test]
fn tokenize_empty_string() {
    let result = tokenize("").ok().unwrap();
    assert!(result.is_empty());
}

#[test]
fn tokenize_only_whitespace() {
    let result = tokenize("   \t  ").ok().unwrap();
    assert!(result.is_empty());
}

#[test]
fn parse_request_line_text_form_with_trailing_space() {
    let result = parse_request_line("C100 users ").ok().unwrap();
    assert_eq!(result.name, "USERS");
    assert!(result.args.is_empty());
    let result = parse_request_line("C100 use \"t\" \"c\"").ok().unwrap();
    assert_eq!(result.name, "USE");
    assert_eq!(result.args, vec!["t", "c"]);
}
