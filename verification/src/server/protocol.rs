//! Request-line parsing and response formatting of the server.
use vstd::prelude::*;

use crate::text::{
    chars_eq, chars_of, escape_chars, escape_spec, pad3_spec, push_str, push_u16_padded3,
    quote_chars, quoted_spec, split_first_ws, split_first_ws_spec, string_of, tokenize_quoted,
    tokenize_spec, trim_chars, trim_spec,
};

verus! {

/// Parsed client request line.
pub struct ParsedCommand {
    /// Uppercase command name.
    pub name: String,
    /// Remaining quoted or plain arguments.
    pub args: Vec<String>,
}

/// Why a request line was refused.
pub enum RequestError {
    /// A quoted argument or an escape was left open.
    UnterminatedQuote,
    /// The header is not `C100`; it holds the header that was read.
    UnsupportedHeader(String),
    /// Nothing follows the header.
    MissingBody,
    /// The body holds no token.
    MissingCommandName,
}

/// What `str::to_uppercase` returns for a string. Unicode case mapping is
/// defined by tables, so the result is only named here.
pub uninterp spec fn uppercase_of(s: Seq<char>) -> Seq<char>;

/// Whether every character of `s` is ASCII.
pub open spec fn all_ascii(s: Seq<char>) -> bool {
    forall|i: int| 0 <= i < s.len() ==> (#[trigger] s[i] as u32) < 128
}

/// ASCII upper case of one character.
pub open spec fn ascii_upper_char(c: char) -> char {
    if 'a' <= c <= 'z' {
        ((c as u32) - 32) as char
    } else {
        c
    }
}

/// ASCII upper case of a string.
pub open spec fn ascii_upper(s: Seq<char>) -> Seq<char> {
    s.map_values(|c: char| ascii_upper_char(c))
}

/// Calls `str::to_uppercase`. Trusted: the result is the Unicode upper-case
/// mapping of `s`, named `uppercase_of`; on ASCII text that mapping changes
/// `a`..`z` into `A`..`Z` and keeps every other character, as the Unicode
/// tables and the standard library documentation give it.
#[verifier::external_body]
fn to_uppercase(s: &str) -> (r: String)
    ensures
        r@ == uppercase_of(s@),
        all_ascii(s@) ==> r@ == ascii_upper(s@),
{
    s.to_uppercase()
}

/// The header and the body of a request line: the trimmed line split at its
/// first whitespace character.
pub open spec fn request_split(line: Seq<char>) -> (Seq<char>, Option<Seq<char>>) {
    split_first_ws_spec(trim_spec(line))
}

/// Whether `parse_request_line` accepts `line`.
pub open spec fn request_accepted(line: Seq<char>) -> bool {
    let (header, body) = request_split(line);
    &&& header == "C100"@
    &&& body is Some
    &&& tokenize_spec(body->0) is Some
    &&& tokenize_spec(body->0)->0.len() > 0
}

/// The tokens of an accepted request line (command name first).
pub open spec fn request_tokens(line: Seq<char>) -> Seq<Seq<char>> {
    tokenize_spec(request_split(line).1->0)->0
}

/// Tokenizes a request body: whitespace separates tokens, double quotes group
/// words, and a backslash inside quotes escapes the next character.
pub fn tokenize(input: &str) -> (r: Result<Vec<String>, RequestError>)
    ensures
        r is Ok == tokenize_spec(input@) is Some,
        r matches Ok(t) ==> t.deep_view() == tokenize_spec(input@)->0,
        r matches Err(e) ==> e is UnterminatedQuote,
{
    match tokenize_quoted(input) {
        Some(t) => Ok(t),
        None => Err(RequestError::UnterminatedQuote),
    }
}

/// Parse a client request line into a command name and argument list.
pub fn parse_request_line(line: &str) -> (r: Result<ParsedCommand, RequestError>)
    ensures
        r is Ok == request_accepted(line@),
        r matches Ok(p) ==> {
            &&& p.name@ == uppercase_of(request_tokens(line@)[0])
            &&& all_ascii(request_tokens(line@)[0]) ==> p.name@ == ascii_upper(
                request_tokens(line@)[0],
            )
            &&& p.args.deep_view() == request_tokens(line@).drop_first()
        },
        r matches Err(e) ==> {
            let (header, body) = request_split(line@);
            &&& (e matches RequestError::UnsupportedHeader(h) <==> header != "C100"@)
            &&& e matches RequestError::UnsupportedHeader(h) ==> h@ == header
            &&& (e is MissingBody <==> header == "C100"@ && body is None)
            &&& (e is UnterminatedQuote <==> header == "C100"@ && body is Some && tokenize_spec(
                body->0,
            ) is None)
            &&& (e is MissingCommandName <==> header == "C100"@ && body is Some && tokenize_spec(
                body->0,
            ) is Some && tokenize_spec(body->0)->0.len() == 0)
        },
{
    let chars = chars_of(line);
    let trimmed = trim_chars(chars.as_slice());
    let (header, body) = split_first_ws(trimmed.as_slice());
    let c100 = chars_of("C100");
    if !chars_eq(header.as_slice(), c100.as_slice()) {
        return Err(RequestError::UnsupportedHeader(string_of(header.as_slice())));
    }
    let body = match body {
        Some(b) => b,
        None => return Err(RequestError::MissingBody),
    };
    let body_text = string_of(body.as_slice());
    let tokens = tokenize(body_text.as_str())?;
    if tokens.len() == 0 {
        return Err(RequestError::MissingCommandName);
    }
    let name = to_uppercase(tokens[0].as_str());
    let mut args: Vec<String> = Vec::new();
    let mut i: usize = 1;
    while i < tokens.len()
        invariant
            1 <= i <= tokens@.len(),
            args.deep_view() == tokens.deep_view().subrange(1, i as int),
        decreases tokens@.len() - i,
    {
        let ghost before = args.deep_view();
        let t = tokens[i].clone();
        args.push(t);
        assert(args.deep_view() =~= before.push(t@));
        assert(args.deep_view() =~= tokens.deep_view().subrange(1, i + 1));
        i = i + 1;
    }
    assert(args.deep_view() =~= tokens.deep_view().drop_first());
    Ok(ParsedCommand { name, args })
}

/// Escapes backslashes and double quotes of a response argument.
pub fn quote_argument(value: &str) -> (r: String)
    ensures
        r@ == escape_spec(value@),
{
    let v = chars_of(value);
    let e = escape_chars(v.as_slice());
    string_of(e.as_slice())
}

/// The text of a response line.
pub open spec fn response_spec(code: u16, body: Option<Seq<char>>) -> Seq<char> {
    match body {
        Some(text) => seq!['R'] + pad3_spec(code as nat) + seq![' '] + text + seq!['\r', '\n'],
        None => seq!['R'] + pad3_spec(code as nat) + seq!['\r', '\n'],
    }
}

/// The characters of an optional string slice.
pub open spec fn opt_str_view(body: Option<&str>) -> Option<Seq<char>> {
    match body {
        Some(b) => Some(b@),
        None => None,
    }
}

/// Format a server response line: `R`, the code on three digits, the body
/// after a space when there is one, and CRLF.
pub fn response(code: u16, body: Option<&str>) -> (r: String)
    ensures
        r@ == response_spec(code, opt_str_view(body)),
{
    let mut out: Vec<char> = Vec::new();
    out.push('R');
    push_u16_padded3(&mut out, code);
    match body {
        Some(text) => {
            out.push(' ');
            push_str(&mut out, text);
        },
        None => {},
    }
    out.push('\r');
    out.push('\n');
    assert(out@ =~= response_spec(code, opt_str_view(body)));
    string_of(out.as_slice())
}

/// Quote and escape a response argument.
pub fn quoted(value: &str) -> (r: String)
    ensures
        r@ == quoted_spec(value@),
{
    let q = quote_chars(value);
    string_of(q.as_slice())
}

} // verus!
