//! Reading JSON text. The reader works on the characters of the text and
//! reports errors at byte offsets of its UTF-8 encoding. Numbers are kept as
//! the literal text that was read: what a literal stands for as a float is
//! decided by whoever turns it into a value.
use vstd::prelude::*;

use crate::collections::{seq_lt, str_lt};
use crate::json::JsonIoError;
use crate::text::{chars_of, str_eq, string_of, sub_chars};

verus! {

/// A JSON document as read. An object keeps its members in key order, each
/// key once (the last one written wins).
pub enum RawJson {
    Null,
    Bool(bool),
    /// The literal of a number, as written.
    Number(String),
    Str(String),
    Array(Vec<RawJson>),
    Object(Vec<(String, RawJson)>),
}

/// The content of a document.
pub enum RawView {
    Null,
    Bool(bool),
    Number(Seq<char>),
    Str(Seq<char>),
    Array(Seq<RawView>),
    Object(Seq<(Seq<char>, RawView)>),
}

/// The content of a document.
pub open spec fn raw_view(r: RawJson) -> RawView
    decreases r,
{
    match r {
        RawJson::Null => RawView::Null,
        RawJson::Bool(b) => RawView::Bool(b),
        RawJson::Number(t) => RawView::Number(t@),
        RawJson::Str(t) => RawView::Str(t@),
        RawJson::Array(v) => RawView::Array(items_view(v@)),
        RawJson::Object(v) => RawView::Object(members_view(v@)),
    }
}

/// The contents of array items.
pub open spec fn items_view(s: Seq<RawJson>) -> Seq<RawView>
    decreases s,
{
    if s.len() == 0 {
        Seq::empty()
    } else {
        items_view(s.drop_last()).push(raw_view(s.last()))
    }
}

/// The contents of object members.
pub open spec fn members_view(s: Seq<(String, RawJson)>) -> Seq<(Seq<char>, RawView)>
    decreases s,
{
    if s.len() == 0 {
        Seq::empty()
    } else {
        members_view(s.drop_last()).push((s.last().0@, raw_view(s.last().1)))
    }
}

/// `items_view` maps each item to its content.
pub proof fn lemma_items_view(s: Seq<RawJson>)
    ensures
        items_view(s).len() == s.len(),
        forall|j: int| 0 <= j < s.len() ==> #[trigger] items_view(s)[j] == raw_view(s[j]),
    decreases s.len(),
{
    if s.len() > 0 {
        lemma_items_view(s.drop_last());
    }
}

/// `members_view` maps each member to its content.
pub proof fn lemma_members_view(s: Seq<(String, RawJson)>)
    ensures
        members_view(s).len() == s.len(),
        forall|j: int|
            0 <= j < s.len() ==> #[trigger] members_view(s)[j] == (s[j].0@, raw_view(s[j].1)),
    decreases s.len(),
{
    if s.len() > 0 {
        lemma_members_view(s.drop_last());
    }
}

/// The number of bytes UTF-8 takes for `c`.
pub open spec fn utf8_width(c: char) -> int {
    if (c as u32) < 0x80 {
        1
    } else if (c as u32) < 0x800 {
        2
    } else if (c as u32) < 0x10000 {
        3
    } else {
        4
    }
}

/// The byte offset, in UTF-8, of the character at index `i`.
pub open spec fn byte_offset(s: Seq<char>, i: int) -> int
    decreases i,
{
    if i <= 0 || s.len() == 0 {
        0
    } else if i > s.len() {
        byte_offset(s, s.len() as int)
    } else {
        byte_offset(s, i - 1) + utf8_width(s[i - 1])
    }
}

/// Byte offsets grow with the index.
pub proof fn lemma_byte_offset_mono(s: Seq<char>, i: int, j: int)
    requires
        0 <= i <= j <= s.len(),
    ensures
        byte_offset(s, i) + (j - i) <= byte_offset(s, j),
    decreases j - i,
{
    if i < j {
        lemma_byte_offset_mono(s, i, j - 1);
    }
}

/// The UTF-8 width of a character, computed.
fn width_of(c: char) -> (r: usize)
    ensures
        r == utf8_width(c),
{
    let u = c as u32;
    if u < 0x80 {
        1
    } else if u < 0x800 {
        2
    } else if u < 0x10000 {
        3
    } else {
        4
    }
}

/// The byte offset of the character at index `i`.
fn offset_of(s: &Vec<char>, i: usize) -> (r: usize)
    requires
        i <= s@.len(),
        byte_offset(s@, s@.len() as int) <= usize::MAX,
    ensures
        r == byte_offset(s@, i as int),
{
    let mut k: usize = 0;
    let mut off: usize = 0;
    while k < i
        invariant
            k <= i <= s@.len(),
            off == byte_offset(s@, k as int),
            byte_offset(s@, s@.len() as int) <= usize::MAX,
        decreases i - k,
    {
        proof {
            lemma_byte_offset_mono(s@, (k + 1) as int, s@.len() as int);
        }
        off = off + width_of(s[k]);
        k = k + 1;
    }
    off
}

/// The whitespace JSON skips between tokens.
pub open spec fn is_json_ws(c: char) -> bool {
    c == ' ' || c == '\n' || c == '\r' || c == '\t'
}

/// The index of the first character at or after `i` that is not whitespace.
pub open spec fn skip_ws(s: Seq<char>, i: int) -> int
    decreases s.len() - i,
{
    if 0 <= i < s.len() && is_json_ws(s[i]) {
        skip_ws(s, i + 1)
    } else {
        i
    }
}

/// `skip_ws` moves forward, and stays within the text.
pub proof fn lemma_skip_ws(s: Seq<char>, i: int)
    ensures
        i <= skip_ws(s, i),
        0 <= i <= s.len() ==> skip_ws(s, i) <= s.len(),
        0 <= i <= s.len() ==> skip_ws(s, i) == s.len() || !is_json_ws(s[skip_ws(s, i)]),
    decreases s.len() - i,
{
    if 0 <= i < s.len() && is_json_ws(s[i]) {
        lemma_skip_ws(s, i + 1);
    }
}

/// Skips whitespace.
fn skip_ws_at(s: &Vec<char>, i: usize) -> (r: usize)
    requires
        i <= s@.len(),
    ensures
        r == skip_ws(s@, i as int),
        i <= r <= s@.len(),
{
    let mut k = i;
    proof {
        lemma_skip_ws(s@, i as int);
    }
    while k < s.len() && (s[k] == ' ' || s[k] == '\n' || s[k] == '\r' || s[k] == '\t')
        invariant
            i <= k <= s@.len(),
            skip_ws(s@, k as int) == skip_ws(s@, i as int),
        decreases s@.len() - k,
    {
        k = k + 1;
    }
    k
}

/// The index of the first character at or after `i` that is not a digit.
pub open spec fn digits_end(s: Seq<char>, i: int) -> int
    decreases s.len() - i,
{
    if 0 <= i < s.len() && '0' <= s[i] <= '9' {
        digits_end(s, i + 1)
    } else {
        i
    }
}

/// Skips digits.
fn digits_end_at(s: &Vec<char>, i: usize) -> (r: usize)
    requires
        i <= s@.len(),
    ensures
        r == digits_end(s@, i as int),
        i <= r <= s@.len(),
        forall|j: int| i <= j < r ==> '0' <= #[trigger] s@[j] <= '9',
{
    let mut k = i;
    while k < s.len() && '0' <= s[k] && s[k] <= '9'
        invariant
            i <= k <= s@.len(),
            digits_end(s@, k as int) == digits_end(s@, i as int),
            forall|j: int| i <= j < k ==> '0' <= #[trigger] s@[j] <= '9',
        decreases s@.len() - k,
    {
        k = k + 1;
    }
    k
}

/// Whether the text holds `lit` at index `i`.
pub open spec fn has_lit(s: Seq<char>, i: int, lit: Seq<char>) -> bool {
    0 <= i && i + lit.len() <= s.len() && s.subrange(i, i + lit.len()) == lit
}

/// Checks for `lit` at index `i`.
fn lit_at(s: &Vec<char>, i: usize, lit: &str) -> (r: bool)
    requires
        i <= s@.len(),
    ensures
        r == has_lit(s@, i as int, lit@),
{
    let l = chars_of(lit);
    let rest = s.len() - i;
    if l.len() > rest {
        return false;
    }
    let ghost w = s@.subrange(i as int, i + l@.len());
    let mut k: usize = 0;
    while k < l.len()
        invariant
            i <= s@.len() <= usize::MAX,
            k <= l@.len(),
            l@ == lit@,
            i + l@.len() <= s@.len(),
            w == s@.subrange(i as int, i + l@.len()),
            forall|j: int| 0 <= j < k ==> w[j] == l@[j],
        decreases l@.len() - k,
    {
        let at = i + k;
        if s[at] != l[k] {
            assert(w[k as int] == s@[at as int]);
            return false;
        }
        k = k + 1;
    }
    assert(w =~= lit@);
    true
}

/// What reading a string literal gives: its characters and the index after
/// it, or an error with its message, the index at which it occurred and how
/// many bytes of the character there were consumed.
pub enum TextStep {
    Done(Seq<char>, int),
    Fail(Seq<char>, int, int),
}

/// The value of a hexadecimal digit.
pub open spec fn hex_value(c: char) -> int {
    if '0' <= c <= '9' {
        (c as u32) - ('0' as u32)
    } else if 'a' <= c <= 'f' {
        (c as u32) - ('a' as u32) + 10
    } else {
        (c as u32) - ('A' as u32) + 10
    }
}

/// Whether `c` is a hexadecimal digit.
pub open spec fn is_hex(c: char) -> bool {
    ('0' <= c <= '9') || ('a' <= c <= 'f') || ('A' <= c <= 'F')
}

/// The first problem with the four hex digits from index `p + k` on.
pub open spec fn hex_problem(s: Seq<char>, p: int, k: int) -> Option<(Seq<char>, int, int)>
    decreases 4 - k,
{
    if k >= 4 {
        None
    } else if p + k >= s.len() {
        Some(("incomplete unicode escape"@, p + k, 0))
    } else if !is_hex(s[p + k]) {
        Some(("invalid hex digit in unicode escape"@, p + k, 1))
    } else {
        hex_problem(s, p, k + 1)
    }
}

/// When no problem is found, the four digits are all in the text.
pub proof fn lemma_hex_problem_none(s: Seq<char>, p: int, k: int)
    requires
        0 <= k <= 4,
        hex_problem(s, p, k) is None,
    ensures
        p + 3 < s.len() || k == 4,
        forall|t: int| k <= t < 4 ==> #[trigger] is_hex(s[p + t]),
    decreases 4 - k,
{
    if k < 4 {
        lemma_hex_problem_none(s, p, k + 1);
    }
}

/// The value of the four hex digits at index `p`.
pub open spec fn hex4(s: Seq<char>, p: int) -> int {
    hex_value(s[p]) * 4096 + hex_value(s[p + 1]) * 256 + hex_value(s[p + 2]) * 16 + hex_value(
        s[p + 3],
    )
}

/// The character an escape stands for, for the single-letter escapes.
pub open spec fn simple_escape(e: char) -> Option<char> {
    if e == '"' {
        Some('"')
    } else if e == '\\' {
        Some('\\')
    } else if e == '/' {
        Some('/')
    } else if e == 'b' {
        Some('\u{08}')
    } else if e == 'f' {
        Some('\u{0C}')
    } else if e == 'n' {
        Some('\n')
    } else if e == 'r' {
        Some('\r')
    } else if e == 't' {
        Some('\t')
    } else {
        None
    }
}

/// Reads the rest of a string literal from index `i`, after the characters
/// `acc`.
pub open spec fn string_body(s: Seq<char>, i: int, acc: Seq<char>) -> TextStep
    decreases s.len() - i,
{
    if i < 0 || i >= s.len() {
        TextStep::Fail("unterminated string literal"@, i, 0)
    } else if s[i] == '"' {
        TextStep::Done(acc, i + 1)
    } else if s[i] == '\\' {
        if i + 1 >= s.len() {
            TextStep::Fail("incomplete escape sequence"@, i + 1, 0)
        } else {
            let e = s[i + 1];
            match simple_escape(e) {
                Some(c) => string_body(s, i + 2, acc.push(c)),
                None => if e == 'u' {
                    match hex_problem(s, i + 2, 0) {
                        Some((m, p, x)) => TextStep::Fail(m, p, x),
                        None => {
                            proof {
                                lemma_hex_problem_none(s, i + 2, 0);
                            }
                            let v = hex4(s, i + 2);
                            if 0xD800 <= v <= 0xDFFF {
                                TextStep::Fail("invalid unicode escape code point"@, i + 6, 0)
                            } else {
                                string_body(s, i + 6, acc.push((v as u32) as char))
                            }
                        },
                    }
                } else {
                    TextStep::Fail("invalid escape sequence"@, i + 1, 1)
                },
            }
        }
    } else if (s[i] as u32) < 0x20 {
        TextStep::Fail("control characters are not allowed in strings"@, i, 1)
    } else {
        string_body(s, i + 1, acc.push(s[i]))
    }
}

/// Reads a string literal at index `i`.
pub open spec fn string_at(s: Seq<char>, i: int) -> TextStep {
    if i < 0 || i >= s.len() {
        TextStep::Fail("expected opening quote for string"@, i, 0)
    } else if s[i] != '"' {
        TextStep::Fail("expected opening quote for string"@, i, 1)
    } else {
        string_body(s, i + 1, Seq::empty())
    }
}

/// Calls `char::from_u32`, which returns the character with code point `i`,
/// unless `i` is a surrogate or beyond the last code point.
#[verifier::external_body]
fn char_from_code(i: u32) -> (r: Option<char>)
    ensures
        match r {
            Some(c) => c as u32 == i && !(0xD800 <= i <= 0xDFFF) && i <= 0x10FFFF,
            None => (0xD800 <= i <= 0xDFFF) || i > 0x10FFFF,
        },
{
    char::from_u32(i)
}

/// The value of a hexadecimal digit, computed.
fn hex_digit(c: char) -> (r: u32)
    requires
        is_hex(c),
    ensures
        r == hex_value(c),
        r < 16,
{
    if '0' <= c && c <= '9' {
        (c as u32) - ('0' as u32)
    } else if 'a' <= c && c <= 'f' {
        (c as u32) - ('a' as u32) + 10
    } else {
        (c as u32) - ('A' as u32) + 10
    }
}

/// Reads a string literal at index `i`: its text and the index after it, or
/// the error.
fn string_at_exec(s: &Vec<char>, i: usize) -> (r: Result<(String, usize), (&'static str, usize, usize)>)
    requires
        i <= s@.len(),
    ensures
        match string_at(s@, i as int) {
            TextStep::Done(t, k) => r matches Ok((x, kk)) && x@ == t && kk == k && i < k <= s@.len(),
            TextStep::Fail(m, p, e) => r matches Err((mm, pp, ee)) && mm@ == m && pp == p && ee == e
                && p + e <= s@.len() && e <= 1,
        },
{
    if i >= s.len() {
        return Err(("expected opening quote for string", i, 0));
    }
    if s[i] != '"' {
        return Err(("expected opening quote for string", i, 1));
    }
    let mut acc: Vec<char> = Vec::new();
    let mut k: usize = i + 1;
    let ghost target = string_body(s@, (i + 1) as int, Seq::empty());
    while k < s.len()
        invariant
            i < k <= s@.len(),
            string_body(s@, k as int, acc@) == target,
            target == string_at(s@, i as int),
        decreases s@.len() - k,
    {
        let c = s[k];
        if c == '"' {
            return Ok((string_of(acc.as_slice()), k + 1));
        }
        if c == '\\' {
            if k + 1 >= s.len() {
                return Err(("incomplete escape sequence", k + 1, 0));
            }
            let e = s[k + 1];
            let simple: Option<char> = if e == '"' {
                Some('"')
            } else if e == '\\' {
                Some('\\')
            } else if e == '/' {
                Some('/')
            } else if e == 'b' {
                Some('\u{08}')
            } else if e == 'f' {
                Some('\u{0C}')
            } else if e == 'n' {
                Some('\n')
            } else if e == 'r' {
                Some('\r')
            } else if e == 't' {
                Some('\t')
            } else {
                None
            };
            assert(simple == simple_escape(e));
            match simple {
                Some(ch) => {
                    acc.push(ch);
                    k = k + 2;
                },
                None => {
                    if e != 'u' {
                        return Err(("invalid escape sequence", k + 1, 1));
                    }
                    let p = k + 2;
                    let mut v: u32 = 0;
                    let mut j: usize = 0;
                    while j < 4
                        invariant
                            j <= 4,
                            p == k + 2,
                            k + 1 < s@.len(),
                            i < k <= s@.len(),
                            string_body(s@, k as int, acc@) == target,
                            target == string_at(s@, i as int),
                            s@[k as int] == '\\',
                            s@[k + 1] == 'u',
                            hex_problem(s@, p as int, j as int) == hex_problem(s@, p as int, 0),
                            forall|t: int| 0 <= t < j ==> is_hex(#[trigger] s@[p + t]) && p + t < s@.len(),
                            j == 0 ==> v == 0,
                            j == 1 ==> v == hex_value(s@[p as int]),
                            j == 2 ==> v == hex_value(s@[p as int]) * 16 + hex_value(s@[p + 1]),
                            j == 3 ==> v == hex_value(s@[p as int]) * 256 + hex_value(s@[p + 1]) * 16
                                + hex_value(s@[p + 2]),
                            j == 4 ==> v == hex4(s@, p as int),
                            v < 0x10000,
                            v < pow16(j as int),
                        decreases 4 - j,
                    {
                        if j >= s.len() - p {
                            return Err(("incomplete unicode escape", s.len(), 0));
                        }
                        let h = s[p + j];
                        if !(('0' <= h && h <= '9') || ('a' <= h && h <= 'f') || ('A' <= h && h
                            <= 'F')) {
                            return Err(("invalid hex digit in unicode escape", p + j, 1));
                        }
                        let d = hex_digit(h);
                        proof {
                            assert(v * 16 + d < pow16((j + 1) as int)) by (nonlinear_arith)
                                requires
                                    v < pow16(j as int),
                                    d < 16,
                                    pow16((j + 1) as int) == pow16(j as int) * 16,
                            ;
                        }
                        v = v * 16 + d;
                        j = j + 1;
                    }
                    assert(hex_problem(s@, p as int, 4) is None);
                    if 0xD800 <= v && v <= 0xDFFF {
                        return Err(("invalid unicode escape code point", k + 6, 0));
                    }
                    match char_from_code(v) {
                        Some(ch) => {
                            proof {
                                vstd::utf8::char_u32_cast(ch, v);
                                assert(ch == ((hex4(s@, p as int) as u32) as char));
                            }
                            acc.push(ch);
                            k = k + 6;
                        },
                        None => {
                            return Err(("invalid unicode escape code point", k + 6, 0));
                        },
                    }
                },
            }
        } else {
            if (c as u32) < 0x20 {
                return Err(("control characters are not allowed in strings", k, 1));
            }
            acc.push(c);
            k = k + 1;
        }
    }
    Err(("unterminated string literal", k, 0))
}

/// What reading a value gives: its content and the index after it, or an
/// error with its message, the index at which it occurred and how many bytes
/// of the character there were consumed.
pub enum ReadStep {
    Value(RawView, int),
    Fail(Seq<char>, int, int),
}

/// Reads a number at index `j`: an optional minus sign, an integer part
/// without leading zeros, an optional fraction and an optional exponent. The
/// value is the literal.
pub open spec fn number_at(s: Seq<char>, j: int) -> ReadStep {
    let a = if 0 <= j < s.len() && s[j] == '-' {
        j + 1
    } else {
        j
    };
    if !(0 <= a < s.len() && '0' <= s[a] <= '9') {
        ReadStep::Fail("invalid number format"@, a, 0)
    } else {
        let b = if s[a] == '0' {
            a + 1
        } else {
            digits_end(s, a + 1)
        };
        if b < s.len() && s[b] == '.' && !(b + 1 < s.len() && '0' <= s[b + 1] <= '9') {
            ReadStep::Fail("fractional part requires at least one digit"@, b + 1, 0)
        } else {
            let c = if b < s.len() && s[b] == '.' {
                digits_end(s, b + 1)
            } else {
                b
            };
            let d = if c + 1 < s.len() && (s[c + 1] == '+' || s[c + 1] == '-') {
                c + 2
            } else {
                c + 1
            };
            if c < s.len() && (s[c] == 'e' || s[c] == 'E') {
                if d < s.len() && '0' <= s[d] <= '9' {
                    let e = digits_end(s, d);
                    ReadStep::Value(RawView::Number(s.subrange(j, e)), e)
                } else {
                    ReadStep::Fail("exponent requires at least one digit"@, d, 0)
                }
            } else {
                ReadStep::Value(RawView::Number(s.subrange(j, c)), c)
            }
        }
    }
}

/// Adds a member to members kept in key order: the value of a key already
/// there is replaced, a new key goes before the first greater key.
pub open spec fn insert_member(m: Seq<(Seq<char>, RawView)>, k: Seq<char>, v: RawView) -> Seq<
    (Seq<char>, RawView),
>
    decreases m.len(),
{
    if m.len() == 0 {
        seq![(k, v)]
    } else if m[0].0 == k {
        m.update(0, (k, v))
    } else if seq_lt(k, m[0].0) {
        seq![(k, v)] + m
    } else {
        seq![m[0]] + insert_member(m.drop_first(), k, v)
    }
}

/// Reads a value at index `i`, after any whitespace.
pub open spec fn value_at(s: Seq<char>, i: int) -> ReadStep
    decreases s.len() - i, 2int,
{
    let j = skip_ws(s, i);
    if !(0 <= j < s.len()) {
        ReadStep::Fail("unexpected end of input while parsing JSON value"@, j, 0)
    } else if s[j] == 'n' {
        if has_lit(s, j, "null"@) {
            ReadStep::Value(RawView::Null, j + 4)
        } else {
            ReadStep::Fail("invalid literal"@, j, 0)
        }
    } else if s[j] == 't' || s[j] == 'f' {
        if has_lit(s, j, "true"@) {
            ReadStep::Value(RawView::Bool(true), j + 4)
        } else if has_lit(s, j, "false"@) {
            ReadStep::Value(RawView::Bool(false), j + 5)
        } else {
            ReadStep::Fail("invalid boolean literal"@, j, 0)
        }
    } else if s[j] == '-' || ('0' <= s[j] <= '9') {
        number_at(s, j)
    } else if s[j] == '"' {
        match string_at(s, j) {
            TextStep::Done(t, k) => ReadStep::Value(RawView::Str(t), k),
            TextStep::Fail(m, p, x) => ReadStep::Fail(m, p, x),
        }
    } else if s[j] == '[' {
        proof {
            lemma_skip_ws(s, i);
        }
        array_at(s, j)
    } else if s[j] == '{' {
        proof {
            lemma_skip_ws(s, i);
        }
        object_at(s, j)
    } else {
        ReadStep::Fail("unexpected token while parsing JSON value"@, j, 0)
    }
}

/// Reads an array whose `[` is at index `j`.
pub open spec fn array_at(s: Seq<char>, j: int) -> ReadStep
    decreases s.len() - j, 1int,
{
    let k = skip_ws(s, j + 1);
    if k < s.len() && s[k] == ']' {
        ReadStep::Value(RawView::Array(Seq::empty()), k + 1)
    } else if 0 <= j < s.len() {
        proof {
            lemma_skip_ws(s, j + 1);
        }
        array_items(s, k, Seq::empty())
    } else {
        ReadStep::Fail("unexpected token"@, j, 0)
    }
}

/// Reads the items of an array from index `i` on, after the items `acc`.
/// (A value is never empty: the first branch below is never taken.)
pub open spec fn array_items(s: Seq<char>, i: int, acc: Seq<RawView>) -> ReadStep
    decreases s.len() - i, 3int,
{
    match value_at(s, i) {
        ReadStep::Fail(m, p, x) => ReadStep::Fail(m, p, x),
        ReadStep::Value(v, k) => if k <= i || k > s.len() {
            ReadStep::Fail(Seq::empty(), i, 0)
        } else {
            let k2 = skip_ws(s, k);
            if k2 >= s.len() {
                ReadStep::Fail("expected ',' or ']' in array"@, k2, 0)
            } else if s[k2] == ',' {
                proof {
                    lemma_skip_ws(s, k);
                    lemma_skip_ws(s, k2 + 1);
                }
                array_items(s, skip_ws(s, k2 + 1), acc.push(v))
            } else if s[k2] == ']' {
                ReadStep::Value(RawView::Array(acc.push(v)), k2 + 1)
            } else {
                ReadStep::Fail("expected ',' or ']' in array"@, k2, 1)
            }
        },
    }
}

/// Reads an object whose `{` is at index `j`.
pub open spec fn object_at(s: Seq<char>, j: int) -> ReadStep
    decreases s.len() - j, 1int,
{
    let k = skip_ws(s, j + 1);
    if k < s.len() && s[k] == '}' {
        ReadStep::Value(RawView::Object(Seq::empty()), k + 1)
    } else if 0 <= j < s.len() {
        proof {
            lemma_skip_ws(s, j + 1);
        }
        object_members(s, k, Seq::empty())
    } else {
        ReadStep::Fail("unexpected token"@, j, 0)
    }
}

/// Reads the members of an object from index `i` on, after the members
/// `acc`. (A value is never empty: the check on its end never fails.)
pub open spec fn object_members(s: Seq<char>, i: int, acc: Seq<(Seq<char>, RawView)>) -> ReadStep
    decreases s.len() - i, 3int,
{
    match string_at(s, i) {
        TextStep::Fail(m, p, x) => ReadStep::Fail(m, p, x),
        TextStep::Done(key, k) => {
            let k1 = skip_ws(s, k);
            if k1 >= s.len() {
                ReadStep::Fail("unexpected token"@, k1, 0)
            } else if s[k1] != ':' {
                ReadStep::Fail("unexpected token"@, k1, 1)
            } else {
                let k2 = skip_ws(s, k1 + 1);
                proof {
                    lemma_string_at_progress(s, i);
                    lemma_skip_ws(s, k);
                    lemma_skip_ws(s, k1 + 1);
                }
                match value_at(s, k2) {
                    ReadStep::Fail(m, p, x) => ReadStep::Fail(m, p, x),
                    ReadStep::Value(v, e) => if e <= k2 || e > s.len() {
                        ReadStep::Fail(Seq::empty(), k2, 0)
                    } else {
                        let e1 = skip_ws(s, e);
                        if e1 >= s.len() {
                            ReadStep::Fail("expected ',' or '}' in object"@, e1, 0)
                        } else if s[e1] == ',' {
                            proof {
                                lemma_skip_ws(s, e);
                                lemma_skip_ws(s, e1 + 1);
                            }
                            object_members(s, skip_ws(s, e1 + 1), insert_member(acc, key, v))
                        } else if s[e1] == '}' {
                            ReadStep::Value(RawView::Object(insert_member(acc, key, v)), e1 + 1)
                        } else {
                            ReadStep::Fail("expected ',' or '}' in object"@, e1, 1)
                        }
                    },
                }
            }
        },
    }
}

/// Reads a whole document: one value, with nothing but whitespace after it.
pub open spec fn document(s: Seq<char>) -> ReadStep {
    match value_at(s, 0) {
        ReadStep::Fail(m, p, x) => ReadStep::Fail(m, p, x),
        ReadStep::Value(v, k) => {
            let k2 = skip_ws(s, k);
            if k2 >= s.len() {
                ReadStep::Value(v, k2)
            } else {
                ReadStep::Fail("trailing characters after valid JSON"@, k2, 0)
            }
        },
    }
}

/// A string literal that is read ends after it starts, within the text.
pub proof fn lemma_string_at_progress(s: Seq<char>, i: int)
    ensures
        string_at(s, i) matches TextStep::Done(_, k) ==> i < k <= s.len(),
{
    if 0 <= i < s.len() && s[i] == '"' {
        lemma_string_body_progress(s, i + 1, Seq::empty());
    }
}

/// The rest of a string literal that is read ends after it starts.
pub proof fn lemma_string_body_progress(s: Seq<char>, i: int, acc: Seq<char>)
    ensures
        string_body(s, i, acc) matches TextStep::Done(_, k) ==> i < k <= s.len(),
    decreases s.len() - i,
{
    if 0 <= i < s.len() && s[i] != '"' {
        if s[i] == '\\' {
            if i + 1 < s.len() {
                let e = s[i + 1];
                match simple_escape(e) {
                    Some(c) => lemma_string_body_progress(s, i + 2, acc.push(c)),
                    None => if e == 'u' {
                        if hex_problem(s, i + 2, 0) is None {
                            lemma_hex_problem_none(s, i + 2, 0);
                            let v = hex4(s, i + 2);
                            lemma_string_body_progress(s, i + 6, acc.push((v as u32) as char));
                        }
                    },
                }
            }
        } else if (s[i] as u32) >= 0x20 {
            lemma_string_body_progress(s, i + 1, acc.push(s[i]));
        }
    }
}


/// What a reader step returns: the value read and the index after it, or the
/// error's message, index and consumed bytes.
type Read = Result<(RawJson, usize), (&'static str, usize, usize)>;

/// Whether an executed step agrees with the spec step.
pub open spec fn read_matches(r: Result<(RawJson, usize), (&'static str, usize, usize)>, step: ReadStep, s: Seq<char>, i: int) -> bool {
    match step {
        ReadStep::Value(v, k) => r matches Ok((x, kk)) && raw_view(x) == v && kk == k && i < k <= s.len(),
        ReadStep::Fail(m, p, e) => r matches Err((mm, pp, ee)) && mm@ == m && pp == p && ee == e && p
            + e <= s.len() && e <= 1,
    }
}

/// Reads a number at index `j`.
fn number_at_exec(s: &Vec<char>, j: usize) -> (r: Read)
    requires
        j < s@.len(),
    ensures
        read_matches(r, number_at(s@, j as int), s@, j as int),
{
    let n = s.len();
    let a = if s[j] == '-' {
        j + 1
    } else {
        j
    };
    if !(a < s.len() && '0' <= s[a] && s[a] <= '9') {
        return Err(("invalid number format", a, 0));
    }
    let b = if s[a] == '0' {
        a + 1
    } else {
        digits_end_at(s, a + 1)
    };
    if b < s.len() && s[b] == '.' && !(b + 1 < s.len() && '0' <= s[b + 1] && s[b + 1] <= '9') {
        return Err(("fractional part requires at least one digit", b + 1, 0));
    }
    let c = if b < s.len() && s[b] == '.' {
        digits_end_at(s, b + 1)
    } else {
        b
    };
    if c < s.len() && (s[c] == 'e' || s[c] == 'E') {
        let d = if c + 1 < s.len() && (s[c + 1] == '+' || s[c + 1] == '-') {
            c + 2
        } else {
            c + 1
        };
        if d < s.len() && '0' <= s[d] && s[d] <= '9' {
            let e = digits_end_at(s, d);
            let text = sub_chars(s.as_slice(), j, e);
            return Ok((RawJson::Number(string_of(text.as_slice())), e));
        }
        return Err(("exponent requires at least one digit", d, 0));
    }
    let text = sub_chars(s.as_slice(), j, c);
    Ok((RawJson::Number(string_of(text.as_slice())), c))
}

/// `members_view` of a member replaced.
proof fn lemma_members_update(m: Seq<(String, RawJson)>, p: int, e: (String, RawJson))
    requires
        0 <= p < m.len(),
    ensures
        members_view(m.update(p, e)) == members_view(m).update(p, (e.0@, raw_view(e.1))),
{
    lemma_members_view(m);
    lemma_members_view(m.update(p, e));
    assert(members_view(m.update(p, e)) =~= members_view(m).update(p, (e.0@, raw_view(e.1))));
}

/// `members_view` of a member inserted.
proof fn lemma_members_insert(m: Seq<(String, RawJson)>, p: int, e: (String, RawJson))
    requires
        0 <= p <= m.len(),
    ensures
        members_view(m.insert(p, e)) == members_view(m).insert(p, (e.0@, raw_view(e.1))),
{
    lemma_members_view(m);
    lemma_members_view(m.insert(p, e));
    assert(members_view(m.insert(p, e)) =~= members_view(m).insert(p, (e.0@, raw_view(e.1))));
}

/// `items_view` of an item pushed.
proof fn lemma_items_push(m: Seq<RawJson>, x: RawJson)
    ensures
        items_view(m.push(x)) == items_view(m).push(raw_view(x)),
{
    assert(m.push(x).drop_last() =~= m);
}

/// `insert_member` past members whose keys come before `k`.
proof fn lemma_insert_member_skip(m: Seq<(Seq<char>, RawView)>, p: int, k: Seq<char>, v: RawView)
    requires
        0 <= p <= m.len(),
        forall|t: int| 0 <= t < p ==> seq_lt(#[trigger] m[t].0, k),
    ensures
        insert_member(m, k, v) == m.subrange(0, p) + insert_member(m.subrange(p, m.len() as int), k, v),
    decreases p,
{
    if p == 0 {
        assert(m.subrange(0, 0) + m.subrange(0, m.len() as int) =~= m);
        assert(m.subrange(0, m.len() as int) =~= m);
    } else {
        crate::collections::lemma_seq_lt_order(m[0].0, k, k);
        crate::collections::lemma_seq_lt_order(k, m[0].0, k);
        let rest = m.drop_first();
        assert forall|t: int| 0 <= t < p - 1 implies seq_lt(#[trigger] rest[t].0, k) by {
            assert(rest[t] == m[t + 1]);
        }
        lemma_insert_member_skip(rest, p - 1, k, v);
        assert(rest.subrange(p - 1, rest.len() as int) =~= m.subrange(p, m.len() as int));
        assert(seq![m[0]] + (rest.subrange(0, p - 1) + insert_member(rest.subrange(p - 1, rest.len() as int), k, v))
            =~= m.subrange(0, p) + insert_member(m.subrange(p, m.len() as int), k, v));
    }
}

/// Adds a member, keeping members in key order with each key once.
fn insert_member_exec(m: &mut Vec<(String, RawJson)>, key: String, v: RawJson)
    ensures
        members_view(final(m)@) == insert_member(members_view(old(m)@), key@, raw_view(v)),
{
    let ghost mv = members_view(m@);
    let ghost kv = key@;
    let ghost vv = raw_view(v);
    proof {
        lemma_members_view(m@);
    }
    let mut p: usize = 0;
    while p < m.len() && str_lt(m[p].0.as_str(), key.as_str())
        invariant
            p <= m@.len(),
            mv == members_view(m@),
            mv.len() == m@.len(),
            kv == key@,
            forall|j: int| 0 <= j < m@.len() ==> #[trigger] mv[j] == (m@[j].0@, raw_view(m@[j].1)),
            forall|t: int| 0 <= t < p ==> seq_lt(#[trigger] mv[t].0, kv),
        decreases m@.len() - p,
    {
        p = p + 1;
    }
    proof {
        lemma_insert_member_skip(mv, p as int, kv, vv);
    }
    let ghost tail = mv.subrange(p as int, mv.len() as int);
    if p < m.len() && str_eq(m[p].0.as_str(), key.as_str()) {
        proof {
            lemma_members_update(m@, p as int, (key, v));
            assert(tail[0].0 == kv);
            assert(insert_member(tail, kv, vv) == tail.update(0, (kv, vv)));
            assert(mv.subrange(0, p as int) + tail.update(0, (kv, vv)) =~= mv.update(p as int, (kv, vv)));
        }
        m.set(p, (key, v));
    } else {
        proof {
            lemma_members_insert(m@, p as int, (key, v));
            if p < mv.len() {
                crate::collections::lemma_seq_lt_order(kv, tail[0].0, kv);
                assert(tail[0].0 != kv);
                assert(seq_lt(kv, tail[0].0));
                assert(insert_member(tail, kv, vv) == seq![(kv, vv)] + tail);
            } else {
                assert(tail =~= Seq::<(Seq<char>, RawView)>::empty());
            }
            assert(mv.subrange(0, p as int) + insert_member(tail, kv, vv) =~= mv.insert(p as int, (kv, vv)));
        }
        m.insert(p, (key, v));
    }
}

/// Reads a value at index `i`, after any whitespace.
fn value_at_exec(s: &Vec<char>, i: usize) -> (r: Read)
    requires
        i <= s@.len(),
    ensures
        read_matches(r, value_at(s@, i as int), s@, i as int),
    decreases s@.len() - i, 2int,
{
    let j = skip_ws_at(s, i);
    proof {
        lemma_skip_ws(s@, i as int);
        reveal_strlit("null");
        reveal_strlit("true");
        reveal_strlit("false");
    }
    if j >= s.len() {
        return Err(("unexpected end of input while parsing JSON value", j, 0));
    }
    let c = s[j];
    if c == 'n' {
        if lit_at(s, j, "null") {
            return Ok((RawJson::Null, j + 4));
        }
        return Err(("invalid literal", j, 0));
    }
    if c == 't' || c == 'f' {
        if lit_at(s, j, "true") {
            return Ok((RawJson::Bool(true), j + 4));
        }
        if lit_at(s, j, "false") {
            return Ok((RawJson::Bool(false), j + 5));
        }
        return Err(("invalid boolean literal", j, 0));
    }
    if c == '-' || ('0' <= c && c <= '9') {
        return number_at_exec(s, j);
    }
    if c == '"' {
        return match string_at_exec(s, j) {
            Ok((t, k)) => Ok((RawJson::Str(t), k)),
            Err(e) => Err(e),
        };
    }
    if c == '[' {
        return array_at_exec(s, j);
    }
    if c == '{' {
        return object_at_exec(s, j);
    }
    Err(("unexpected token while parsing JSON value", j, 0))
}

/// Reads an array whose `[` is at index `j`.
fn array_at_exec(s: &Vec<char>, j: usize) -> (r: Read)
    requires
        j < s@.len(),
    ensures
        read_matches(r, array_at(s@, j as int), s@, j as int),
    decreases s@.len() - j, 1int,
{
    let n = s.len();
    assert(j < n);
    let k0 = skip_ws_at(s, j + 1);
    if k0 < s.len() && s[k0] == ']' {
        let empty: Vec<RawJson> = Vec::new();
        assert(items_view(empty@) =~= Seq::<RawView>::empty());
        return Ok((RawJson::Array(empty), k0 + 1));
    }
    let mut items: Vec<RawJson> = Vec::new();
    let mut k = k0;
    let ghost target = array_at(s@, j as int);
    assert(items_view(items@) =~= Seq::<RawView>::empty());
    loop
        invariant
            j < k <= s@.len(),
            array_items(s@, k as int, items_view(items@)) == target,
            target == array_at(s@, j as int),
        decreases s@.len() - k,
    {
        let (v, m) = match value_at_exec(s, k) {
            Ok(x) => x,
            Err(e) => {
                return Err(e);
            },
        };
        let m1 = skip_ws_at(s, m);
        if m1 >= s.len() {
            return Err(("expected ',' or ']' in array", m1, 0));
        }
        if s[m1] == ',' {
            proof {
                lemma_items_push(items@, v);
            }
            items.push(v);
            k = skip_ws_at(s, m1 + 1);
        } else if s[m1] == ']' {
            proof {
                lemma_items_push(items@, v);
            }
            items.push(v);
            return Ok((RawJson::Array(items), m1 + 1));
        } else {
            return Err(("expected ',' or ']' in array", m1, 1));
        }
    }
}

/// Reads an object whose `{` is at index `j`.
fn object_at_exec(s: &Vec<char>, j: usize) -> (r: Read)
    requires
        j < s@.len(),
    ensures
        read_matches(r, object_at(s@, j as int), s@, j as int),
    decreases s@.len() - j, 1int,
{
    let n = s.len();
    assert(j < n);
    let k0 = skip_ws_at(s, j + 1);
    if k0 < s.len() && s[k0] == '}' {
        let empty: Vec<(String, RawJson)> = Vec::new();
        assert(members_view(empty@) =~= Seq::<(Seq<char>, RawView)>::empty());
        return Ok((RawJson::Object(empty), k0 + 1));
    }
    let mut members: Vec<(String, RawJson)> = Vec::new();
    let mut k = k0;
    let ghost target = object_at(s@, j as int);
    assert(members_view(members@) =~= Seq::<(Seq<char>, RawView)>::empty());
    loop
        invariant
            j < k <= s@.len(),
            object_members(s@, k as int, members_view(members@)) == target,
            target == object_at(s@, j as int),
        decreases s@.len() - k,
    {
        let (key, k1) = match string_at_exec(s, k) {
            Ok(x) => x,
            Err(e) => {
                return Err(e);
            },
        };
        let k2 = skip_ws_at(s, k1);
        if k2 >= s.len() {
            return Err(("unexpected token", k2, 0));
        }
        if s[k2] != ':' {
            return Err(("unexpected token", k2, 1));
        }
        let k3 = skip_ws_at(s, k2 + 1);
        let (v, e) = match value_at_exec(s, k3) {
            Ok(x) => x,
            Err(err) => {
                return Err(err);
            },
        };
        let e1 = skip_ws_at(s, e);
        if e1 >= s.len() {
            return Err(("expected ',' or '}' in object", e1, 0));
        }
        if s[e1] == ',' {
            insert_member_exec(&mut members, key, v);
            k = skip_ws_at(s, e1 + 1);
        } else if s[e1] == '}' {
            insert_member_exec(&mut members, key, v);
            return Ok((RawJson::Object(members), e1 + 1));
        } else {
            return Err(("expected ',' or '}' in object", e1, 1));
        }
    }
}

/// The parse error at index `p`, `extra` bytes into the character there.
fn parse_error(s: &Vec<char>, message: &str, p: usize, extra: usize) -> (r: JsonIoError)
    requires
        p + extra <= s@.len(),
        extra <= 1,
        byte_offset(s@, s@.len() as int) <= usize::MAX,
    ensures
        r matches JsonIoError::Parse { message: m, position } && m@ == message@ && position
            == byte_offset(s@, p as int) + extra,
{
    proof {
        lemma_byte_offset_mono(s@, p as int, s@.len() as int);
    }
    let position = offset_of(s, p) + extra;
    JsonIoError::Parse { message: message.to_owned(), position }
}

/// The number of bytes of the UTF-8 encoding of `s`.
pub open spec fn utf8_len(s: Seq<char>) -> int {
    byte_offset(s, s.len() as int)
}

/// Reads a JSON document: one value, with nothing but whitespace around it.
/// A parse error gives its message and the byte offset at which it was
/// found.
pub fn parse_json_value(json: &str) -> (r: Result<RawJson, JsonIoError>)
    requires
        utf8_len(json@) <= usize::MAX,
    ensures
        match document(json@) {
            ReadStep::Value(v, _) => r matches Ok(x) && raw_view(x) == v,
            ReadStep::Fail(m, p, e) => r matches Err(JsonIoError::Parse { message, position })
                && message@ == m && position == byte_offset(json@, p) + e,
        },
{
    let s = chars_of(json);
    match value_at_exec(&s, 0) {
        Err((m, p, x)) => Err(parse_error(&s, m, p, x)),
        Ok((v, k)) => {
            let k2 = skip_ws_at(&s, k);
            if k2 >= s.len() {
                Ok(v)
            } else {
                Err(parse_error(&s, "trailing characters after valid JSON", k2, 0))
            }
        },
    }
}

/// Reads a JSON document whose value is an object, and gives its members.
pub fn parse_json_object(json: &str) -> (r: Result<Vec<(String, RawJson)>, JsonIoError>)
    requires
        utf8_len(json@) <= usize::MAX,
    ensures
        match document(json@) {
            ReadStep::Value(RawView::Object(members), _) => r matches Ok(x) && members_view(x@)
                == members,
            ReadStep::Value(_, _) => r matches Err(JsonIoError::InvalidRootType(m)) && m@
                == "expected a JSON object at top level"@,
            ReadStep::Fail(m, p, e) => r matches Err(JsonIoError::Parse { message, position })
                && message@ == m && position == byte_offset(json@, p) + e,
        },
{
    match parse_json_value(json) {
        Ok(RawJson::Object(members)) => Ok(members),
        Ok(_) => Err(JsonIoError::InvalidRootType("expected a JSON object at top level".to_owned())),
        Err(e) => Err(e),
    }
}

/// Powers of sixteen.
pub open spec fn pow16(j: int) -> int
    decreases j,
{
    if j <= 0 {
        1
    } else {
        pow16(j - 1) * 16
    }
}

} // verus!
