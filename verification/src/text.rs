//! Character-level helpers shared by the protocol parsers and formatters:
//! Unicode whitespace, trimming and splitting, the quoted-argument tokenizer,
//! argument escaping, and decimal formatting and parsing of integers.
use vstd::prelude::*;
use vstd::std_specs::iter::IteratorSpec;

verus! {

/// Converts a string slice into the vector of its characters.
pub fn chars_of(s: &str) -> (r: Vec<char>)
    ensures
        r@ == s@,
{
    broadcast use vstd::string::axiom_spec_iter, vstd::string::next_postcondition;
    let mut it = s.chars();
    let mut out: Vec<char> = Vec::new();
    loop
        invariant
            out@ + it.remaining() == s@,
            it.obeys_prophetic_iter_laws(),
            it.decrease() is Some,
        ensures
            out@ == s@,
        decreases it.decrease()->0,
    {
        match it.next() {
            Some(c) => {
                out.push(c);
            },
            None => {
                assert(out@ + it.remaining() =~= out@);
                break;
            },
        }
    }
    out
}

/// Builds a `String` from a slice of characters.
/// Trusted: collecting characters into a `String` keeps them in order.
#[verifier::external_body]
pub fn string_of(v: &[char]) -> (r: String)
    ensures
        r@ == v@,
{
    v.iter().collect()
}

/// Unicode `White_Space` property, the definition `char::is_whitespace` uses.
pub open spec fn is_white_space(c: char) -> bool {
    let u = c as u32;
    ||| 0x09 <= u <= 0x0d
    ||| u == 0x20
    ||| u == 0x85
    ||| u == 0xa0
    ||| u == 0x1680
    ||| 0x2000 <= u <= 0x200a
    ||| u == 0x2028
    ||| u == 0x2029
    ||| u == 0x202f
    ||| u == 0x205f
    ||| u == 0x3000
}

/// Whether `c` has the Unicode `White_Space` property.
pub fn is_whitespace(c: char) -> (r: bool)
    ensures
        r == is_white_space(c),
{
    let u = c as u32;
    (0x09 <= u && u <= 0x0d) || u == 0x20 || u == 0x85 || u == 0xa0 || u == 0x1680 || (0x2000
        <= u && u <= 0x200a) || u == 0x2028 || u == 0x2029 || u == 0x202f || u == 0x205f || u
        == 0x3000
}

/// Whether two character vectors hold the same characters.
pub fn chars_eq(a: &[char], b: &[char]) -> (r: bool)
    ensures
        r == (a@ == b@),
{
    if a.len() != b.len() {
        return false;
    }
    let mut i: usize = 0;
    while i < a.len()
        invariant
            a@.len() == b@.len(),
            i <= a@.len(),
            forall|j: int| 0 <= j < i ==> a@[j] == b@[j],
        decreases a@.len() - i,
    {
        if a[i] != b[i] {
            return false;
        }
        i = i + 1;
    }
    assert(a@ =~= b@);
    true
}

/// Whether two strings hold the same characters.
pub fn str_eq(a: &str, b: &str) -> (r: bool)
    ensures
        r == (a@ == b@),
{
    let x = chars_of(a);
    let y = chars_of(b);
    chars_eq(x.as_slice(), y.as_slice())
}

/// Whether `s` begins with `prefix`.
pub fn starts_with(s: &str, prefix: &str) -> (r: bool)
    ensures
        r == (prefix@.len() <= s@.len() && s@.subrange(0, prefix@.len() as int) == prefix@),
{
    let a = chars_of(s);
    let b = chars_of(prefix);
    if b.len() > a.len() {
        return false;
    }
    let mut i: usize = 0;
    while i < b.len()
        invariant
            i <= b@.len() <= a@.len(),
            a@ == s@,
            b@ == prefix@,
            forall|j: int| 0 <= j < i ==> a@[j] == b@[j],
        decreases b@.len() - i,
    {
        if a[i] != b[i] {
            assert(a@.subrange(0, b@.len() as int)[i as int] != b@[i as int]);
            return false;
        }
        i = i + 1;
    }
    assert(a@.subrange(0, b@.len() as int) =~= b@);
    true
}

/// Copies the strings of `v` from position `from` on.
pub fn sub_strings(v: &Vec<String>, from: usize) -> (r: Vec<String>)
    requires
        from <= v@.len(),
    ensures
        r.deep_view() == v.deep_view().subrange(from as int, v@.len() as int),
{
    let mut out: Vec<String> = Vec::new();
    let mut i: usize = from;
    while i < v.len()
        invariant
            from <= i <= v@.len(),
            out.deep_view() == v.deep_view().subrange(from as int, i as int),
        decreases v@.len() - i,
    {
        let ghost before = out.deep_view();
        let t = v[i].clone();
        out.push(t);
        assert(out.deep_view() =~= before.push(t@));
        i = i + 1;
        assert(out.deep_view() =~= v.deep_view().subrange(from as int, i as int));
    }
    out
}

/// Copies a slice of characters out of `v`, from `start` up to `end`.
pub fn sub_chars(v: &[char], start: usize, end: usize) -> (r: Vec<char>)
    requires
        start <= end <= v@.len(),
    ensures
        r@ == v@.subrange(start as int, end as int),
{
    let mut out: Vec<char> = Vec::new();
    let mut i = start;
    while i < end
        invariant
            start <= i <= end <= v@.len(),
            out@ == v@.subrange(start as int, i as int),
        decreases end - i,
    {
        out.push(v[i]);
        i = i + 1;
        assert(out@ =~= v@.subrange(start as int, i as int));
    }
    out
}

/// Appends the characters of `src` to `dst`.
pub fn push_all(dst: &mut Vec<char>, src: &[char])
    ensures
        final(dst)@ == old(dst)@ + src@,
{
    let mut i: usize = 0;
    while i < src.len()
        invariant
            i <= src@.len(),
            dst@ == old(dst)@ + src@.subrange(0, i as int),
        decreases src@.len() - i,
    {
        dst.push(src[i]);
        i = i + 1;
        assert(dst@ =~= old(dst)@ + src@.subrange(0, i as int));
    }
    assert(src@.subrange(0, src@.len() as int) =~= src@);
}

/// Appends the characters of `s` to `dst`.
pub fn push_str(dst: &mut Vec<char>, s: &str)
    ensures
        final(dst)@ == old(dst)@ + s@,
{
    let v = chars_of(s);
    push_all(dst, v.as_slice());
}

// ---------------------------------------------------------------------------
// Trimming and splitting
// ---------------------------------------------------------------------------

/// `s` without its leading whitespace.
pub open spec fn trim_start_spec(s: Seq<char>) -> Seq<char>
    decreases s.len(),
{
    if s.len() > 0 && is_white_space(s[0]) {
        trim_start_spec(s.drop_first())
    } else {
        s
    }
}

/// `s` without its trailing whitespace.
pub open spec fn trim_end_spec(s: Seq<char>) -> Seq<char>
    decreases s.len(),
{
    if s.len() > 0 && is_white_space(s.last()) {
        trim_end_spec(s.drop_last())
    } else {
        s
    }
}

/// `s` without leading and trailing whitespace, as `str::trim` gives it.
pub open spec fn trim_spec(s: Seq<char>) -> Seq<char> {
    trim_end_spec(trim_start_spec(s))
}

/// Removes leading and trailing Unicode whitespace.
pub fn trim_chars(s: &[char]) -> (r: Vec<char>)
    ensures
        r@ == trim_spec(s@),
{
    let n = s.len();
    let mut i: usize = 0;
    assert(s@.subrange(0, n as int) =~= s@);
    while i < n && is_whitespace(s[i])
        invariant
            i <= n == s@.len(),
            trim_start_spec(s@) == trim_start_spec(s@.subrange(i as int, n as int)),
        decreases n - i,
    {
        assert(s@.subrange(i as int, n as int).drop_first() =~= s@.subrange(i + 1, n as int));
        i = i + 1;
    }
    assert(trim_start_spec(s@) == s@.subrange(i as int, n as int));
    let mut j: usize = n;
    while j > i && is_whitespace(s[j - 1])
        invariant
            i <= j <= n == s@.len(),
            trim_spec(s@) == trim_end_spec(s@.subrange(i as int, j as int)),
        decreases j,
    {
        assert(s@.subrange(i as int, j as int).drop_last() =~= s@.subrange(i as int, j - 1));
        j = j - 1;
    }
    sub_chars(s, i, j)
}

/// Index of the first whitespace character of `s`, if any.
pub open spec fn first_ws(s: Seq<char>) -> Option<int>
    decreases s.len(),
{
    if s.len() == 0 {
        None
    } else if is_white_space(s[0]) {
        Some(0)
    } else {
        match first_ws(s.drop_first()) {
            Some(i) => Some(i + 1),
            None => None,
        }
    }
}

/// Facts that pin down `first_ws`.
pub proof fn lemma_first_ws(s: Seq<char>)
    ensures
        first_ws(s) matches Some(i) ==> 0 <= i < s.len() && is_white_space(s[i]) && forall|
            j: int,
        |
            0 <= j < i ==> !is_white_space(#[trigger] s[j]),
        first_ws(s) is None ==> forall|j: int| 0 <= j < s.len() ==> !is_white_space(#[trigger] s[j]),
    decreases s.len(),
{
    if s.len() > 0 && !is_white_space(s[0]) {
        lemma_first_ws(s.drop_first());
        assert forall|j: int| 0 < j < s.len() implies s[j] == s.drop_first()[j - 1] by {}
    }
}

/// The two pieces `splitn(2, char::is_whitespace)` yields: the text before the
/// first whitespace character, and the text after it if there is one.
pub open spec fn split_first_ws_spec(s: Seq<char>) -> (Seq<char>, Option<Seq<char>>) {
    match first_ws(s) {
        Some(i) => (s.subrange(0, i), Some(s.subrange(i + 1, s.len() as int))),
        None => (s, None),
    }
}

/// Splits `s` at its first whitespace character.
pub fn split_first_ws(s: &[char]) -> (r: (Vec<char>, Option<Vec<char>>))
    ensures
        r.0@ == split_first_ws_spec(s@).0,
        r.1 is Some == split_first_ws_spec(s@).1 is Some,
        r.1 matches Some(rest) ==> rest@ == split_first_ws_spec(s@).1->0,
{
    proof {
        lemma_first_ws(s@);
    }
    let n = s.len();
    let mut i: usize = 0;
    while i < n
        invariant
            i <= n == s@.len(),
            forall|j: int| 0 <= j < i ==> !is_white_space(#[trigger] s@[j]),
        decreases n - i,
    {
        if is_whitespace(s[i]) {
            proof {
                lemma_first_ws(s@);
            }
            assert(first_ws(s@) == Some(i as int)) by {
                if first_ws(s@) is None {
                    assert(!is_white_space(s@[i as int]));
                } else {
                    let k = first_ws(s@)->0;
                    if k < i {
                        assert(!is_white_space(s@[k]));
                    } else if k > i {
                        assert(!is_white_space(s@[i as int]));
                    }
                }
            }
            let head = sub_chars(s, 0, i);
            let rest = sub_chars(s, i + 1, n);
            return (head, Some(rest));
        }
        i = i + 1;
    }
    assert(first_ws(s@) is None) by {
        lemma_first_ws(s@);
        if first_ws(s@) is Some {
            let k = first_ws(s@)->0;
            assert(!is_white_space(s@[k]));
        }
    }
    let all = sub_chars(s, 0, n);
    assert(all@ =~= s@);
    (all, None)
}

// ---------------------------------------------------------------------------
// The quoted-argument tokenizer
// ---------------------------------------------------------------------------

/// State of the tokenizer: tokens emitted so far, the token being read,
/// whether a quoted section is open, and whether a backslash escape is pending.
pub type TokState = (Seq<Seq<char>>, Seq<char>, bool, bool);

/// The state before any character is read.
pub open spec fn tok_init() -> TokState {
    (Seq::empty(), Seq::empty(), false, false)
}

/// One character of input. With `escapes`, a backslash inside quotes makes
/// the next character literal; double quotes toggle quoting and are dropped;
/// whitespace outside quotes ends the current token.
pub open spec fn tok_step(st: TokState, ch: char, escapes: bool) -> TokState {
    let (tokens, current, in_quotes, escaped) = st;
    if escaped {
        (tokens, current.push(ch), in_quotes, false)
    } else if escapes && ch == '\\' && in_quotes {
        (tokens, current, in_quotes, true)
    } else if ch == '"' {
        (tokens, current, !in_quotes, false)
    } else if is_white_space(ch) && !in_quotes {
        if current.len() > 0 {
            (tokens.push(current), Seq::empty(), in_quotes, false)
        } else {
            st
        }
    } else {
        (tokens, current.push(ch), in_quotes, false)
    }
}

/// The state after reading all of `s`, starting from `st`.
pub open spec fn tok_run(st: TokState, s: Seq<char>, escapes: bool) -> TokState
    decreases s.len(),
{
    if s.len() == 0 {
        st
    } else {
        tok_step(tok_run(st, s.drop_last(), escapes), s.last(), escapes)
    }
}

/// The tokens of a final state: the pending token is kept if non-empty.
pub open spec fn tok_finish(st: TokState) -> Seq<Seq<char>> {
    if st.1.len() > 0 {
        st.0.push(st.1)
    } else {
        st.0
    }
}

/// Tokens of `s` with backslash escapes; `None` when a quote or an escape is
/// left open at the end.
pub open spec fn tokenize_spec(s: Seq<char>) -> Option<Seq<Seq<char>>> {
    let st = tok_run(tok_init(), s, true);
    if st.3 || st.2 {
        None
    } else {
        Some(tok_finish(st))
    }
}

/// Reading `a + b` is reading `a`, then `b`.
pub proof fn lemma_tok_run_append(st: TokState, a: Seq<char>, b: Seq<char>, escapes: bool)
    ensures
        tok_run(st, a + b, escapes) == tok_run(tok_run(st, a, escapes), b, escapes),
    decreases b.len(),
{
    if b.len() == 0 {
        assert(a + b =~= a);
    } else {
        assert((a + b).drop_last() =~= a + b.drop_last());
        lemma_tok_run_append(st, a, b.drop_last(), escapes);
    }
}

/// Runs the tokenizer over `input` and returns its final state.
pub fn tokenize_state(input: &[char], escapes: bool) -> (r: (Vec<String>, Vec<char>, bool, bool))
    ensures
        r.0.deep_view() == tok_run(tok_init(), input@, escapes).0,
        r.1@ == tok_run(tok_init(), input@, escapes).1,
        r.2 == tok_run(tok_init(), input@, escapes).2,
        r.3 == tok_run(tok_init(), input@, escapes).3,
{
    let mut tokens: Vec<String> = Vec::new();
    let mut current: Vec<char> = Vec::new();
    let mut in_quotes = false;
    let mut escaped = false;
    let mut i: usize = 0;
    while i < input.len()
        invariant
            i <= input@.len(),
            (tokens.deep_view(), current@, in_quotes, escaped) == tok_run(
                tok_init(),
                input@.subrange(0, i as int),
                escapes,
            ),
        decreases input@.len() - i,
    {
        let ch = input[i];
        proof {
            assert(input@.subrange(0, i + 1).drop_last() =~= input@.subrange(0, i as int));
        }
        if escaped {
            current.push(ch);
            escaped = false;
        } else if escapes && ch == '\\' && in_quotes {
            escaped = true;
        } else if ch == '"' {
            in_quotes = !in_quotes;
        } else if is_whitespace(ch) && !in_quotes {
            if current.len() > 0 {
                let tok = string_of(current.as_slice());
                let ghost old_tokens = tokens.deep_view();
                tokens.push(tok);
                current = Vec::new();
                assert(tokens.deep_view() =~= old_tokens.push(tok@));
            }
        } else {
            current.push(ch);
        }
        i = i + 1;
    }
    assert(input@.subrange(0, i as int) =~= input@);
    (tokens, current, in_quotes, escaped)
}

/// The tokens of a final tokenizer state, as `Vec<String>`.
pub fn finish_tokens(tokens: Vec<String>, current: &[char]) -> (r: Vec<String>)
    ensures
        r.deep_view() == tok_finish((tokens.deep_view(), current@, false, false)),
{
    let mut tokens = tokens;
    if current.len() > 0 {
        let ghost old_tokens = tokens.deep_view();
        let tok = string_of(current);
        tokens.push(tok);
        assert(tokens.deep_view() =~= old_tokens.push(current@));
    }
    tokens
}

/// Splits `input` into whitespace-separated tokens, where double quotes group
/// words and a backslash inside quotes escapes the next character. `None` when
/// a quote or an escape is left open.
pub fn tokenize_quoted(input: &str) -> (r: Option<Vec<String>>)
    ensures
        r is Some == tokenize_spec(input@) is Some,
        r matches Some(t) ==> t.deep_view() == tokenize_spec(input@)->0,
{
    let chars = chars_of(input);
    let (tokens, current, in_quotes, escaped) = tokenize_state(chars.as_slice(), true);
    if escaped || in_quotes {
        return None;
    }
    Some(finish_tokens(tokens, current.as_slice()))
}

// ---------------------------------------------------------------------------
// Escaping and quoting of arguments
// ---------------------------------------------------------------------------

/// The wire form of one character inside a quoted argument.
pub open spec fn escape_char(c: char) -> Seq<char> {
    if c == '\\' {
        seq!['\\', '\\']
    } else if c == '"' {
        seq!['\\', '"']
    } else {
        seq![c]
    }
}

/// `v` with every backslash and double quote preceded by a backslash.
pub open spec fn escape_spec(v: Seq<char>) -> Seq<char>
    decreases v.len(),
{
    if v.len() == 0 {
        Seq::empty()
    } else {
        escape_spec(v.drop_last()) + escape_char(v.last())
    }
}

/// `v` escaped and wrapped in double quotes.
pub open spec fn quoted_spec(v: Seq<char>) -> Seq<char> {
    seq!['"'] + escape_spec(v) + seq!['"']
}

/// Escapes backslashes and double quotes of `value`.
pub fn escape_chars(value: &[char]) -> (r: Vec<char>)
    ensures
        r@ == escape_spec(value@),
{
    let mut out: Vec<char> = Vec::new();
    let mut i: usize = 0;
    while i < value.len()
        invariant
            i <= value@.len(),
            out@ == escape_spec(value@.subrange(0, i as int)),
        decreases value@.len() - i,
    {
        let c = value[i];
        proof {
            assert(value@.subrange(0, i + 1).drop_last() =~= value@.subrange(0, i as int));
        }
        let ghost before = out@;
        if c == '\\' {
            out.push('\\');
            out.push('\\');
        } else if c == '"' {
            out.push('\\');
            out.push('"');
        } else {
            out.push(c);
        }
        assert(out@ =~= before + escape_char(c));
        i = i + 1;
    }
    assert(value@.subrange(0, value@.len() as int) =~= value@);
    out
}

/// Appends `"` + escaped `value` + `"` to `dst`.
pub fn push_quoted(dst: &mut Vec<char>, value: &str)
    ensures
        final(dst)@ == old(dst)@ + quoted_spec(value@),
{
    let v = chars_of(value);
    let e = escape_chars(v.as_slice());
    dst.push('"');
    push_all(dst, e.as_slice());
    dst.push('"');
    assert(dst@ =~= old(dst)@ + quoted_spec(value@));
}

/// Escaped `value` wrapped in double quotes.
pub fn quote_chars(value: &str) -> (r: Vec<char>)
    ensures
        r@ == quoted_spec(value@),
{
    let mut out: Vec<char> = Vec::new();
    push_quoted(&mut out, value);
    assert(out@ =~= quoted_spec(value@));
    out
}

/// Tokenizing the escaped form of `v` inside an open quote appends `v` to the
/// pending token and leaves the quote open.
pub proof fn lemma_tok_run_escaped(tokens: Seq<Seq<char>>, current: Seq<char>, v: Seq<char>)
    ensures
        tok_run((tokens, current, true, false), escape_spec(v), true) == (
            tokens,
            current + v,
            true,
            false,
        ),
    decreases v.len(),
{
    if v.len() == 0 {
        assert(current + v =~= current);
    } else {
        let w = v.drop_last();
        let c = v.last();
        lemma_tok_run_escaped(tokens, current, w);
        lemma_tok_run_append((tokens, current, true, false), escape_spec(w), escape_char(c), true);
        let mid = (tokens, current + w, true, false);
        let e: Seq<char> = Seq::empty();
        assert(tok_run(mid, e, true) == mid);
        if c == '\\' || c == '"' {
            assert(escape_char(c).drop_last() =~= seq!['\\']);
            assert(seq!['\\'].drop_last() =~= e);
            assert(tok_run(mid, seq!['\\'], true) == tok_step(mid, '\\', true));
            assert(tok_run(mid, escape_char(c), true) == tok_step(
                tok_run(mid, seq!['\\'], true),
                c,
                true,
            ));
        } else {
            assert(escape_char(c).drop_last() =~= e);
            assert(tok_run(mid, escape_char(c), true) == tok_step(mid, c, true));
        }
        assert(current + w + seq![c] =~= current + v);
        assert((current + w).push(c) =~= current + v);
    }
}

/// A quoted argument, read from a state with no open quote or escape, appends
/// its value to the pending token.
pub proof fn lemma_tok_run_quoted(tokens: Seq<Seq<char>>, current: Seq<char>, v: Seq<char>)
    ensures
        tok_run((tokens, current, false, false), quoted_spec(v), true) == (
            tokens,
            current + v,
            false,
            false,
        ),
{
    let st = (tokens, current, false, false);
    let e: Seq<char> = Seq::empty();
    lemma_tok_run_append(st, seq!['"'] + escape_spec(v), seq!['"'], true);
    lemma_tok_run_append(st, seq!['"'], escape_spec(v), true);
    assert(seq!['"'].drop_last() =~= e);
    assert(tok_run(st, e, true) == st);
    assert(tok_run(st, seq!['"'], true) == tok_step(st, '"', true));
    lemma_tok_run_escaped(tokens, current, v);
    let st2 = (tokens, current + v, true, false);
    assert(tok_run(st2, e, true) == st2);
    assert(tok_run(st2, seq!['"'], true) == tok_step(st2, '"', true));
}

// ---------------------------------------------------------------------------
// Decimal integers
// ---------------------------------------------------------------------------

/// The character of a decimal digit.
pub open spec fn digit_char(d: nat) -> char {
    (('0' as u32) + d) as char
}

/// Decimal digits of `n`, most significant first, without leading zeros.
pub open spec fn digits_spec(n: nat) -> Seq<char>
    decreases n,
{
    if n < 10 {
        seq![digit_char(n)]
    } else {
        digits_spec(n / 10).push(digit_char(n % 10))
    }
}

/// Decimal text of a signed integer, as `i64::to_string` gives it.
pub open spec fn int_text(n: int) -> Seq<char> {
    if n < 0 {
        seq!['-'] + digits_spec((-n) as nat)
    } else {
        digits_spec(n as nat)
    }
}

/// Appends the decimal digits of `n` to `out`.
pub fn push_digits(out: &mut Vec<char>, n: u64)
    ensures
        final(out)@ == old(out)@ + digits_spec(n as nat),
    decreases n,
{
    if n < 10 {
        let c = char_of_digit(n);
        out.push(c);
        assert(out@ =~= old(out)@ + digits_spec(n as nat));
    } else {
        push_digits(out, n / 10);
        let c = char_of_digit(n % 10);
        out.push(c);
        assert(out@ =~= old(out)@ + digits_spec(n as nat));
    }
}

/// The character of decimal digit `d`.
pub fn char_of_digit(d: u64) -> (c: char)
    requires
        d < 10,
    ensures
        c == digit_char(d as nat),
{
    if d == 0 {
        '0'
    } else if d == 1 {
        '1'
    } else if d == 2 {
        '2'
    } else if d == 3 {
        '3'
    } else if d == 4 {
        '4'
    } else if d == 5 {
        '5'
    } else if d == 6 {
        '6'
    } else if d == 7 {
        '7'
    } else if d == 8 {
        '8'
    } else {
        '9'
    }
}

/// Appends the decimal text of `n` to `out`.
pub fn push_i64(out: &mut Vec<char>, n: i64)
    ensures
        final(out)@ == old(out)@ + int_text(n as int),
{
    if n < 0 {
        out.push('-');
        let m: u64 = (-(n as i128)) as u64;
        push_digits(out, m);
        assert(out@ =~= old(out)@ + int_text(n as int));
    } else {
        push_digits(out, n as u64);
    }
}

/// Decimal text of `n`.
pub fn i64_to_string(n: i64) -> (r: String)
    ensures
        r@ == int_text(n as int),
{
    let mut out: Vec<char> = Vec::new();
    push_i64(&mut out, n);
    assert(out@ =~= int_text(n as int));
    string_of(out.as_slice())
}

/// Whether `c` is an ASCII decimal digit.
pub open spec fn is_digit(c: char) -> bool {
    '0' <= c <= '9'
}

/// The value of a decimal digit character.
pub open spec fn digit_value(c: char) -> nat {
    ((c as u32) - ('0' as u32)) as nat
}

/// Value of a sequence of decimal digits.
pub open spec fn digits_value(s: Seq<char>) -> nat
    decreases s.len(),
{
    if s.len() == 0 {
        0
    } else {
        digits_value(s.drop_last()) * 10 + digit_value(s.last())
    }
}

/// Whether every character of `s` is a decimal digit.
pub open spec fn all_digits(s: Seq<char>) -> bool {
    forall|i: int| 0 <= i < s.len() ==> is_digit(#[trigger] s[i])
}

/// The integer that `str::parse` reads from `s`, before any range check:
/// an optional `+` (or `-` when `signed`) followed by one or more digits.
pub open spec fn parse_int_spec(s: Seq<char>, signed: bool) -> Option<int> {
    if s.len() > 0 && (s[0] == '+' || (signed && s[0] == '-')) {
        let d = s.drop_first();
        if d.len() > 0 && all_digits(d) {
            if s[0] == '-' {
                Some(-(digits_value(d) as int))
            } else {
                Some(digits_value(d) as int)
            }
        } else {
            None
        }
    } else if s.len() > 0 && all_digits(s) {
        Some(digits_value(s) as int)
    } else {
        None
    }
}

/// What `i64::from_str` returns for `s`.
pub open spec fn parse_i64_spec(s: Seq<char>) -> Option<i64> {
    match parse_int_spec(s, true) {
        Some(v) => if i64::MIN <= v <= i64::MAX {
            Some(v as i64)
        } else {
            None
        },
        None => None,
    }
}

/// What `u16::from_str` returns for `s`.
pub open spec fn parse_u16_spec(s: Seq<char>) -> Option<u16> {
    match parse_int_spec(s, false) {
        Some(v) => if 0 <= v <= u16::MAX {
            Some(v as u16)
        } else {
            None
        },
        None => None,
    }
}

/// Reads the value of a run of digits, stopping with `None` once it exceeds
/// `limit`.
fn digits_up_to(d: &[char], limit: u64) -> (r: Option<u64>)
    ensures
        r matches Some(v) ==> all_digits(d@) && v == digits_value(d@) && v <= limit,
        r is None ==> !all_digits(d@) || digits_value(d@) > limit,
{
    let mut acc: u128 = 0;
    let mut i: usize = 0;
    while i < d.len()
        invariant
            i <= d@.len(),
            all_digits(d@.subrange(0, i as int)),
            acc == digits_value(d@.subrange(0, i as int)),
            acc <= limit,
        decreases d@.len() - i,
    {
        let c = d[i];
        proof {
            assert(d@.subrange(0, i + 1).drop_last() =~= d@.subrange(0, i as int));
        }
        if !('0' <= c && c <= '9') {
            assert(!all_digits(d@)) by {
                assert(!is_digit(d@[i as int]));
            }
            return None;
        }
        let dv = (c as u32 - '0' as u32) as u128;
        assert(acc * 10 + dv <= u128::MAX) by (nonlinear_arith)
            requires
                acc <= limit,
                limit <= u64::MAX,
                dv < 10,
        ;
        let next = acc * 10 + dv;
        i = i + 1;
        if next > limit as u128 {
            proof {
                lemma_digits_value_prefix_mono(d@, i as int);
            }
            return None;
        }
        acc = next;
        assert(all_digits(d@.subrange(0, i as int)));
    }
    assert(d@.subrange(0, i as int) =~= d@);
    Some(acc as u64)
}

/// The value of a digit run is at least the value of any of its prefixes.
proof fn lemma_digits_value_prefix_mono(s: Seq<char>, k: int)
    requires
        0 <= k <= s.len(),
    ensures
        all_digits(s) ==> digits_value(s.subrange(0, k)) <= digits_value(s),
    decreases s.len() - k,
{
    if k < s.len() && all_digits(s) {
        lemma_digits_value_prefix_mono(s, k + 1);
        assert(s.subrange(0, k + 1).drop_last() =~= s.subrange(0, k));
        assert(is_digit(s[k]));
        let x = digits_value(s.subrange(0, k));
        let d = digit_value(s.subrange(0, k + 1).last());
        assert(digits_value(s.subrange(0, k + 1)) == x * 10 + d);
        assert(x * 10 + d >= x) by (nonlinear_arith)
            requires
                x >= 0,
                d >= 0,
        ;
    } else if k == s.len() {
        assert(s.subrange(0, k) =~= s);
    }
}

/// Parses a decimal `i64` as `i64::from_str` does.
pub fn parse_i64(s: &[char]) -> (r: Option<i64>)
    ensures
        r == parse_i64_spec(s@),
{
    let limit: u64 = 9223372036854775808;
    if s.len() > 0 && (s[0] == '+' || s[0] == '-') {
        let d = sub_chars(s, 1, s.len());
        assert(d@ =~= s@.drop_first());
        if d.len() == 0 {
            return None;
        }
        match digits_up_to(d.as_slice(), limit) {
            Some(v) => {
                if s[0] == '-' {
                    Some((-(v as i128)) as i64)
                } else if v <= 9223372036854775807 {
                    Some(v as i64)
                } else {
                    None
                }
            },
            None => None,
        }
    } else if s.len() > 0 {
        match digits_up_to(s, limit) {
            Some(v) => {
                if v <= 9223372036854775807 {
                    Some(v as i64)
                } else {
                    None
                }
            },
            None => None,
        }
    } else {
        None
    }
}

/// Parses a decimal `u16` as `u16::from_str` does.
pub fn parse_u16(s: &[char]) -> (r: Option<u16>)
    ensures
        r == parse_u16_spec(s@),
{
    if s.len() > 0 && s[0] == '+' {
        let d = sub_chars(s, 1, s.len());
        assert(d@ =~= s@.drop_first());
        if d.len() == 0 {
            return None;
        }
        match digits_up_to(d.as_slice(), 65535) {
            Some(v) => Some(v as u16),
            None => None,
        }
    } else if s.len() > 0 {
        match digits_up_to(s, 65535) {
            Some(v) => Some(v as u16),
            None => None,
        }
    } else {
        None
    }
}

/// Appends `n` to `out` as at least three decimal digits, zero-padded on the
/// left, as `format!("{:03}", n)` writes it.
pub fn push_u16_padded3(out: &mut Vec<char>, n: u16)
    ensures
        final(out)@ == old(out)@ + pad3_spec(n as nat),
{
    if n < 10 {
        out.push('0');
        out.push('0');
    } else if n < 100 {
        out.push('0');
    }
    push_digits(out, n as u64);
    proof {
        lemma_digits_len(n as nat);
    }
    assert(out@ =~= old(out)@ + pad3_spec(n as nat));
}

/// Decimal digits of `n`, padded on the left with zeros to three characters.
pub open spec fn pad3_spec(n: nat) -> Seq<char> {
    if n < 10 {
        seq!['0', '0'] + digits_spec(n)
    } else if n < 100 {
        seq!['0'] + digits_spec(n)
    } else {
        digits_spec(n)
    }
}

/// Numbers below 10 have one digit, below 100 two.
pub proof fn lemma_digits_len(n: nat)
    ensures
        n < 10 ==> digits_spec(n).len() == 1,
        10 <= n < 100 ==> digits_spec(n).len() == 2,
        digits_spec(n).len() >= 1,
    decreases n,
{
    if n >= 10 {
        lemma_digits_len(n / 10);
    }
}

} // verus!
