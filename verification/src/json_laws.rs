//! Reading back what was written: the text the writer makes of a document
//! reads back as the same document.
use vstd::prelude::*;

use crate::collections::seq_lt;
use crate::json_reader::{
    lemma_skip_ws, lemma_string_at_progress,
    has_lit, hex4, hex_problem, hex_value, is_hex, array_at, array_items, digits_end, document, insert_member, number_at, object_at,
    object_members, skip_ws, string_at, string_body, value_at, ReadStep, RawView, TextStep,
};
use crate::json_writer::{hex_upper, escape_char, escaped, items_text, members_text, string_literal, value_text};

verus! {

/// A number literal that reads, alone, as a whole number.
pub open spec fn number_literal(t: Seq<char>) -> bool {
    number_at(t, 0) == ReadStep::Value(RawView::Number(t), t.len() as int)
}

/// Whether the items are all well-formed.
pub open spec fn all_items_wf(items: Seq<RawView>) -> bool
    decreases items,
{
    if items.len() == 0 {
        true
    } else {
        all_items_wf(items.drop_last()) && well_formed(items.last())
    }
}

/// Whether the members have keys in strictly increasing order and
/// well-formed values.
pub open spec fn all_members_wf(m: Seq<(Seq<char>, RawView)>) -> bool
    decreases m,
{
    if m.len() == 0 {
        true
    } else {
        &&& all_members_wf(m.drop_last())
        &&& well_formed(m.last().1)
        &&& forall|j: int| 0 <= j < m.len() - 1 ==> seq_lt(#[trigger] m[j].0, m.last().0)
    }
}

/// A document the writer can write so that it reads back: numbers are
/// number literals, and object keys are in strictly increasing order.
pub open spec fn well_formed(v: RawView) -> bool
    decreases v,
{
    match v {
        RawView::Number(t) => number_literal(t),
        RawView::Array(items) => all_items_wf(items),
        RawView::Object(m) => all_members_wf(m),
        _ => true,
    }
}

/// A place where a written value may end: the end of the text, or a
/// separator or closing bracket.
pub open spec fn stops(s: Seq<char>, p: int) -> bool {
    p == s.len() || (0 <= p < s.len() && (s[p] == ',' || s[p] == ']' || s[p] == '}'))
}

/// Whether `s` holds `t` at index `i`.
pub open spec fn holds_at(s: Seq<char>, i: int, t: Seq<char>) -> bool {
    0 <= i && i + t.len() <= s.len() && s.subrange(i, i + t.len()) == t
}

/// A run of digits read in a text is read the same inside a longer text.
proof fn lemma_digits_end_shift(s: Seq<char>, i: int, t: Seq<char>, x: int)
    requires
        holds_at(s, i, t),
        stops(s, i + t.len()),
        0 <= x <= t.len(),
    ensures
        digits_end(s, i + x) == i + digits_end(t, x),
    decreases t.len() - x,
{
    if x < t.len() {
        assert(s[i + x] == t[x]);
        if '0' <= t[x] <= '9' {
            lemma_digits_end_shift(s, i, t, x + 1);
        }
    }
}

/// A number literal is read the same inside a text, where a value may end
/// after it.
proof fn lemma_number_in_text(s: Seq<char>, i: int, t: Seq<char>)
    requires
        number_literal(t),
        holds_at(s, i, t),
        stops(s, i + t.len()),
    ensures
        number_at(s, i) == ReadStep::Value(RawView::Number(t), i + t.len()),
{
    let n = t.len() as int;
    assert forall|p: int| 0 <= p < n implies s[i + p] == #[trigger] t[p] by {
        assert(s.subrange(i, i + n)[p] == s[i + p]);
    }
    let a = if 0 < n && t[0] == '-' {
        1int
    } else {
        0int
    };
    assert(a < n);
    assert('0' <= t[a] <= '9');
    let b = if t[a] == '0' {
        a + 1
    } else {
        digits_end(t, a + 1)
    };
    if t[a] != '0' {
        lemma_digits_end_shift(s, i, t, a + 1);
    }
    assert(b <= n) by {
        if t[a] != '0' {
            crate::json_laws::lemma_digits_end_le(t, a + 1);
        }
    }
    let c = if b < n && t[b] == '.' {
        digits_end(t, b + 1)
    } else {
        b
    };
    if b < n && t[b] == '.' {
        lemma_digits_end_shift(s, i, t, b + 1);
        lemma_digits_end_le(t, b + 1);
    }
    let d = if c + 1 < n && (t[c + 1] == '+' || t[c + 1] == '-') {
        c + 2
    } else {
        c + 1
    };
    if c < n && (t[c] == 'e' || t[c] == 'E') {
        lemma_digits_end_shift(s, i, t, d);
        lemma_digits_end_le(t, d);
    }
    assert(s.subrange(i, i + n) == t);
}

/// A run of digits ends within the text.
proof fn lemma_digits_end_le(t: Seq<char>, x: int)
    requires
        0 <= x <= t.len(),
    ensures
        x <= digits_end(t, x) <= t.len(),
    decreases t.len() - x,
{
    if x < t.len() && '0' <= t[x] <= '9' {
        lemma_digits_end_le(t, x + 1);
    }
}


/// Holding a concatenation is holding both parts, one after the other.
proof fn lemma_holds_concat(s: Seq<char>, i: int, a: Seq<char>, b: Seq<char>)
    requires
        holds_at(s, i, a + b),
    ensures
        holds_at(s, i, a),
        holds_at(s, i + a.len(), b),
{
    let w = s.subrange(i, i + a.len() + b.len());
    assert(w == a + b);
    assert forall|k: int| 0 <= k < a.len() implies #[trigger] s.subrange(i, i + a.len())[k] == a[k] by {
        assert(w[k] == s[i + k]);
        assert((a + b)[k] == a[k]);
    }
    assert(s.subrange(i, i + a.len()) =~= a);
    assert forall|k: int| 0 <= k < b.len() implies #[trigger] s.subrange(i + a.len(), i + a.len() + b.len())[k] == b[k] by {
        assert(w[a.len() + k] == s[i + a.len() + k]);
        assert((a + b)[a.len() + k] == b[k]);
    }
    assert(s.subrange(i + a.len(), i + a.len() + b.len()) =~= b);
}

/// Holding a text means holding each of its characters.
proof fn lemma_holds_char(s: Seq<char>, i: int, t: Seq<char>, p: int)
    requires
        holds_at(s, i, t),
        0 <= p < t.len(),
    ensures
        s[i + p] == t[p],
{
    assert(s.subrange(i, i + t.len())[p] == s[i + p]);
}

/// An upper-case hex digit reads back as its value.
proof fn lemma_hex_upper(d: int)
    requires
        0 <= d < 16,
    ensures
        is_hex(hex_upper(d)),
        hex_value(hex_upper(d)) == d,
{
    if d < 10 {
        assert((((('0' as u32) + d) as char) as u32) == ('0' as u32) + d);
    } else {
        assert((((('A' as u32) + d - 10) as char) as u32) == ('A' as u32) + d - 10);
    }
}

/// A written character reads back as itself.
proof fn lemma_escape_char_read(s: Seq<char>, i: int, acc: Seq<char>, c: char)
    requires
        holds_at(s, i, escape_char(c)),
    ensures
        string_body(s, i, acc) == string_body(s, i + escape_char(c).len(), acc.push(c)),
{
    let e = escape_char(c);
    lemma_holds_char(s, i, e, 0);
    if e.len() >= 2 {
        lemma_holds_char(s, i, e, 1);
    }
    if c != '"' && c != '\\' && c != '\n' && c != '\r' && c != '\t' && c != '\u{08}' && c
        != '\u{0C}' && (c as u32) < 0x20 {
        let u = c as u32;
        let hi = (u / 16) as int;
        let lo = (u % 16) as int;
        lemma_hex_upper(hi);
        lemma_hex_upper(lo);
        lemma_holds_char(s, i, e, 2);
        lemma_holds_char(s, i, e, 3);
        lemma_holds_char(s, i, e, 4);
        lemma_holds_char(s, i, e, 5);
        assert(hex_value('0') == 0);
        assert(hex_problem(s, i + 2, 4) is None);
        assert(hex_problem(s, i + 2, 3) is None);
        assert(hex_problem(s, i + 2, 2) is None);
        assert(hex_problem(s, i + 2, 1) is None);
        assert(hex_problem(s, i + 2, 0) is None);
        assert(hex4(s, i + 2) == u);
        vstd::utf8::char_u32_cast(c, u);
    }
}

/// Written characters read back as themselves.
proof fn lemma_escaped_read(s: Seq<char>, i: int, acc: Seq<char>, t: Seq<char>)
    requires
        holds_at(s, i, escaped(t)),
    ensures
        string_body(s, i, acc) == string_body(s, i + escaped(t).len(), acc + t),
    decreases t.len(),
{
    if t.len() == 0 {
        assert(acc + t =~= acc);
    } else {
        let u = t.drop_last();
        let c = t.last();
        lemma_holds_concat(s, i, escaped(u), escape_char(c));
        lemma_escaped_read(s, i, acc, u);
        lemma_escape_char_read(s, i + escaped(u).len(), acc + u, c);
        assert((acc + u).push(c) =~= acc + t);
    }
}

/// A written string literal reads back as its text.
proof fn lemma_string_literal_read(s: Seq<char>, i: int, t: Seq<char>)
    requires
        holds_at(s, i, string_literal(t)),
    ensures
        string_at(s, i) == TextStep::Done(t, i + string_literal(t).len()),
{
    let lit = string_literal(t);
    lemma_holds_concat(s, i, seq!['"'] + escaped(t), seq!['"']);
    lemma_holds_concat(s, i, seq!['"'], escaped(t));
    lemma_holds_char(s, i, lit, 0);
    lemma_holds_char(s, i, lit, lit.len() - 1);
    lemma_escaped_read(s, i + 1, Seq::empty(), t);
    assert(Seq::<char>::empty() + t =~= t);
}

/// The items are well-formed exactly when each of them is.
proof fn lemma_all_items_wf(items: Seq<RawView>)
    ensures
        all_items_wf(items) <==> forall|j: int| 0 <= j < items.len() ==> well_formed(#[trigger] items[j]),
    decreases items.len(),
{
    if items.len() > 0 {
        lemma_all_items_wf(items.drop_last());
        if forall|j: int| 0 <= j < items.len() ==> well_formed(#[trigger] items[j]) {
            assert forall|j: int| 0 <= j < items.len() - 1 implies well_formed(
                #[trigger] items.drop_last()[j],
            ) by {
                assert(items.drop_last()[j] == items[j]);
            }
        }
        if all_items_wf(items) {
            assert forall|j: int| 0 <= j < items.len() implies well_formed(#[trigger] items[j]) by {
                if j < items.len() - 1 {
                    assert(items.drop_last()[j] == items[j]);
                }
            }
        }
    }
}

/// Well-formed members have well-formed values and keys in strictly
/// increasing order.
proof fn lemma_all_members_wf(m: Seq<(Seq<char>, RawView)>)
    requires
        all_members_wf(m),
    ensures
        forall|j: int| 0 <= j < m.len() ==> well_formed(#[trigger] m[j].1),
        forall|j: int, k: int| 0 <= j < k < m.len() ==> seq_lt(#[trigger] m[j].0, #[trigger] m[k].0),
    decreases m.len(),
{
    if m.len() > 0 {
        let u = m.drop_last();
        lemma_all_members_wf(u);
        assert forall|j: int| 0 <= j < m.len() implies well_formed(#[trigger] m[j].1) by {
            if j < m.len() - 1 {
                assert(u[j] == m[j]);
            }
        }
        assert forall|j: int, k: int| 0 <= j < k < m.len() implies seq_lt(
            #[trigger] m[j].0,
            #[trigger] m[k].0,
        ) by {
            if k < m.len() - 1 {
                assert(u[j] == m[j] && u[k] == m[k]);
            }
        }
    }
}

/// A key greater than every key so far is added at the end.
proof fn lemma_insert_member_last(
    acc: Seq<(Seq<char>, RawView)>,
    k: Seq<char>,
    v: RawView,
)
    requires
        forall|j: int| 0 <= j < acc.len() ==> seq_lt(#[trigger] acc[j].0, k),
    ensures
        insert_member(acc, k, v) == acc.push((k, v)),
    decreases acc.len(),
{
    if acc.len() > 0 {
        crate::collections::lemma_seq_lt_order(acc[0].0, k, k);
        crate::collections::lemma_seq_lt_order(k, acc[0].0, k);
        let rest = acc.drop_first();
        assert forall|j: int| 0 <= j < rest.len() implies seq_lt(#[trigger] rest[j].0, k) by {
            assert(rest[j] == acc[j + 1]);
        }
        lemma_insert_member_last(rest, k, v);
        assert(seq![acc[0]] + rest.push((k, v)) =~= acc.push((k, v)));
    }
}

/// The text of items, from the first item on.
proof fn lemma_items_text_first(items: Seq<RawView>)
    requires
        items.len() >= 2,
    ensures
        items_text(items) == value_text(items[0]) + seq![','] + items_text(items.drop_first()),
    decreases items.len(),
{
    let u = items.drop_last();
    let w = items.drop_first();
    assert(items_text(items) == items_text(u) + seq![','] + value_text(items.last()));
    if items.len() == 2 {
        assert(u.len() == 1 && u[0] == items[0]);
        assert(w.len() == 1 && w[0] == items[1]);
        assert(items_text(u) == value_text(items[0]));
        assert(items_text(w) == value_text(items[1]));
    } else {
        lemma_items_text_first(u);
        assert(u.drop_first() =~= w.drop_last());
        assert(w.last() == items.last());
        assert(u[0] == items[0]);
        assert(items_text(w) == items_text(w.drop_last()) + seq![','] + value_text(w.last()));
        assert(items_text(items) =~= value_text(items[0]) + seq![','] + items_text(w));
    }
}

/// The text of members, from the first member on.
proof fn lemma_members_text_first(m: Seq<(Seq<char>, RawView)>)
    requires
        m.len() >= 2,
    ensures
        members_text(m) == string_literal(m[0].0) + seq![':'] + value_text(m[0].1) + seq![',']
            + members_text(m.drop_first()),
    decreases m.len(),
{
    let u = m.drop_last();
    let w = m.drop_first();
    assert(members_text(m) == members_text(u) + seq![','] + string_literal(m.last().0) + seq![':']
        + value_text(m.last().1));
    if m.len() == 2 {
        assert(u.len() == 1 && u[0] == m[0]);
        assert(w.len() == 1 && w[0] == m[1]);
        assert(members_text(u) == string_literal(m[0].0) + seq![':'] + value_text(m[0].1));
        assert(members_text(w) == string_literal(m[1].0) + seq![':'] + value_text(m[1].1));
        assert(members_text(m) =~= string_literal(m[0].0) + seq![':'] + value_text(m[0].1) + seq![',']
            + members_text(w));
    } else {
        lemma_members_text_first(u);
        assert(u.drop_first() =~= w.drop_last());
        assert(w.last() == m.last());
        assert(u[0] == m[0]);
        assert(members_text(w) == members_text(w.drop_last()) + seq![','] + string_literal(
            w.last().0,
        ) + seq![':'] + value_text(w.last().1));
        assert(members_text(m) =~= string_literal(m[0].0) + seq![':'] + value_text(m[0].1) + seq![',']
            + members_text(w));
    }
}

/// The text of items starts with the text of the first one.
proof fn lemma_items_text_start(items: Seq<RawView>)
    requires
        items.len() >= 1,
        well_formed(items[0]),
    ensures
        items_text(items).len() > 0,
        items_text(items)[0] == value_text(items[0])[0],
{
    lemma_text_start(items[0]);
    if items.len() >= 2 {
        lemma_items_text_first(items);
    }
}

/// A character that starts a written value is not whitespace.
proof fn lemma_first_not_ws(s: Seq<char>, i: int, v: RawView)
    requires
        well_formed(v),
        0 <= i < s.len(),
        s[i] == value_text(v)[0],
    ensures
        skip_ws(s, i) == i,
{
    reveal_strlit("null");
    reveal_strlit("true");
    reveal_strlit("false");
    lemma_text_start(v);
}

/// The text of a well-formed value is not empty, and its first character
/// tells its kind.
proof fn lemma_text_start(v: RawView)
    requires
        well_formed(v),
    ensures
        value_text(v).len() > 0,
        match v {
            RawView::Null => value_text(v) == "null"@,
            RawView::Bool(b) => value_text(v) == if b {
                "true"@
            } else {
                "false"@
            },
            RawView::Number(_) => value_text(v)[0] == '-' || '0' <= value_text(v)[0] <= '9',
            RawView::Str(_) => value_text(v)[0] == '"',
            RawView::Array(_) => value_text(v)[0] == '[',
            RawView::Object(_) => value_text(v)[0] == '{',
        },
{
    reveal_strlit("null");
    reveal_strlit("true");
    reveal_strlit("false");
    match v {
        RawView::Number(t) => {
            assert(number_at(t, 0) is Value);
        },
        _ => {},
    }
}

/// A character that starts a written value is not whitespace.
proof fn lemma_start_not_ws(s: Seq<char>, i: int, v: RawView)
    requires
        well_formed(v),
        holds_at(s, i, value_text(v)),
    ensures
        skip_ws(s, i) == i,
        s[i] == value_text(v)[0],
{
    reveal_strlit("null");
    reveal_strlit("true");
    reveal_strlit("false");
    lemma_text_start(v);
    lemma_holds_char(s, i, value_text(v), 0);
}

/// A written value reads back as itself, wherever a value may end after it.
proof fn lemma_value_read(s: Seq<char>, i: int, v: RawView)
    requires
        well_formed(v),
        holds_at(s, i, value_text(v)),
        stops(s, i + value_text(v).len()),
    ensures
        value_at(s, i) == ReadStep::Value(v, i + value_text(v).len()),
    decreases v,
{
    reveal_strlit("null");
    reveal_strlit("true");
    reveal_strlit("false");
    lemma_start_not_ws(s, i, v);
    let t = value_text(v);
    match v {
        RawView::Null => {
            assert(s[i] == 'n');
            assert(skip_ws(s, i) == i);
            assert(s.subrange(i, i + 4) == "null"@);
            assert(has_lit(s, i, "null"@));
            assert(0 <= i < s.len());
            assert(value_at(s, i) == ReadStep::Value(RawView::Null, i + 4));
            assert(value_text(v).len() == 4);
            assert(value_at(s, i) == ReadStep::Value(v, i + value_text(v).len()));
        },
        RawView::Bool(b) => {
            if !b {
                assert(s.subrange(i, i + 4)[0] == 'f');
                assert(s.subrange(i, i + 4) != "true"@);
            }
            assert(value_at(s, i) == ReadStep::Value(v, i + value_text(v).len()));
        },
        RawView::Number(n) => {
            lemma_number_in_text(s, i, n);
            assert(value_at(s, i) == ReadStep::Value(v, i + value_text(v).len()));
        },
        RawView::Str(x) => {
            lemma_string_literal_read(s, i, x);
            assert(value_at(s, i) == ReadStep::Value(v, i + value_text(v).len()));
        },
        RawView::Array(items) => {
            lemma_holds_concat(s, i, seq!['['] + items_text(items), seq![']']);
            lemma_holds_concat(s, i, seq!['['], items_text(items));
            let close = i + 1 + items_text(items).len();
            lemma_holds_char(s, i, t, t.len() - 1);
            assert(s[i] == '[');
            if items.len() == 0 {
                assert(items_text(items).len() == 0);
                assert(s[i + 1] == ']');
                assert(skip_ws(s, i + 1) == i + 1);
                assert(array_at(s, i) == ReadStep::Value(RawView::Array(Seq::empty()), i + 2));
                assert(items =~= Seq::<RawView>::empty());
            } else {
                lemma_all_items_wf(items);
                lemma_items_text_start(items);
                lemma_holds_char(s, i + 1, items_text(items), 0);
                lemma_first_not_ws(s, i + 1, items[0]);
                lemma_text_start(items[0]);
                assert(s[i + 1] != ']');
                lemma_items_read(s, i + 1, items, Seq::empty());
                assert(Seq::<RawView>::empty() + items =~= items);
                assert(array_at(s, i) == ReadStep::Value(v, i + value_text(v).len()));
            }
            assert(value_at(s, i) == ReadStep::Value(v, i + value_text(v).len()));
        },
        RawView::Object(m) => {
            lemma_holds_concat(s, i, seq!['{'] + members_text(m), seq!['}']);
            lemma_holds_concat(s, i, seq!['{'], members_text(m));
            lemma_holds_char(s, i, t, t.len() - 1);
            assert(s[i] == '{');
            if m.len() == 0 {
                assert(members_text(m).len() == 0);
                assert(s[i + 1] == '}');
                assert(skip_ws(s, i + 1) == i + 1);
                assert(m =~= Seq::<(Seq<char>, RawView)>::empty());
            } else {
                lemma_all_members_wf(m);
                lemma_holds_char(s, i + 1, members_text(m), 0);
                assert(members_text(m)[0] == '"') by {
                    if m.len() >= 2 {
                        lemma_members_text_first(m);
                    }
                }
                assert(skip_ws(s, i + 1) == i + 1);
                lemma_members_read(s, i + 1, m, Seq::empty());
                assert(Seq::<(Seq<char>, RawView)>::empty() + m =~= m);
                assert(object_at(s, i) == ReadStep::Value(v, i + value_text(v).len()));
            }
            assert(value_at(s, i) == ReadStep::Value(v, i + value_text(v).len()));
        },
    }
}

/// Written items read back as themselves, after the items `acc`.
proof fn lemma_items_read(s: Seq<char>, p: int, items: Seq<RawView>, acc: Seq<RawView>)
    requires
        items.len() >= 1,
        forall|j: int| 0 <= j < items.len() ==> well_formed(#[trigger] items[j]),
        holds_at(s, p, items_text(items)),
        p + items_text(items).len() < s.len(),
        s[p + items_text(items).len()] == ']',
    ensures
        array_items(s, p, acc) == ReadStep::Value(
            RawView::Array(acc + items),
            p + items_text(items).len() + 1,
        ),
    decreases items,
{
    let x = items[0];
    let tx = value_text(x);
    lemma_text_start(x);
    if items.len() == 1 {
        lemma_value_read(s, p, x);
        assert(acc.push(x) =~= acc + items);
    } else {
        let rest = items.drop_first();
        lemma_items_text_first(items);
        lemma_holds_concat(s, p, tx + seq![','], items_text(rest));
        lemma_holds_concat(s, p, tx, seq![',']);
        lemma_holds_char(s, p + tx.len(), seq![','], 0);
        lemma_value_read(s, p, x);
        assert forall|j: int| 0 <= j < rest.len() implies well_formed(#[trigger] rest[j]) by {
            assert(rest[j] == items[j + 1]);
        }
        lemma_items_text_start(rest);
        lemma_holds_char(s, p + tx.len() + 1, items_text(rest), 0);
        lemma_first_not_ws(s, p + tx.len() + 1, rest[0]);
        lemma_items_read(s, p + tx.len() + 1, rest, acc.push(x));
        assert(acc.push(x) + rest =~= acc + items);
    }
}

/// Written members read back as themselves, after the members `acc`, whose
/// keys all come before theirs.
proof fn lemma_members_read(
    s: Seq<char>,
    p: int,
    m: Seq<(Seq<char>, RawView)>,
    acc: Seq<(Seq<char>, RawView)>,
)
    requires
        m.len() >= 1,
        forall|j: int| 0 <= j < m.len() ==> well_formed(#[trigger] m[j].1),
        forall|j: int, k: int| 0 <= j < k < m.len() ==> seq_lt(#[trigger] m[j].0, #[trigger] m[k].0),
        forall|j: int, k: int|
            0 <= j < acc.len() && 0 <= k < m.len() ==> seq_lt(#[trigger] acc[j].0, #[trigger] m[k].0),
        holds_at(s, p, members_text(m)),
        p + members_text(m).len() < s.len(),
        s[p + members_text(m).len()] == '}',
    ensures
        object_members(s, p, acc) == ReadStep::Value(
            RawView::Object(acc + m),
            p + members_text(m).len() + 1,
        ),
    decreases m,
{
    let key = m[0].0;
    let x = m[0].1;
    let lit = string_literal(key);
    let tx = value_text(x);
    let head = lit + seq![':'] + tx;
    lemma_text_start(x);
    assert forall|j: int| 0 <= j < acc.len() implies seq_lt(#[trigger] acc[j].0, key) by {
        assert(seq_lt(acc[j].0, m[0].0));
    }
    lemma_insert_member_last(acc, key, x);
    if m.len() == 1 {
        assert(members_text(m) == head);
    } else {
        lemma_members_text_first(m);
        assert(members_text(m) == head + seq![','] + members_text(m.drop_first()));
    }
    let after = p + head.len();
    if m.len() == 1 {
        lemma_holds_concat(s, p, lit + seq![':'], tx);
    } else {
        lemma_holds_concat(s, p, head + seq![','], members_text(m.drop_first()));
        lemma_holds_concat(s, p, head, seq![',']);
        lemma_holds_char(s, after, seq![','], 0);
        lemma_holds_concat(s, p, lit + seq![':'], tx);
    }
    lemma_holds_concat(s, p, lit, seq![':']);
    lemma_holds_char(s, p + lit.len(), seq![':'], 0);
    lemma_string_literal_read(s, p, key);
    lemma_start_not_ws(s, p + lit.len() + 1, x);
    lemma_value_read(s, p + lit.len() + 1, x);
    if m.len() == 1 {
        assert(acc.push((key, x)) =~= acc + m);
    } else {
        let rest = m.drop_first();
        let acc2 = acc.push((key, x));
        assert forall|j: int| 0 <= j < rest.len() implies well_formed(#[trigger] rest[j].1) by {
            assert(rest[j] == m[j + 1]);
        }
        assert forall|j: int, k: int| 0 <= j < k < rest.len() implies seq_lt(
            #[trigger] rest[j].0,
            #[trigger] rest[k].0,
        ) by {
            assert(rest[j] == m[j + 1] && rest[k] == m[k + 1]);
        }
        assert forall|j: int, k: int| 0 <= j < acc2.len() && 0 <= k < rest.len() implies seq_lt(
            #[trigger] acc2[j].0,
            #[trigger] rest[k].0,
        ) by {
            assert(rest[k] == m[k + 1]);
            if j < acc.len() {
                assert(acc2[j] == acc[j]);
            } else {
                assert(acc2[j] == m[0]);
            }
        }
        let q = after + 1;
        if rest.len() >= 2 {
            lemma_members_text_first(rest);
        }
        let rk = rest[0].0;
        lemma_holds_char(s, q, members_text(rest), 0);
        assert(members_text(rest)[0] == '"') by {
            if rest.len() == 1 {
                assert(members_text(rest) == string_literal(rk) + seq![':'] + value_text(rest[0].1));
            }
        }
        lemma_members_read(s, q, rest, acc2);
        assert(acc2 + rest =~= acc + m);
    }
}

/// What the writer writes of a well-formed document reads back as the
/// same document, the whole text being read.
pub proof fn lemma_read_of_write(v: RawView)
    requires
        well_formed(v),
    ensures
        document(value_text(v)) == ReadStep::Value(v, value_text(v).len() as int),
{
    let t = value_text(v);
    assert(t.subrange(0, t.len() as int) =~= t);
    lemma_value_read(t, 0, v);
}

/// A run of digits read inside a text, ending within `[j, e]`, reads the
/// same in the piece of the text from `j` to `e`.
proof fn lemma_digits_end_unshift(s: Seq<char>, j: int, e: int, x: int)
    requires
        0 <= j,
        j + x <= e <= s.len(),
        0 <= x,
        digits_end(s, j + x) <= e,
    ensures
        digits_end(s.subrange(j, e), x) == digits_end(s, j + x) - j,
    decreases e - (j + x),
{
    let t = s.subrange(j, e);
    if j + x < e {
        assert(t[x] == s[j + x]);
        if '0' <= s[j + x] <= '9' {
            lemma_digits_end_unshift(s, j, e, x + 1);
        }
    } else {
        lemma_digits_end_le(s, e);
    }
}

/// A number the reader reads is a number literal.
#[verifier::rlimit(80)]
#[verifier::spinoff_prover]
proof fn lemma_number_read_is_literal(s: Seq<char>, j: int)
    requires
        0 <= j < s.len(),
        number_at(s, j) matches ReadStep::Value(RawView::Number(_), _),
    ensures
        number_at(s, j) matches ReadStep::Value(RawView::Number(t), e) && number_literal(t) && t
            == s.subrange(j, e) && j < e <= s.len(),
{
    let a = if s[j] == '-' {
        j + 1
    } else {
        j
    };
    assert(a < s.len() && '0' <= s[a] <= '9');
    let b = if s[a] == '0' {
        a + 1
    } else {
        digits_end(s, a + 1)
    };
    if s[a] != '0' {
        lemma_digits_end_le(s, a + 1);
    }
    let frac = b < s.len() && s[b] == '.';
    assert(frac ==> b + 1 < s.len() && '0' <= s[b + 1] <= '9');
    let c = if frac {
        digits_end(s, b + 1)
    } else {
        b
    };
    if frac {
        lemma_digits_end_le(s, b + 1);
        assert(digits_end(s, b + 1) == digits_end(s, b + 2));
        lemma_digits_end_le(s, b + 2);
    }
    let exp = c < s.len() && (s[c] == 'e' || s[c] == 'E');
    let d = if c + 1 < s.len() && (s[c + 1] == '+' || s[c + 1] == '-') {
        c + 2
    } else {
        c + 1
    };
    assert(exp ==> d < s.len() && '0' <= s[d] <= '9');
    let e = if exp {
        digits_end(s, d)
    } else {
        c
    };
    if exp {
        assert(digits_end(s, d) == digits_end(s, d + 1));
        lemma_digits_end_le(s, d + 1);
    }
    assert(number_at(s, j) == ReadStep::Value(RawView::Number(s.subrange(j, e)), e));
    assert(a < b <= c <= e);
    let t = s.subrange(j, e);
    let n = e - j;
    assert forall|p: int| 0 <= p < n implies #[trigger] t[p] == s[j + p] by {}
    let at = a - j;
    assert(t[0] == s[j]);
    assert(at == if 0 < n && t[0] == '-' {
        1int
    } else {
        0int
    });
    assert(t[at] == s[a]);
    let bt = b - j;
    if s[a] != '0' {
        lemma_digits_end_unshift(s, j, e, a + 1 - j);
        assert(bt == digits_end(t, at + 1));
    }
    if b < e {
        assert(t[bt] == s[b]);
    }
    let ct = c - j;
    if frac {
        assert(t[bt + 1] == s[b + 1]);
        lemma_digits_end_unshift(s, j, e, b + 1 - j);
        assert(ct == digits_end(t, bt + 1));
    } else {
        assert(!(bt < n && t[bt] == '.'));
    }
    if c < e {
        assert(t[ct] == s[c]);
    }
    if exp {
        assert(c + 1 < e);
        assert(t[ct + 1] == s[c + 1]);
        let dt = d - j;
        assert(t[dt] == s[d]);
        lemma_digits_end_unshift(s, j, e, d - j);
        assert(n == digits_end(t, dt));
    } else {
        assert(!(ct < n && (t[ct] == 'e' || t[ct] == 'E')));
        assert(ct == n);
    }
    assert(t.subrange(0, n) =~= t);
    assert(number_at(t, 0) == ReadStep::Value(RawView::Number(t), n));
}

/// Sorted members: keys strictly increasing, values well-formed.
pub open spec fn sorted_members(m: Seq<(Seq<char>, RawView)>) -> bool {
    &&& forall|j: int| 0 <= j < m.len() ==> well_formed(#[trigger] m[j].1)
    &&& forall|j: int, k: int| 0 <= j < k < m.len() ==> seq_lt(#[trigger] m[j].0, #[trigger] m[k].0)
}

/// Sorted members are well-formed members.
proof fn lemma_sorted_members_wf(m: Seq<(Seq<char>, RawView)>)
    requires
        sorted_members(m),
    ensures
        all_members_wf(m),
    decreases m.len(),
{
    if m.len() > 0 {
        let u = m.drop_last();
        assert forall|j: int| 0 <= j < u.len() implies well_formed(#[trigger] u[j].1) by {
            assert(u[j] == m[j]);
        }
        assert forall|j: int, k: int| 0 <= j < k < u.len() implies seq_lt(
            #[trigger] u[j].0,
            #[trigger] u[k].0,
        ) by {
            assert(u[j] == m[j] && u[k] == m[k]);
        }
        lemma_sorted_members_wf(u);
        assert forall|j: int| 0 <= j < m.len() - 1 implies seq_lt(#[trigger] m[j].0, m.last().0) by {
            assert(seq_lt(m[j].0, m[m.len() - 1].0));
        }
    }
}

/// The keys after adding a member are the new key and the old keys.
proof fn lemma_insert_member_keys(m: Seq<(Seq<char>, RawView)>, k: Seq<char>, v: RawView)
    ensures
        forall|x: int|
            0 <= x < insert_member(m, k, v).len() ==> (#[trigger] insert_member(m, k, v)[x]).0 == k
                || exists|y: int| 0 <= y < m.len() && m[y].0 == insert_member(m, k, v)[x].0,
        forall|x: int|
            0 <= x < insert_member(m, k, v).len() ==> (#[trigger] insert_member(m, k, v)[x]) == (
            k,
            v,
        ) || exists|y: int| 0 <= y < m.len() && m[y] == insert_member(m, k, v)[x],
    decreases m.len(),
{
    let r = insert_member(m, k, v);
    if m.len() > 0 && m[0].0 != k && !seq_lt(k, m[0].0) {
        let rest = m.drop_first();
        lemma_insert_member_keys(rest, k, v);
        let q = insert_member(rest, k, v);
        assert(r == seq![m[0]] + q);
        assert forall|x: int| 0 <= x < r.len() implies (#[trigger] r[x]).0 == k || exists|y: int|
            0 <= y < m.len() && m[y].0 == r[x].0 by {
            if x > 0 {
                assert(r[x] == q[x - 1]);
                if q[x - 1].0 != k {
                    let y = choose|y: int| 0 <= y < rest.len() && rest[y].0 == q[x - 1].0;
                    assert(m[y + 1] == rest[y]);
                }
            } else {
                assert(m[0].0 == r[0].0);
            }
        }
        assert forall|x: int| 0 <= x < r.len() implies (#[trigger] r[x]) == (k, v) || exists|y: int|
            0 <= y < m.len() && m[y] == r[x] by {
            if x > 0 {
                assert(r[x] == q[x - 1]);
                if q[x - 1] != (k, v) {
                    let y = choose|y: int| 0 <= y < rest.len() && rest[y] == q[x - 1];
                    assert(m[y + 1] == rest[y]);
                }
            } else {
                assert(m[0] == r[0]);
            }
        }
    } else if m.len() > 0 && m[0].0 == k {
        assert forall|x: int| 0 <= x < r.len() implies (#[trigger] r[x]) == (k, v) || exists|y: int|
            0 <= y < m.len() && m[y] == r[x] by {
            if x > 0 {
                assert(m[x] == r[x]);
            }
        }
        assert forall|x: int| 0 <= x < r.len() implies (#[trigger] r[x]).0 == k || exists|y: int|
            0 <= y < m.len() && m[y].0 == r[x].0 by {
            if x > 0 {
                assert(m[x] == r[x]);
            }
        }
    } else if m.len() > 0 {
        assert forall|x: int| 0 <= x < r.len() implies (#[trigger] r[x]) == (k, v) || exists|y: int|
            0 <= y < m.len() && m[y] == r[x] by {
            if x > 0 {
                assert(m[x - 1] == r[x]);
            }
        }
        assert forall|x: int| 0 <= x < r.len() implies (#[trigger] r[x]).0 == k || exists|y: int|
            0 <= y < m.len() && m[y].0 == r[x].0 by {
            if x > 0 {
                assert(m[x - 1] == r[x]);
            }
        }
    }
}

/// Adding a member keeps members sorted.
proof fn lemma_insert_member_sorted(m: Seq<(Seq<char>, RawView)>, k: Seq<char>, v: RawView)
    requires
        sorted_members(m),
        well_formed(v),
    ensures
        sorted_members(insert_member(m, k, v)),
    decreases m.len(),
{
    let r = insert_member(m, k, v);
    if m.len() == 0 {
    } else if m[0].0 == k {
        assert forall|j: int, l: int| 0 <= j < l < r.len() implies seq_lt(
            #[trigger] r[j].0,
            #[trigger] r[l].0,
        ) by {
            assert(r[j].0 == m[j].0 && r[l].0 == m[l].0);
        }
    } else if seq_lt(k, m[0].0) {
        assert forall|j: int, l: int| 0 <= j < l < r.len() implies seq_lt(
            #[trigger] r[j].0,
            #[trigger] r[l].0,
        ) by {
            assert(r[l] == m[l - 1]);
            if j == 0 {
                if l > 1 {
                    crate::collections::lemma_seq_lt_trans(k, m[0].0, m[l - 1].0);
                }
            } else {
                assert(r[j] == m[j - 1]);
            }
        }
    } else {
        crate::collections::lemma_seq_lt_order(m[0].0, k, k);
        let rest = m.drop_first();
        assert forall|j: int| 0 <= j < rest.len() implies well_formed(#[trigger] rest[j].1) by {
            assert(rest[j] == m[j + 1]);
        }
        assert forall|j: int, l: int| 0 <= j < l < rest.len() implies seq_lt(
            #[trigger] rest[j].0,
            #[trigger] rest[l].0,
        ) by {
            assert(rest[j] == m[j + 1] && rest[l] == m[l + 1]);
        }
        lemma_insert_member_sorted(rest, k, v);
        lemma_insert_member_keys(rest, k, v);
        let q = insert_member(rest, k, v);
        assert(r == seq![m[0]] + q);
        assert forall|j: int, l: int| 0 <= j < l < r.len() implies seq_lt(
            #[trigger] r[j].0,
            #[trigger] r[l].0,
        ) by {
            assert(r[l] == q[l - 1]);
            if j == 0 {
                assert(r[0] == m[0]);
                if q[l - 1].0 != k {
                    let y = choose|y: int| 0 <= y < rest.len() && rest[y].0 == q[l - 1].0;
                    assert(rest[y] == m[y + 1]);
                }
            } else {
                assert(r[j] == q[j - 1]);
            }
        }
        assert forall|j: int| 0 <= j < r.len() implies well_formed(#[trigger] r[j].1) by {
            if j > 0 {
                assert(r[j] == q[j - 1]);
            }
        }
    }
}

/// A value the reader reads is well-formed.
proof fn lemma_value_read_wf(s: Seq<char>, i: int)
    ensures
        value_at(s, i) matches ReadStep::Value(v, _) ==> well_formed(v),
    decreases s.len() - i, 2int,
{
    let j = skip_ws(s, i);
    lemma_skip_ws(s, i);
    if 0 <= j < s.len() {
        if s[j] == '-' || ('0' <= s[j] <= '9') {
            if number_at(s, j) is Value {
                lemma_number_read_is_literal(s, j);
            }
        } else if s[j] == '[' {
            lemma_array_at_wf(s, j);
        } else if s[j] == '{' {
            lemma_object_at_wf(s, j);
        }
    }
}

/// An array the reader reads is well-formed.
proof fn lemma_array_at_wf(s: Seq<char>, j: int)
    requires
        0 <= j < s.len(),
    ensures
        array_at(s, j) matches ReadStep::Value(v, _) ==> well_formed(v),
    decreases s.len() - j, 1int,
{
    let k = skip_ws(s, j + 1);
    lemma_skip_ws(s, j + 1);
    if !(k < s.len() && s[k] == ']') {
        lemma_array_items_wf(s, k, Seq::empty());
    }
}

/// The items of an array the reader reads, after well-formed items, are
/// well-formed.
proof fn lemma_array_items_wf(s: Seq<char>, i: int, acc: Seq<RawView>)
    requires
        all_items_wf(acc),
        0 <= i <= s.len(),
    ensures
        array_items(s, i, acc) matches ReadStep::Value(v, _) ==> well_formed(v),
    decreases s.len() - i, 3int,
{
    lemma_value_read_wf(s, i);
    match value_at(s, i) {
        ReadStep::Value(v, k) => {
            if !(k <= i || k > s.len()) {
                let k2 = skip_ws(s, k);
                lemma_skip_ws(s, k);
                assert(acc.push(v).drop_last() =~= acc);
                if k2 < s.len() && s[k2] == ',' {
                    lemma_skip_ws(s, k2 + 1);
                    lemma_array_items_wf(s, skip_ws(s, k2 + 1), acc.push(v));
                }
            }
        },
        _ => {},
    }
}

/// An object the reader reads is well-formed.
proof fn lemma_object_at_wf(s: Seq<char>, j: int)
    requires
        0 <= j < s.len(),
    ensures
        object_at(s, j) matches ReadStep::Value(v, _) ==> well_formed(v),
    decreases s.len() - j, 1int,
{
    let k = skip_ws(s, j + 1);
    lemma_skip_ws(s, j + 1);
    if !(k < s.len() && s[k] == '}') {
        lemma_object_members_wf(s, k, Seq::empty());
    }
}

/// The members of an object the reader reads, after sorted members, are
/// well-formed.
proof fn lemma_object_members_wf(s: Seq<char>, i: int, acc: Seq<(Seq<char>, RawView)>)
    requires
        sorted_members(acc),
        0 <= i <= s.len(),
    ensures
        object_members(s, i, acc) matches ReadStep::Value(v, _) ==> well_formed(v),
    decreases s.len() - i, 3int,
{
    match string_at(s, i) {
        TextStep::Done(key, k) => {
            let k1 = skip_ws(s, k);
            lemma_string_at_progress(s, i);
            lemma_skip_ws(s, k);
            if k1 < s.len() && s[k1] == ':' {
                let k2 = skip_ws(s, k1 + 1);
                lemma_skip_ws(s, k1 + 1);
                lemma_value_read_wf(s, k2);
                match value_at(s, k2) {
                    ReadStep::Value(v, e) => {
                        if !(e <= k2 || e > s.len()) {
                            let e1 = skip_ws(s, e);
                            lemma_skip_ws(s, e);
                            lemma_insert_member_sorted(acc, key, v);
                            let acc2 = insert_member(acc, key, v);
                            if e1 < s.len() && s[e1] == ',' {
                                lemma_skip_ws(s, e1 + 1);
                                lemma_object_members_wf(s, skip_ws(s, e1 + 1), acc2);
                            } else if e1 < s.len() && s[e1] == '}' {
                                lemma_sorted_members_wf(acc2);
                            }
                        }
                    },
                    _ => {},
                }
            }
        },
        _ => {},
    }
}

/// A document the reader reads can be written, and what is written reads
/// back as the same document.
pub proof fn lemma_write_of_read(s: Seq<char>)
    ensures
        document(s) matches ReadStep::Value(v, _) ==> well_formed(v) && document(value_text(v))
            == ReadStep::Value(v, value_text(v).len() as int),
{
    lemma_value_read_wf(s, 0);
    if document(s) is Value {
        let v = document(s)->Value_0;
        lemma_read_of_write(v);
    }
}

} // verus!
