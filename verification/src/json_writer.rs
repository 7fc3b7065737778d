//! Writing JSON text: compact, with no whitespace, object members in the
//! order they are kept, and numbers written as their literal.
use vstd::prelude::*;

use crate::json::JsonIoError;
use crate::json_reader::{items_view, members_view, raw_view, RawJson, RawView};
use crate::text::{chars_of, push_str, string_of};

verus! {

/// An upper-case hexadecimal digit.
pub open spec fn hex_upper(d: int) -> char {
    if d < 10 {
        (('0' as u32) + d) as char
    } else {
        (('A' as u32) + d - 10) as char
    }
}

/// How a character is written inside a string literal.
pub open spec fn escape_char(c: char) -> Seq<char> {
    if c == '"' {
        seq!['\\', '"']
    } else if c == '\\' {
        seq!['\\', '\\']
    } else if c == '\n' {
        seq!['\\', 'n']
    } else if c == '\r' {
        seq!['\\', 'r']
    } else if c == '\t' {
        seq!['\\', 't']
    } else if c == '\u{08}' {
        seq!['\\', 'b']
    } else if c == '\u{0C}' {
        seq!['\\', 'f']
    } else if (c as u32) < 0x20 {
        seq!['\\', 'u', '0', '0', hex_upper(((c as u32) / 16) as int), hex_upper(((c as u32) % 16) as int)]
    } else {
        seq![c]
    }
}

/// The characters of a string, escaped.
pub open spec fn escaped(s: Seq<char>) -> Seq<char>
    decreases s.len(),
{
    if s.len() == 0 {
        Seq::empty()
    } else {
        escaped(s.drop_last()) + escape_char(s.last())
    }
}

/// A string literal.
pub open spec fn string_literal(s: Seq<char>) -> Seq<char> {
    seq!['"'] + escaped(s) + seq!['"']
}

/// The text of a value.
pub open spec fn value_text(v: RawView) -> Seq<char>
    decreases v,
{
    match v {
        RawView::Null => "null"@,
        RawView::Bool(b) => if b {
            "true"@
        } else {
            "false"@
        },
        RawView::Number(t) => t,
        RawView::Str(t) => string_literal(t),
        RawView::Array(items) => seq!['['] + items_text(items) + seq![']'],
        RawView::Object(m) => seq!['{'] + members_text(m) + seq!['}'],
    }
}

/// The texts of items, separated by commas.
pub open spec fn items_text(items: Seq<RawView>) -> Seq<char>
    decreases items,
{
    if items.len() == 0 {
        Seq::empty()
    } else if items.len() == 1 {
        value_text(items[0])
    } else {
        items_text(items.drop_last()) + seq![','] + value_text(items.last())
    }
}

/// The texts of members, each key a string literal followed by a colon and
/// the value, separated by commas.
pub open spec fn members_text(m: Seq<(Seq<char>, RawView)>) -> Seq<char>
    decreases m,
{
    if m.len() == 0 {
        Seq::empty()
    } else if m.len() == 1 {
        string_literal(m[0].0) + seq![':'] + value_text(m[0].1)
    } else {
        members_text(m.drop_last()) + seq![','] + string_literal(m.last().0) + seq![':']
            + value_text(m.last().1)
    }
}

/// An upper-case hexadecimal digit, computed.
fn hex_upper_exec(d: u32) -> (c: char)
    requires
        d < 16,
    ensures
        c == hex_upper(d as int),
{
    let b: u8 = if d < 10 {
        48 + (d as u8)
    } else {
        55 + (d as u8)
    };
    proof {
        vstd::utf8::char_u32_cast(b as char, b as u32);
    }
    b as char
}

/// Appends a character as written inside a string literal.
fn push_escaped_char(out: &mut Vec<char>, c: char)
    ensures
        final(out)@ == old(out)@ + escape_char(c),
{
    let ghost start = out@;
    if c == '"' {
        out.push('\\');
        out.push('"');
    } else if c == '\\' {
        out.push('\\');
        out.push('\\');
    } else if c == '\n' {
        out.push('\\');
        out.push('n');
    } else if c == '\r' {
        out.push('\\');
        out.push('r');
    } else if c == '\t' {
        out.push('\\');
        out.push('t');
    } else if c == '\u{08}' {
        out.push('\\');
        out.push('b');
    } else if c == '\u{0C}' {
        out.push('\\');
        out.push('f');
    } else if (c as u32) < 0x20 {
        let u = c as u32;
        out.push('\\');
        out.push('u');
        out.push('0');
        out.push('0');
        out.push(hex_upper_exec(u / 16));
        out.push(hex_upper_exec(u % 16));
    } else {
        out.push(c);
    }
    assert(out@ =~= start + escape_char(c));
}

/// Appends a string literal.
fn push_string_literal(out: &mut Vec<char>, s: &str)
    ensures
        final(out)@ == old(out)@ + string_literal(s@),
{
    let ghost start = out@;
    let chars = chars_of(s);
    out.push('"');
    let mut i: usize = 0;
    while i < chars.len()
        invariant
            i <= chars@.len(),
            chars@ == s@,
            out@ == start + seq!['"'] + escaped(chars@.subrange(0, i as int)),
        decreases chars@.len() - i,
    {
        proof {
            let t = chars@.subrange(0, i + 1);
            assert(t.drop_last() =~= chars@.subrange(0, i as int));
        }
        push_escaped_char(out, chars[i]);
        i = i + 1;
        assert(out@ =~= start + seq!['"'] + escaped(chars@.subrange(0, i as int)));
    }
    assert(chars@.subrange(0, chars@.len() as int) =~= chars@);
    out.push('"');
    assert(out@ =~= start + string_literal(s@));
}

/// Appends the text of a value.
fn push_value(out: &mut Vec<char>, v: &RawJson)
    ensures
        final(out)@ == old(out)@ + value_text(raw_view(*v)),
    decreases v,
{
    let ghost start = out@;
    match v {
        RawJson::Null => {
            push_str(out, "null");
        },
        RawJson::Bool(b) => {
            if *b {
                push_str(out, "true");
            } else {
                push_str(out, "false");
            }
        },
        RawJson::Number(t) => {
            push_str(out, t.as_str());
        },
        RawJson::Str(t) => {
            push_string_literal(out, t.as_str());
        },
        RawJson::Array(items) => {
            out.push('[');
            let mut i: usize = 0;
            while i < items.len()
                invariant
                    i <= items@.len(),
                    *v == RawJson::Array(*items),
                    out@ == start + seq!['['] + items_text(items_view(items@.subrange(0, i as int))),
                decreases items@.len() - i,
            {
                let ghost before = items@.subrange(0, i as int);
                let ghost after = items@.subrange(0, i + 1);
                proof {
                    assert(after.drop_last() =~= before);
                    assert(after.last() == items@[i as int]);
                    crate::json_reader::lemma_items_view(after);
                    crate::json_reader::lemma_items_view(before);
                    assert(items_view(after).drop_last() =~= items_view(before));
                }
                if i > 0 {
                    out.push(',');
                }
                proof {
                    assert(decreases_to!(*items => items@));
                    assert(decreases_to!(items@ => items@[i as int]));
                    assert(decreases_to!(*v => (*v)->Array_0));
                    assert(decreases_to!(*v => *items));
                    assert(decreases_to!(*v => items@[i as int]));
                }
                push_value(out, &items[i]);
                i = i + 1;
                proof {
                    if i == 1 {
                        assert(before =~= Seq::<RawJson>::empty());
                        assert(items_view(before) =~= Seq::<RawView>::empty());
                    }
                }
                assert(out@ =~= start + seq!['['] + items_text(items_view(items@.subrange(0, i as int))));
            }
            assert(items@.subrange(0, items@.len() as int) =~= items@);
            out.push(']');
            assert(out@ =~= start + value_text(raw_view(*v)));
        },
        RawJson::Object(m) => {
            out.push('{');
            let mut i: usize = 0;
            while i < m.len()
                invariant
                    i <= m@.len(),
                    *v == RawJson::Object(*m),
                    out@ == start + seq!['{'] + members_text(members_view(m@.subrange(0, i as int))),
                decreases m@.len() - i,
            {
                let ghost before = m@.subrange(0, i as int);
                let ghost after = m@.subrange(0, i + 1);
                proof {
                    assert(after.drop_last() =~= before);
                    assert(after.last() == m@[i as int]);
                    crate::json_reader::lemma_members_view(after);
                    crate::json_reader::lemma_members_view(before);
                    assert(members_view(after).drop_last() =~= members_view(before));
                }
                if i > 0 {
                    out.push(',');
                }
                push_string_literal(out, m[i].0.as_str());
                out.push(':');
                proof {
                    assert(decreases_to!(*m => m@));
                    assert(decreases_to!(m@ => m@[i as int]));
                    assert(decreases_to!(m@[i as int] => m@[i as int].1));
                    assert(decreases_to!(*v => (*v)->Object_0));
                    assert(decreases_to!(*v => *m));
                    assert(decreases_to!(*v => m@[i as int].1));
                }
                push_value(out, &m[i].1);
                i = i + 1;
                proof {
                    if i == 1 {
                        assert(before =~= Seq::<(String, RawJson)>::empty());
                        assert(members_view(before) =~= Seq::<(Seq<char>, RawView)>::empty());
                    }
                }
                assert(out@ =~= start + seq!['{'] + members_text(members_view(m@.subrange(0, i as int))));
            }
            assert(m@.subrange(0, m@.len() as int) =~= m@);
            out.push('}');
            assert(out@ =~= start + value_text(raw_view(*v)));
        },
    }
}

/// The compact text of a value.
pub fn stringify_json_value(value: &RawJson) -> (r: String)
    ensures
        r@ == value_text(raw_view(*value)),
{
    let mut out: Vec<char> = Vec::new();
    push_value(&mut out, value);
    assert(out@ =~= value_text(raw_view(*value)));
    string_of(out.as_slice())
}

/// The compact text of an object with these members.
pub fn stringify_json_object(members: &Vec<(String, RawJson)>) -> (r: Result<String, JsonIoError>)
    ensures
        r matches Ok(t) && t@ == seq!['{'] + members_text(members_view(members@)) + seq!['}'],
{
    let mut out: Vec<char> = Vec::new();
    out.push('{');
    let mut i: usize = 0;
    while i < members.len()
        invariant
            i <= members@.len(),
            out@ == seq!['{'] + members_text(members_view(members@.subrange(0, i as int))),
        decreases members@.len() - i,
    {
        let ghost before = members@.subrange(0, i as int);
        let ghost after = members@.subrange(0, i + 1);
        proof {
            assert(after.drop_last() =~= before);
            assert(after.last() == members@[i as int]);
            crate::json_reader::lemma_members_view(after);
            crate::json_reader::lemma_members_view(before);
            assert(members_view(after).drop_last() =~= members_view(before));
        }
        if i > 0 {
            out.push(',');
        }
        push_string_literal(&mut out, members[i].0.as_str());
        out.push(':');
        push_value(&mut out, &members[i].1);
        i = i + 1;
        proof {
            if i == 1 {
                assert(before =~= Seq::<(String, RawJson)>::empty());
                assert(members_view(before) =~= Seq::<(Seq<char>, RawView)>::empty());
            }
        }
        assert(out@ =~= seq!['{'] + members_text(members_view(members@.subrange(0, i as int))));
    }
    assert(members@.subrange(0, members@.len() as int) =~= members@);
    out.push('}');
    Ok(string_of(out.as_slice()))
}

} // verus!
