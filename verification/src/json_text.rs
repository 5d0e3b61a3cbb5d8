//! The JSON text of the library's JSON values.

use vstd::prelude::*;
use crate::references::{JsonValue, JsonView, json_view, items_view, entries_view, lemma_items_view, lemma_entries_view};
use crate::strings::push_char;

verus! {

/// The lower-case hexadecimal digit of `d < 16`.
pub open spec fn hex_digit(d: nat) -> char {
    if d < 10 {
        ((48 + d) as u8) as char
    } else {
        ((87 + d) as u8) as char
    }
}

/// One character inside a JSON string: quotes and backslashes gain a backslash,
/// control characters are written as `\u00XX`, any other character stands as it is.
pub open spec fn json_char(c: char) -> Seq<char> {
    if c == '"' {
        seq!['\\', '"']
    } else if c == '\\' {
        seq!['\\', '\\']
    } else if (c as u32) < 32 {
        seq!['\\', 'u', '0', '0', hex_digit(((c as u32) / 16) as nat), hex_digit(((c as u32) % 16) as nat)]
    } else {
        seq![c]
    }
}

/// The characters of a text, each written as inside a JSON string.
pub open spec fn json_chars(s: Seq<char>) -> Seq<char>
    decreases s.len(),
{
    if s.len() == 0 {
        seq![]
    } else {
        json_chars(s.drop_last()) + json_char(s.last())
    }
}

/// A text as a JSON string literal.
pub open spec fn json_string(s: Seq<char>) -> Seq<char> {
    seq!['"'] + json_chars(s) + seq!['"']
}

/// The JSON text of a value: members and items in order, separated by commas, with no
/// whitespace; numbers keep their textual form.
pub open spec fn json_text(v: JsonView) -> Seq<char>
    decreases v, 1int,
{
    match v {
        JsonView::Null => seq!['n', 'u', 'l', 'l'],
        JsonView::Bool(b) => if b {
            seq!['t', 'r', 'u', 'e']
        } else {
            seq!['f', 'a', 'l', 's', 'e']
        },
        JsonView::Number(n) => n,
        JsonView::Text(s) => json_string(s),
        JsonView::Array(items) => seq!['['] + json_items(items) + seq![']'],
        JsonView::Object(members) => seq!['{'] + json_members(members) + seq!['}'],
    }
}

/// The items of an array, separated by commas.
pub open spec fn json_items(items: Seq<JsonView>) -> Seq<char>
    decreases items, 1int,
{
    if items.len() == 0 {
        seq![]
    } else {
        let rest = items.drop_last();
        json_items(rest) + (if rest.len() == 0 { seq![] } else { seq![','] }) + json_text(items.last())
    }
}

/// The members of an object, each as its key, a colon and its value, separated by commas.
pub open spec fn json_members(members: Seq<(Seq<char>, JsonView)>) -> Seq<char>
    decreases members, 1int,
{
    if members.len() == 0 {
        seq![]
    } else {
        let rest = members.drop_last();
        json_members(rest) + (if rest.len() == 0 { seq![] } else { seq![','] }) + json_member(
            members.last().0,
            members.last().1,
        )
    }
}

/// One member of an object.
pub open spec fn json_member(key: Seq<char>, value: JsonView) -> Seq<char>
    decreases value, 2int,
{
    json_string(key) + seq![':'] + json_text(value)
}

fn push_hex_digit(out: &mut String, d: u32)
    requires
        d < 16,
    ensures
        final(out)@ == old(out)@.push(hex_digit(d as nat)),
{
    if d < 10 {
        push_char(out, ((48 + d) as u8) as char);
    } else {
        push_char(out, ((87 + d) as u8) as char);
    }
}

/// Appends a text as a JSON string literal.
fn push_json_string(out: &mut String, s: &str)
    ensures
        final(out)@ == old(out)@ + json_string(s@),
{
    let ghost start = out@;
    push_char(out, '"');
    for c in it: s.chars()
        invariant
            it.seq() == s@,
            out@ == start + seq!['"'] + json_chars(s@.take(it.index())),
    {
        assert(s@.take(it.index() + 1).drop_last() == s@.take(it.index()));
        let ghost before = out@;
        if c == '"' || c == '\\' {
            push_char(out, '\\');
            push_char(out, c);
            assert(out@ =~= before + json_char(c));
        } else if (c as u32) < 32 {
            push_char(out, '\\');
            push_char(out, 'u');
            push_char(out, '0');
            push_char(out, '0');
            assert((c as u32) / 16 < 16);
            push_hex_digit(out, (c as u32) / 16);
            push_hex_digit(out, (c as u32) % 16);
            assert(out@ =~= before + json_char(c));
        } else {
            push_char(out, c);
            assert(out@ =~= before + json_char(c));
        }
    }
    assert(s@.take(s@.len() as int) == s@);
    push_char(out, '"');
}

/// Appends the JSON text of a value.
pub fn write_json(out: &mut String, value: &JsonValue)
    ensures
        final(out)@ == old(out)@ + json_text(value@),
    decreases value,
{
    let ghost start = out@;
    match value {
        JsonValue::Null => {
            out.append("null");
            proof {
                reveal_strlit("null");
            }
        },
        JsonValue::Bool(b) => {
            if *b {
                out.append("true");
                proof {
                    reveal_strlit("true");
                }
            } else {
                out.append("false");
                proof {
                    reveal_strlit("false");
                }
            }
        },
        JsonValue::Number(n) => {
            out.append(n.as_str());
        },
        JsonValue::Text(s) => {
            push_json_string(out, s.as_str());
        },
        JsonValue::Array(items) => {
            proof {
                lemma_items_view(items@);
            }
            let ghost iv = items_view(items@);
            push_char(out, '[');
            let mut k: usize = 0;
            assert(iv.take(0) =~= Seq::<JsonView>::empty());
            while k < items.len()
                invariant
                    k <= items.len(),
                    iv == items_view(items@),
                    iv.len() == items.len(),
                    forall|i: int| 0 <= i < items.len() ==> #[trigger] iv[i] == json_view(items@[i]),
                    *value == JsonValue::Array(*items),
                    out@ == start + seq!['['] + json_items(iv.take(k as int)),
                decreases items.len() - k,
            {
                assert(iv.take(k + 1).drop_last() =~= iv.take(k as int));
                assert(iv.take(k + 1).last() == json_view(items@[k as int]));
                if k > 0 {
                    push_char(out, ',');
                }
                proof {
                    assert(decreases_to!(*value => value->Array_0));
                    assert(decreases_to!(*items => items@));
                    assert(decreases_to!(items@ => items@[k as int]));
                }
                write_json(out, &items[k]);
                k = k + 1;
            }
            assert(iv.take(items.len() as int) =~= iv);
            push_char(out, ']');
        },
        JsonValue::Object(members) => {
            proof {
                lemma_entries_view(members@);
            }
            let ghost mv = entries_view(members@);
            push_char(out, '{');
            let mut k: usize = 0;
            assert(mv.take(0) =~= Seq::<(Seq<char>, JsonView)>::empty());
            while k < members.len()
                invariant
                    k <= members.len(),
                    mv == entries_view(members@),
                    mv.len() == members.len(),
                    forall|i: int| 0 <= i < members.len() ==> #[trigger] mv[i] == (members@[i].0@, json_view(members@[i].1)),
                    *value == JsonValue::Object(*members),
                    out@ == start + seq!['{'] + json_members(mv.take(k as int)),
                decreases members.len() - k,
            {
                assert(mv.take(k + 1).drop_last() =~= mv.take(k as int));
                assert(mv.take(k + 1).last() == (members@[k as int].0@, json_view(members@[k as int].1)));
                let ghost before = out@;
                if k > 0 {
                    push_char(out, ',');
                }
                let ghost after_separator = out@;
                assert(after_separator == before + (if k == 0 { Seq::<char>::empty() } else { seq![','] }));
                push_json_string(out, members[k].0.as_str());
                push_char(out, ':');
                proof {
                    assert(decreases_to!(*value => value->Object_0));
                    assert(decreases_to!(*members => members@));
                    assert(decreases_to!(members@ => members@[k as int]));
                    assert(decreases_to!(members@[k as int] => members@[k as int].1));
                }
                write_json(out, &members[k].1);
                assert(out@ =~= after_separator + json_member(members@[k as int].0@, json_view(members@[k as int].1)));
                assert(json_members(mv.take(k + 1)) == json_members(mv.take(k as int)) + (if k == 0 {
                    Seq::<char>::empty()
                } else {
                    seq![',']
                }) + json_member(members@[k as int].0@, json_view(members@[k as int].1)));
                k = k + 1;
            }
            assert(mv.take(members.len() as int) =~= mv);
            push_char(out, '}');
        },
    }
}

/// The JSON text of a value.
pub fn json_text_of(value: &JsonValue) -> (r: String)
    ensures
        r@ == json_text(value@),
{
    let mut out = String::new();
    write_json(&mut out, value);
    out
}

} // verus!
