use vstd::prelude::*;
use vstd::string::StrSliceExecFns;
use crate::decimal::{append_digits, digit_chars, u64_digits};
use crate::json::{Json, JsonModel};
use crate::text::{hex_digit, int_text};

verus! {

/// A character as it stands inside a JSON string: quote, backslash and
/// control characters escaped, everything else as it is.
pub open spec fn escape_char(c: char) -> Seq<char> {
    if c == '"' {
        seq!['\\', '"']
    } else if c == '\\' {
        seq!['\\', '\\']
    } else if c == '\n' {
        seq!['\\', 'n']
    } else if c == '\r' {
        seq!['\\', 'r']
    } else if c == '\t' {
        seq!['\\', 't']
    } else if c == '\x08' {
        seq!['\\', 'b']
    } else if c == '\x0c' {
        seq!['\\', 'f']
    } else if (c as u32) < 0x20 {
        seq!['\\', 'u', '0', '0', hex_digit(((c as u32) / 16) as u8), hex_digit(((c as u32) % 16) as u8)]
    } else {
        seq![c]
    }
}

pub open spec fn escaped(s: Seq<char>) -> Seq<char>
    decreases s.len(),
{
    if s.len() == 0 {
        Seq::empty()
    } else {
        escaped(s.drop_last()) + escape_char(s.last())
    }
}

/// A string as a JSON string literal.
pub open spec fn string_text(s: Seq<char>) -> Seq<char> {
    seq!['"'] + escaped(s) + seq!['"']
}

/// The compact JSON text of a value. A float is written as the base-10
/// value of its bit pattern.
pub open spec fn json_text(j: JsonModel) -> Seq<char>
    decreases j, 0nat,
{
    match j {
        JsonModel::Null => seq!['n', 'u', 'l', 'l'],
        JsonModel::Bool(b) => if b {
            seq!['t', 'r', 'u', 'e']
        } else {
            seq!['f', 'a', 'l', 's', 'e']
        },
        JsonModel::Int(i) => int_text(i),
        JsonModel::UInt(u) => int_text(u),
        JsonModel::Float32(b) => int_text(b as int),
        JsonModel::Float64(b) => int_text(b as int),
        JsonModel::Str(s) => string_text(s),
        JsonModel::Array(items) => seq!['['] + items_text(items, items.len()) + seq![']'],
        JsonModel::Object(es) => seq!['{'] + entries_text(es, es.len()) + seq!['}'],
    }
}

/// The first `n` items, as JSON text separated by commas.
pub open spec fn items_text(items: Seq<JsonModel>, n: nat) -> Seq<char>
    decreases items, n,
{
    if n == 0 || n > items.len() {
        Seq::empty()
    } else if n == 1 {
        json_text(items[0])
    } else {
        items_text(items, (n - 1) as nat) + seq![','] + json_text(items[n - 1])
    }
}

/// The first `n` entries, as `"key":value` separated by commas.
pub open spec fn entries_text(es: Seq<(Seq<char>, JsonModel)>, n: nat) -> Seq<char>
    decreases es, n,
{
    if n == 0 || n > es.len() {
        Seq::empty()
    } else if n == 1 {
        string_text(es[0].0) + seq![':'] + json_text(es[0].1)
    } else {
        entries_text(es, (n - 1) as nat) + seq![','] + string_text(es[n - 1].0) + seq![':'] + json_text(
            es[n - 1].1,
        )
    }
}

fn hex_digit_str(n: u8) -> (r: &'static str)
    requires
        n < 16,
    ensures
        r@ == seq![hex_digit(n)],
{
    proof {
        reveal_strlit("0");
        reveal_strlit("1");
        reveal_strlit("2");
        reveal_strlit("3");
        reveal_strlit("4");
        reveal_strlit("5");
        reveal_strlit("6");
        reveal_strlit("7");
        reveal_strlit("8");
        reveal_strlit("9");
        reveal_strlit("a");
        reveal_strlit("b");
        reveal_strlit("c");
        reveal_strlit("d");
        reveal_strlit("e");
        reveal_strlit("f");
    }
    match n {
        0 => "0",
        1 => "1",
        2 => "2",
        3 => "3",
        4 => "4",
        5 => "5",
        6 => "6",
        7 => "7",
        8 => "8",
        9 => "9",
        10 => "a",
        11 => "b",
        12 => "c",
        13 => "d",
        14 => "e",
        _ => "f",
    }
}

/// Appends the escaped form of the `i`-th character of `st`.
fn push_escaped(out: &mut String, st: &str, i: usize)
    requires
        i < st@.len() <= usize::MAX,
    ensures
        final(out)@ == old(out)@ + escape_char(st@[i as int]),
{
    let c = st.get_char(i);
    proof {
        reveal_strlit("\\\"");
        reveal_strlit("\\\\");
        reveal_strlit("\\n");
        reveal_strlit("\\r");
        reveal_strlit("\\t");
        reveal_strlit("\\b");
        reveal_strlit("\\f");
        reveal_strlit("\\u00");
    }
    if c == '"' {
        out.append("\\\"");
    } else if c == '\\' {
        out.append("\\\\");
    } else if c == '\n' {
        out.append("\\n");
    } else if c == '\r' {
        out.append("\\r");
    } else if c == '\t' {
        out.append("\\t");
    } else if c == '\x08' {
        out.append("\\b");
    } else if c == '\x0c' {
        out.append("\\f");
    } else if (c as u32) < 0x20 {
        out.append("\\u00");
        out.append(hex_digit_str(((c as u32) / 16) as u8));
        out.append(hex_digit_str(((c as u32) % 16) as u8));
        assert(out@ =~= old(out)@ + escape_char(c));
    } else {
        let one = st.substring_char(i, i + 1);
        assert(one@ =~= seq![c]);
        out.append(one);
    }
}

/// Appends `s` as a JSON string literal.
fn push_string(out: &mut String, s: &str)
    ensures
        final(out)@ == old(out)@ + string_text(s@),
{
    proof {
        reveal_strlit("\"");
    }
    let ghost start = out@;
    out.append("\"");
    let n = s.unicode_len();
    let mut i: usize = 0;
    assert(s@.subrange(0, 0) =~= Seq::<char>::empty());
    while i < n
        invariant
            n == s@.len(),
            i <= n,
            out@ == start + seq!['"'] + escaped(s@.subrange(0, i as int)),
        decreases n - i,
    {
        push_escaped(out, s, i);
        assert(s@.subrange(0, i + 1).drop_last() =~= s@.subrange(0, i as int));
        i = i + 1;
    }
    assert(s@.subrange(0, i as int) =~= s@);
    out.append("\"");
    assert(out@ =~= start + string_text(s@));
}

fn push_u64(out: &mut String, x: u64)
    ensures
        final(out)@ == old(out)@ + int_text(x as int),
{
    let ds = u64_digits(x);
    let s = append_digits(String::new(), &ds);
    out.append(s.as_str());
}

fn push_i64(out: &mut String, x: i64)
    ensures
        final(out)@ == old(out)@ + int_text(x as int),
{
    proof {
        reveal_strlit("-");
    }
    if x < 0 {
        out.append("-");
        let m: u64 = (-(x as i128)) as u64;
        let ds = u64_digits(m);
        let s = append_digits(String::new(), &ds);
        out.append(s.as_str());
    } else {
        push_u64(out, x as u64);
    }
}

/// Appends the compact JSON text of `j`.
fn push_json(out: &mut String, j: &Json)
    ensures
        final(out)@ == old(out)@ + json_text(j@),
    decreases j,
{
    proof {
        reveal_strlit("null");
        reveal_strlit("true");
        reveal_strlit("false");
        reveal_strlit("[");
        reveal_strlit("]");
        reveal_strlit("{");
        reveal_strlit("}");
        reveal_strlit(",");
        reveal_strlit(":");
    }
    let ghost start = out@;
    match j {
        Json::Null => out.append("null"),
        Json::Bool(b) => if *b {
            out.append("true")
        } else {
            out.append("false")
        },
        Json::Int(i) => push_i64(out, *i),
        Json::UInt(u) => push_u64(out, *u),
        Json::Float32(b) => push_u64(out, *b as u64),
        Json::Float64(b) => push_u64(out, *b),
        Json::Str(s) => push_string(out, s.as_str()),
        Json::Array(items) => {
            let ghost ms = j@->Array_0;
            out.append("[");
            let mut i: usize = 0;
            while i < items.len()
                invariant
                    *j == Json::Array(*items),
                    ms == j@->Array_0,
                    ms.len() == items@.len(),
                    forall|m: int| 0 <= m < items@.len() ==> ms[m] == items@[m]@,
                    i <= items@.len(),
                    out@ == start + seq!['['] + items_text(ms, i as nat),
                decreases items@.len() - i,
            {
                proof {
                    reveal_strlit(",");
                }
                if i > 0 {
                    out.append(",");
                }
                proof {
                    assert(decreases_to!(items => items@[i as int]));
                }
                push_json(out, &items[i]);
                proof {
                    if i == 0 {
                        assert(items_text(ms, 1) == json_text(ms[0]));
                    } else {
                        assert(items_text(ms, (i + 1) as nat) == items_text(ms, i as nat) + seq![',']
                            + json_text(ms[i as int]));
                    }
                    assert(out@ =~= start + seq!['['] + items_text(ms, (i + 1) as nat));
                }
                i = i + 1;
            }
            proof {
                reveal_strlit("]");
            }
            out.append("]");
        },
        Json::Object(es) => {
            let ghost ms = j@->Object_0;
            out.append("{");
            let mut i: usize = 0;
            while i < es.len()
                invariant
                    *j == Json::Object(*es),
                    ms == j@->Object_0,
                    ms.len() == es@.len(),
                    forall|m: int| 0 <= m < es@.len() ==> ms[m] == (es@[m].0@, es@[m].1@),
                    i <= es@.len(),
                    out@ == start + seq!['{'] + entries_text(ms, i as nat),
                decreases es@.len() - i,
            {
                proof {
                    reveal_strlit(",");
                    reveal_strlit(":");
                }
                if i > 0 {
                    out.append(",");
                }
                push_string(out, es[i].0.as_str());
                out.append(":");
                proof {
                    assert(decreases_to!(es => es@[i as int]));
                }
                push_json(out, &es[i].1);
                proof {
                    if i == 0 {
                        assert(entries_text(ms, 1) == string_text(ms[0].0) + seq![':'] + json_text(
                            ms[0].1,
                        ));
                    } else {
                        assert(entries_text(ms, (i + 1) as nat) == entries_text(ms, i as nat) + seq![',']
                            + string_text(ms[i as int].0) + seq![':'] + json_text(ms[i as int].1));
                    }
                    assert(out@ =~= start + seq!['{'] + entries_text(ms, (i + 1) as nat));
                }
                i = i + 1;
            }
            proof {
                reveal_strlit("}");
            }
            out.append("}");
        },
    }
}

/// The compact JSON text of a value.
pub fn json_to_text(j: &Json) -> (r: String)
    ensures
        r@ == json_text(j@),
{
    let mut out = String::new();
    push_json(&mut out, j);
    assert(out@ =~= json_text(j@));
    out
}

} // verus!
