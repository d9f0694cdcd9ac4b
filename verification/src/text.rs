//! Text building blocks: JSON string quoting, decimal integers, and the
//! compact JSON rendering of values.
use vstd::prelude::*;

use crate::json::{
    JsonNumber, JsonValue, Json, Num, msize, items_view, entries_view, lemma_items_view,
    lemma_entries_view, lemma_item_smaller, lemma_entry_smaller,
};

verus! {

pub assume_specification[ std::string::String::push ](s: &mut std::string::String, ch: char)
    ensures
        final(s)@ == old(s)@.push(ch),
;

/// Lower-case hexadecimal digit.
pub open spec fn hex_digit(d: u32) -> char {
    if d < 10 {
        (('0' as u32) + d) as char
    } else {
        (('a' as u32) + d - 10) as char
    }
}

/// How a JSON string literal writes one character: `"` and `\` are escaped,
/// backspace, tab, line feed, form feed and carriage return take their short
/// forms, other characters below U+0020 become `\u00xx`, and the rest stand as
/// they are.
pub open spec fn escape_char(c: char) -> Seq<char> {
    if c == '"' {
        seq!['\\', '"']
    } else if c == '\\' {
        seq!['\\', '\\']
    } else if c == '\u{8}' {
        seq!['\\', 'b']
    } else if c == '\t' {
        seq!['\\', 't']
    } else if c == '\n' {
        seq!['\\', 'n']
    } else if c == '\u{c}' {
        seq!['\\', 'f']
    } else if c == '\r' {
        seq!['\\', 'r']
    } else if (c as u32) < 0x20 {
        seq!['\\', 'u', '0', '0', hex_digit((c as u32) / 16), hex_digit((c as u32) % 16)]
    } else {
        seq![c]
    }
}

/// The escaped form of the first `n` characters.
pub open spec fn escape_prefix(s: Seq<char>, n: nat) -> Seq<char>
    decreases n,
{
    if n == 0 || n > s.len() {
        Seq::empty()
    } else {
        escape_prefix(s, (n - 1) as nat) + escape_char(s[n - 1])
    }
}

/// `JSON.stringify` of a string: the escaped characters between double quotes.
pub open spec fn json_quote(s: Seq<char>) -> Seq<char> {
    seq!['"'] + escape_prefix(s, s.len()) + seq!['"']
}

/// `serde_json::to_string` of a `str`.
///
/// Trusted: the contract claims that serde_json writes a string as a double
/// quoted literal in which `"` and `\` are escaped with a backslash, the control
/// characters U+0008, U+0009, U+000A, U+000C and U+000D take their short
/// escapes, the other characters below U+0020 are written `\u00xx` with lower
/// case hexadecimal digits, and every other character is copied unchanged
/// (its `ESCAPE` table in `ser.rs`). Writing into a `Vec<u8>` cannot fail, so
/// the error arm is never taken.
#[verifier::external_body]
fn serde_quote(s: &str) -> (r: String)
    ensures
        r@ == json_quote(s@),
{
    match serde_json::to_string(s) {
        Ok(t) => t,
        Err(_) => String::new(),
    }
}

/// Append the JSON string literal of `s`.
pub fn push_quoted(out: &mut String, s: &str)
    ensures
        final(out)@ == old(out)@ + json_quote(s@),
{
    let q = serde_quote(s);
    out.append(q.as_str());
}

/// Decimal digit character.
pub open spec fn digit_char(d: nat) -> char {
    (('0' as u32) + (d as u32)) as char
}

/// Decimal rendering of a natural number, without leading zeros.
pub open spec fn decimal(n: nat) -> Seq<char>
    decreases n,
{
    if n < 10 {
        seq![digit_char(n)]
    } else {
        decimal(n / 10).push(digit_char(n % 10))
    }
}

/// Append the decimal rendering of `n`.
pub fn push_decimal(out: &mut String, n: u64)
    ensures
        final(out)@ == old(out)@ + decimal(n as nat),
    decreases n,
{
    if n >= 10 {
        push_decimal(out, n / 10);
    }
    let d: u64 = n % 10;
    let c = char_of_digit(d as u8);
    let ghost before = out@;
    out.push(c);
    proof {
        if n >= 10 {
            assert(out@ =~= old(out)@ + decimal(n as nat));
        } else {
            assert(out@ =~= old(out)@ + decimal(n as nat));
        }
    }
}

fn char_of_digit(d: u8) -> (c: char)
    requires
        d < 10,
    ensures
        c == digit_char(d as nat),
{
    if d == 0 {
        '0'
    } else if d == 1 {
        '1'
    } else if d == 2 {
        '2'
    } else if d == 3 {
        '3'
    } else if d == 4 {
        '4'
    } else if d == 5 {
        '5'
    } else if d == 6 {
        '6'
    } else if d == 7 {
        '7'
    } else if d == 8 {
        '8'
    } else {
        '9'
    }
}

/// The text of a number as JSON writes it.
pub open spec fn num_text(n: Num) -> Seq<char> {
    match n {
        Num::PosInt(u) => decimal(u as nat),
        Num::NegInt(i) => if i < 0 {
            seq!['-'] + decimal((-i) as nat)
        } else {
            decimal(i as nat)
        },
        Num::Float(t) => t,
    }
}

/// `JSON.stringify` of a value: compact, with no spaces.
pub open spec fn stringify(j: Json) -> Seq<char>
    decreases j, 1nat,
{
    match j {
        Json::Null => "null"@,
        Json::Bool(b) => if b {
            "true"@
        } else {
            "false"@
        },
        Json::Num(n) => num_text(n),
        Json::Str(s) => json_quote(s),
        Json::Arr(a) => "["@ + stringify_items(a, a.len()) + "]"@,
        Json::Obj(o) => "{"@ + stringify_entries(o, o.len()) + "}"@,
    }
}

/// The first `n` items rendered and joined with commas.
pub open spec fn stringify_items(a: Seq<Json>, n: nat) -> Seq<char>
    decreases a, n,
{
    if n == 0 || n > a.len() {
        Seq::empty()
    } else if n == 1 {
        stringify(a[0])
    } else {
        stringify_items(a, (n - 1) as nat) + ","@ + stringify(a[n - 1])
    }
}

/// The first `n` entries rendered as `"key":value` and joined with commas.
pub open spec fn stringify_entries(o: Seq<(Seq<char>, Json)>, n: nat) -> Seq<char>
    decreases o, n,
{
    if n == 0 || n > o.len() {
        Seq::empty()
    } else if n == 1 {
        json_quote(o[0].0) + ":"@ + stringify(o[0].1)
    } else {
        stringify_entries(o, (n - 1) as nat) + ","@ + json_quote(o[n - 1].0) + ":"@ + stringify(
            o[n - 1].1,
        )
    }
}

/// Append the text of a number.
pub fn push_number(out: &mut String, n: &JsonNumber)
    ensures
        final(out)@ == old(out)@ + num_text(n@),
{
    match n {
        JsonNumber::PosInt(u) => push_decimal(out, *u),
        JsonNumber::NegInt(i) => {
            if *i < 0 {
                out.push('-');
                let m: u64 = (0i128 - (*i as i128)) as u64;
                push_decimal(out, m);
                assert(out@ =~= old(out)@ + num_text(n@));
            } else {
                push_decimal(out, *i as u64);
            }
        },
        JsonNumber::Float(t) => out.append(t.as_str()),
    }
}

/// Append `JSON.stringify` of a value.
pub fn push_json(out: &mut String, v: &JsonValue)
    ensures
        final(out)@ == old(out)@ + stringify(v@),
    decreases msize(v@),
{
    match v {
        JsonValue::Null => out.append("null"),
        JsonValue::Bool(b) => {
            if *b {
                out.append("true")
            } else {
                out.append("false")
            }
        },
        JsonValue::Number(n) => push_number(out, n),
        JsonValue::String(s) => push_quoted(out, s.as_str()),
        JsonValue::Array(a) => {
            proof {
                lemma_items_view(a@);
            }
            let ghost m = items_view(a@);
            let ghost start = out@;
            out.append("[");
            let mut i: usize = 0;
            while i < a.len()
                invariant
                    v is Array,
                    a == v->Array_0,
                    m == items_view(a@),
                    v@ == Json::Arr(m),
                    m.len() == a@.len(),
                    forall|k: int| 0 <= k < a@.len() ==> #[trigger] m[k] == a@[k]@,
                    i <= a@.len(),
                    out@ == start + "["@ + stringify_items(m, i as nat),
                decreases a@.len() - i,
            {
                proof {
                    lemma_item_smaller(m, i as int);
                }
                if i > 0 {
                    out.append(",");
                }
                push_json(out, &a[i]);
                proof {
                    if i == 0 {
                        assert(out@ =~= start + "["@ + stringify_items(m, (i + 1) as nat));
                    } else {
                        assert(out@ =~= start + "["@ + stringify_items(m, (i + 1) as nat));
                    }
                }
                i += 1;
            }
            out.append("]");
            assert(out@ =~= start + stringify(v@));
        },
        JsonValue::Object(o) => {
            proof {
                lemma_entries_view(o@);
            }
            let ghost m = entries_view(o@);
            let ghost start = out@;
            out.append("{");
            let mut i: usize = 0;
            while i < o.len()
                invariant
                    v is Object,
                    o == v->Object_0,
                    m == entries_view(o@),
                    v@ == Json::Obj(m),
                    m.len() == o@.len(),
                    forall|k: int| 0 <= k < o@.len() ==> #[trigger] m[k] == (o@[k].0@, o@[k].1@),
                    i <= o@.len(),
                    out@ == start + "{"@ + stringify_entries(m, i as nat),
                decreases o@.len() - i,
            {
                proof {
                    lemma_entry_smaller(m, i as int);
                }
                if i > 0 {
                    out.append(",");
                }
                push_quoted(out, o[i].0.as_str());
                out.append(":");
                push_json(out, &o[i].1);
                proof {
                    assert(out@ =~= start + "{"@ + stringify_entries(m, (i + 1) as nat));
                }
                i += 1;
            }
            out.append("}");
            assert(out@ =~= start + stringify(v@));
        },
    }
}

} // verus!
