//! Canonical JSON text of the records whose digests serve as their identifiers.
//! The layout is the compact form with fields in declaration order.

use crate::text::{dec, dec_signed, push_char, push_dec, push_dec_signed, append_str};
use vstd::prelude::*;
use vstd::string::StringExecFns;

verus! {

broadcast use vstd::string::group_string_axioms;

/// A lower-case hexadecimal digit.
pub open spec fn hex_digit(n: int) -> char {
    if n < 10 {
        ('0' as int + n) as char
    } else {
        ('a' as int + n - 10) as char
    }
}

/// How a JSON string literal writes one character: quote and backslash are
/// escaped, backspace, form feed, line feed, carriage return and tab by their
/// letters, the other control characters as `\u00` and two lower-case
/// hexadecimal digits; every other character stands for itself.
pub open spec fn json_escape(c: char) -> Seq<char> {
    if c == '"' {
        seq!['\\', '"']
    } else if c == '\\' {
        seq!['\\', '\\']
    } else if c == '\x08' {
        seq!['\\', 'b']
    } else if c == '\x0c' {
        seq!['\\', 'f']
    } else if c == '\n' {
        seq!['\\', 'n']
    } else if c == '\r' {
        seq!['\\', 'r']
    } else if c == '\t' {
        seq!['\\', 't']
    } else if (c as int) < 0x20 {
        seq!['\\', 'u', '0', '0', hex_digit(c as int / 16), hex_digit(c as int % 16)]
    } else {
        seq![c]
    }
}

/// The characters of a text, each written as a JSON string literal writes it.
pub open spec fn json_escaped(s: Seq<char>) -> Seq<char>
    decreases s.len(),
{
    if s.len() == 0 {
        seq![]
    } else {
        json_escaped(s.drop_last()) + json_escape(s.last())
    }
}

/// A text as a JSON string literal: its escaped characters between quotes.
pub closed spec fn json_quote(s: Seq<char>) -> Seq<char> {
    seq!['"'] + json_escaped(s) + seq!['"']
}

/// A string as a JSON string literal, with quotes and escapes
/// (`serde_json::to_string` on a `&str`). Claimed: the literal is
/// `json_quote` of the text, as serde_json's `format_escaped_str` writes it.
#[verifier::external_body]
fn quote_str(s: &str) -> (r: String)
    ensures
        r@ == json_quote(s@),
{
    match serde_json::to_string(s) {
        Ok(t) => t,
        Err(_) => String::new(),
    }
}

/// Items separated by commas.
pub open spec fn comma_join(items: Seq<Seq<char>>) -> Seq<char>
    decreases items.len(),
{
    if items.len() == 0 {
        seq![]
    } else if items.len() == 1 {
        items[0]
    } else {
        comma_join(items.drop_last()) + seq![','] + items.last()
    }
}

/// A JSON array of already-rendered items.
pub open spec fn json_list(items: Seq<Seq<char>>) -> Seq<char> {
    seq!['['] + comma_join(items) + seq![']']
}

pub proof fn lemma_comma_join_step(items: Seq<Seq<char>>, i: int)
    requires
        0 <= i < items.len(),
    ensures
        comma_join(items.take(i + 1)) == if i == 0 {
            items[0]
        } else {
            comma_join(items.take(i)) + seq![','] + items[i]
        },
{
    let t = items.take(i + 1);
    assert(t.drop_last() =~= items.take(i));
}

/// A byte array as JSON: `[b0,b1,...]`.
pub open spec fn json_bytes(b: Seq<u8>) -> Seq<char> {
    json_list(Seq::new(b.len(), |i: int| dec(b[i] as nat)))
}

/// A list of strings as JSON.
pub open spec fn json_str_list(ss: Seq<Seq<char>>) -> Seq<char> {
    json_list(Seq::new(ss.len(), |i: int| json_quote(ss[i])))
}

pub open spec fn json_bool(b: bool) -> Seq<char> {
    if b { "true"@ } else { "false"@ }
}

/// Appends a JSON string literal.
pub fn push_json_str(s: &mut String, t: &str)
    ensures
        final(s)@ == old(s)@ + json_quote(t@),
{
    let q = quote_str(t);
    s.append(q.as_str());
}

/// Appends `[b0,b1,...]`.
pub fn push_json_bytes(s: &mut String, b: &[u8])
    ensures
        final(s)@ == old(s)@ + json_bytes(b@),
{
    let ghost items = Seq::new(b@.len(), |i: int| dec(b@[i] as nat));
    let ghost s0 = s@;
    push_char(s, '[');
    let mut i: usize = 0;
    while i < b.len()
        invariant
            i <= b@.len(),
            items == Seq::new(b@.len(), |i: int| dec(b@[i] as nat)),
            s@ == s0 + seq!['['] + comma_join(items.take(i as int)),
        decreases b@.len() - i,
    {
        proof {
            lemma_comma_join_step(items, i as int);
        }
        if i > 0 {
            push_char(s, ',');
        }
        push_dec(s, b[i] as u64);
        proof {
            if i == 0 {
                assert(s@ =~= s0 + seq!['['] + comma_join(items.take(i + 1)));
            } else {
                assert(s@ =~= s0 + seq!['['] + comma_join(items.take(i + 1)));
            }
        }
        i += 1;
    }
    push_char(s, ']');
    proof {
        assert(items.take(b@.len() as int) =~= items);
        assert(s@ =~= s0 + json_bytes(b@));
    }
}

/// Appends a JSON list of strings.
pub fn push_json_str_list(s: &mut String, v: &Vec<String>)
    ensures
        final(s)@ == old(s)@ + json_str_list(crate::text::lines_view(v@)),
{
    let ghost lv = crate::text::lines_view(v@);
    let ghost items = Seq::new(lv.len(), |i: int| json_quote(lv[i]));
    let ghost s0 = s@;
    push_char(s, '[');
    let mut i: usize = 0;
    while i < v.len()
        invariant
            i <= v@.len(),
            lv == crate::text::lines_view(v@),
            items == Seq::new(lv.len(), |i: int| json_quote(lv[i])),
            s@ == s0 + seq!['['] + comma_join(items.take(i as int)),
        decreases v@.len() - i,
    {
        proof {
            lemma_comma_join_step(items, i as int);
        }
        if i > 0 {
            push_char(s, ',');
        }
        push_json_str(s, v[i].as_str());
        proof {
            assert(s@ =~= s0 + seq!['['] + comma_join(items.take(i + 1)));
        }
        i += 1;
    }
    push_char(s, ']');
    proof {
        assert(items.take(v@.len() as int) =~= items);
        assert(s@ =~= s0 + json_str_list(lv));
    }
}

/// Appends `true` or `false`.
pub fn push_json_bool(s: &mut String, b: bool)
    ensures
        final(s)@ == old(s)@ + json_bool(b),
{
    if b {
        s.append("true");
    } else {
        s.append("false");
    }
}

/// Appends an unsigned integer.
pub fn push_json_u64(s: &mut String, n: u64)
    ensures
        final(s)@ == old(s)@ + dec(n as nat),
{
    push_dec(s, n);
}

/// Appends a signed integer.
pub fn push_json_i64(s: &mut String, n: i64)
    ensures
        final(s)@ == old(s)@ + dec_signed(n as int),
{
    push_dec_signed(s, n);
}

/// Appends literal text.
pub fn push_lit(s: &mut String, t: &str)
    ensures
        final(s)@ == old(s)@ + t@,
{
    append_str(s, t);
}

} // verus!
