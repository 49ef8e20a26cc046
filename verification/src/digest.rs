//! Canonical identity text and content digests.
//!
//! Every content-addressed value in this crate is identified by the BLAKE3
//! hash of a canonical, compact JSON rendering of its identity fields, written
//! as 64 lowercase hexadecimal characters. The rendering is built here from
//! the value's fields in declaration order; only the hash comes from the
//! `blake3` crate.

use vstd::prelude::*;
use vstd::utf8::encode_utf8;

use crate::text::{chars_of, decimal, digit_char, hex, hex_char, is_digest_seq, is_lower_hex, push_char};

verus! {

// ---------------------------------------------------------------------------
// The outside hash
// ---------------------------------------------------------------------------

/// The 32-byte BLAKE3 hash of `input`, as `blake3::hash` computes it.
pub uninterp spec fn blake3_hash(input: Seq<u8>) -> Seq<u8>;

/// Calls `blake3::hash` and copies the 32 output bytes.
///
/// The contract claims only that the result is `blake3_hash` of the input
/// and, as the crate documents (`OUT_LEN`), 32 bytes long.
#[verifier::external_body]
pub(crate) fn blake3_bytes(input: &[u8]) -> (out: Vec<u8>)
    ensures
        out@ == blake3_hash(input@),
        out@.len() == 32,
{
    blake3::hash(input).as_bytes().to_vec()
}

// ---------------------------------------------------------------------------
// Digests of text
// ---------------------------------------------------------------------------

/// The identity digest of canonical text: lowercase hex of the BLAKE3 hash of
/// its UTF-8 bytes.
pub open spec fn digest_of(text: Seq<char>) -> Seq<char> {
    hex(blake3_hash(encode_utf8(text)))
}

pub proof fn lemma_hex_shape(bytes: Seq<u8>)
    ensures
        hex(bytes).len() == 2 * bytes.len(),
        forall|i: int| 0 <= i < hex(bytes).len() ==> #[trigger] is_lower_hex(hex(bytes)[i]),
    decreases bytes.len(),
{
    if bytes.len() > 0 {
        lemma_hex_shape(bytes.drop_last());
        let b = bytes.last();
        let h = hex(bytes.drop_last());
        let t = seq![hex_char((b / 16) as nat), hex_char((b % 16) as nat)];
        assert(hex(bytes) == h + t);
        assert forall|i: int| 0 <= i < hex(bytes).len() implies #[trigger] is_lower_hex(
            hex(bytes)[i],
        ) by {
            if i < h.len() {
                assert(hex(bytes)[i] == h[i]);
            } else {
                assert(hex(bytes)[i] == t[i - h.len()]);
            }
        }
    }
}

fn hex_digit(d: u8) -> (c: char)
    requires
        d < 16,
    ensures
        c == hex_char(d as nat),
{
    if d < 10 {
        ((d as u32 + '0' as u32) as u8) as char
    } else {
        ((d as u32 - 10 + 'a' as u32) as u8) as char
    }
}

/// Lowercase hexadecimal rendering of bytes.
pub fn hex_string(bytes: &Vec<u8>) -> (out: String)
    ensures
        out@ == hex(bytes@),
{
    let mut out = String::new();
    let mut i: usize = 0;
    assert(bytes@.take(0) =~= Seq::<u8>::empty());
    while i < bytes.len()
        invariant
            i <= bytes@.len(),
            out@ == hex(bytes@.take(i as int)),
        decreases bytes@.len() - i,
    {
        let b = bytes[i];
        push_char(&mut out, hex_digit(b / 16));
        push_char(&mut out, hex_digit(b % 16));
        assert(bytes@.take(i as int + 1).drop_last() =~= bytes@.take(i as int));
        i += 1;
    }
    assert(bytes@.take(bytes@.len() as int) =~= bytes@);
    out
}

/// The digest of canonical text.
pub fn digest_text(text: &String) -> (d: String)
    ensures
        d@ == digest_of(text@),
        is_digest_seq(d@),
{
    let bytes = blake3_bytes(text.as_str().as_bytes());
    let d = hex_string(&bytes);
    proof {
        lemma_hex_shape(bytes@);
    }
    d
}

// ---------------------------------------------------------------------------
// Compact JSON
// ---------------------------------------------------------------------------

pub open spec fn hex4_control(u: nat) -> Seq<char> {
    seq!['\\', 'u', '0', '0', hex_char(u / 16), hex_char(u % 16)]
}

/// One character as a compact JSON string body writes it.
pub open spec fn json_escape_char(c: char) -> Seq<char> {
    if c == '"' {
        seq!['\\', '"']
    } else if c == '\\' {
        seq!['\\', '\\']
    } else if c == '\n' {
        seq!['\\', 'n']
    } else if c == '\r' {
        seq!['\\', 'r']
    } else if c == '\t' {
        seq!['\\', 't']
    } else if (c as u32) == 8 {
        seq!['\\', 'b']
    } else if (c as u32) == 12 {
        seq!['\\', 'f']
    } else if (c as u32) < 0x20 {
        hex4_control(c as u32 as nat)
    } else {
        seq![c]
    }
}

pub open spec fn json_escape(s: Seq<char>) -> Seq<char>
    decreases s.len(),
{
    if s.len() == 0 {
        seq![]
    } else {
        json_escape(s.drop_last()) + json_escape_char(s.last())
    }
}

/// A JSON string literal for `s`.
pub open spec fn json_string(s: Seq<char>) -> Seq<char> {
    seq!['"'] + json_escape(s) + seq!['"']
}

/// A JSON array of string literals.
pub open spec fn json_string_items(items: Seq<Seq<char>>) -> Seq<char>
    decreases items.len(),
{
    if items.len() == 0 {
        seq![]
    } else if items.len() == 1 {
        json_string(items[0])
    } else {
        json_string_items(items.drop_last()) + seq![','] + json_string(items.last())
    }
}

pub open spec fn json_string_array(items: Seq<Seq<char>>) -> Seq<char> {
    seq!['['] + json_string_items(items) + seq![']']
}

/// A JSON number for an unsigned integer.
pub open spec fn json_nat(n: nat) -> Seq<char> {
    decimal(n)
}

/// Appends the decimal rendering of `n`.
pub fn push_decimal(out: &mut String, n: u64)
    ensures
        final(out)@ == old(out)@ + decimal(n as nat),
    decreases n,
{
    if n >= 10 {
        push_decimal(out, n / 10);
    }
    let d = (n % 10) as u8;
    let c = ((d as u32 + '0' as u32) as u8) as char;
    push_char(out, c);
    proof {
        if n < 10 {
            assert(decimal(n as nat) =~= seq![digit_char(n as nat)]);
        } else {
            assert(decimal(n as nat) =~= decimal((n / 10) as nat).push(digit_char((n % 10) as nat)));
        }
    }
}

fn push_json_escape_char(out: &mut String, c: char)
    ensures
        final(out)@ == old(out)@ + json_escape_char(c),
{
    let u = c as u32;
    if c == '"' {
        push_char(out, '\\');
        push_char(out, '"');
    } else if c == '\\' {
        push_char(out, '\\');
        push_char(out, '\\');
    } else if c == '\n' {
        push_char(out, '\\');
        push_char(out, 'n');
    } else if c == '\r' {
        push_char(out, '\\');
        push_char(out, 'r');
    } else if c == '\t' {
        push_char(out, '\\');
        push_char(out, 't');
    } else if u == 8 {
        push_char(out, '\\');
        push_char(out, 'b');
    } else if u == 12 {
        push_char(out, '\\');
        push_char(out, 'f');
    } else if u < 0x20 {
        push_char(out, '\\');
        push_char(out, 'u');
        push_char(out, '0');
        push_char(out, '0');
        push_char(out, hex_digit((u / 16) as u8));
        push_char(out, hex_digit((u % 16) as u8));
    } else {
        push_char(out, c);
    }
}

/// Appends a JSON string literal.
pub fn push_json_string(out: &mut String, s: &str)
    ensures
        final(out)@ == old(out)@ + json_string(s@),
{
    let v = chars_of(s);
    push_char(out, '"');
    let ghost start = out@;
    let mut i: usize = 0;
    assert(v@.take(0) =~= Seq::<char>::empty());
    while i < v.len()
        invariant
            i <= v@.len(),
            v@ == s@,
            out@ == start + json_escape(v@.take(i as int)),
        decreases v@.len() - i,
    {
        push_json_escape_char(out, v[i]);
        assert(v@.take(i as int + 1).drop_last() =~= v@.take(i as int));
        i += 1;
    }
    assert(v@.take(v@.len() as int) =~= v@);
    push_char(out, '"');
    assert(out@ =~= old(out)@ + json_string(s@));
}

/// Appends a JSON array of string literals.
pub fn push_json_string_array(out: &mut String, items: &Vec<String>)
    ensures
        final(out)@ == old(out)@ + json_string_array(items@.map_values(|s: String| s@)),
{
    let ghost views = items@.map_values(|s: String| s@);
    push_char(out, '[');
    let ghost start = out@;
    let mut i: usize = 0;
    assert(views.take(0) =~= Seq::<Seq<char>>::empty());
    while i < items.len()
        invariant
            i <= items@.len(),
            views == items@.map_values(|s: String| s@),
            out@ == start + json_string_items(views.take(i as int)),
        decreases items@.len() - i,
    {
        if i > 0 {
            push_char(out, ',');
        }
        push_json_string(out, items[i].as_str());
        proof {
            let t = views.take(i as int + 1);
            assert(t.drop_last() =~= views.take(i as int));
            assert(t.last() == items@[i as int]@);
            if i == 0 {
                assert(json_string_items(t) == json_string(t[0]));
            }
        }
        i += 1;
    }
    assert(views.take(items@.len() as int) =~= views);
    push_char(out, ']');
    assert(out@ =~= old(out)@ + json_string_array(views));
}

} // verus!
