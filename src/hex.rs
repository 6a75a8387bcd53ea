//! Lowercase hexadecimal spelling of bytes.

use vstd::prelude::*;
use crate::text::push_char;

verus! {

pub open spec fn nibble_char(d: u8) -> char {
    if d < 10 {
        ((d + 48) as u32) as char
    } else {
        ((d + 87) as u32) as char
    }
}

pub open spec fn is_hex_char(c: char) -> bool {
    ('0' <= c && c <= '9') || ('a' <= c && c <= 'f')
}

pub open spec fn nibble_value(c: char) -> u8 {
    if '0' <= c && c <= '9' {
        (c as u32 - 48) as u8
    } else {
        (c as u32 - 87) as u8
    }
}

/// Two characters for each byte, high half first.
pub open spec fn hex_enc(b: Seq<u8>) -> Seq<char> {
    Seq::new(2 * b.len(), |i: int| if i % 2 == 0 { nibble_char(b[i / 2] / 16) } else { nibble_char(b[i / 2] % 16) })
}

/// The bytes that a hexadecimal text spells, if it spells any.
pub open spec fn hex_dec(c: Seq<char>) -> Option<Seq<u8>> {
    if c.len() % 2 == 0 && forall|i: int| 0 <= i < c.len() ==> is_hex_char(#[trigger] c[i]) {
        Some(Seq::new((c.len() / 2) as nat, |i: int| (nibble_value(c[2 * i]) * 16 + nibble_value(c[2 * i + 1])) as u8))
    } else {
        None
    }
}

proof fn lemma_nibble(d: u8)
    requires
        d < 16,
    ensures
        is_hex_char(nibble_char(d)),
        nibble_value(nibble_char(d)) == d,
{
}

/// Hexadecimal spelling is read back exactly.
pub proof fn lemma_hex_round_trip(b: Seq<u8>)
    ensures
        hex_dec(hex_enc(b)) == Some(b),
{
    let c = hex_enc(b);
    assert forall|i: int| 0 <= i < c.len() implies is_hex_char(#[trigger] c[i]) by {
        lemma_nibble(b[i / 2] / 16);
        lemma_nibble(b[i / 2] % 16);
    }
    let d = hex_dec(c)->0;
    assert forall|i: int| 0 <= i < b.len() implies d[i] == b[i] by {
        assert((2 * i) / 2 == i);
        assert((2 * i + 1) / 2 == i);
        assert((2 * i) % 2 == 0);
        assert((2 * i + 1) % 2 == 1);
        lemma_nibble(b[i] / 16);
        lemma_nibble(b[i] % 16);
        assert((b[i] / 16) * 16 + b[i] % 16 == b[i]);
    }
    assert(d =~= b);
}

fn nibble_to_char(d: u8) -> (c: char)
    requires
        d < 16,
    ensures
        c == nibble_char(d),
{
    if d < 10 {
        (d + 48) as char
    } else {
        (d + 87) as char
    }
}

/// The hexadecimal spelling of `b`.
pub fn to_hex(b: &[u8]) -> (r: String)
    ensures
        r@ == hex_enc(b@),
{
    let mut out = String::new();
    let mut i: usize = 0;
    while i < b.len()
        invariant
            i <= b@.len(),
            out@ =~= hex_enc(b@.take(i as int)),
        decreases b.len() - i,
    {
        let x = b[i];
        push_char(&mut out, nibble_to_char(x / 16));
        push_char(&mut out, nibble_to_char(x % 16));
        i = i + 1;
        assert(out@ =~= hex_enc(b@.take(i as int)));
    }
    assert(b@.take(i as int) =~= b@);
    out
}

fn byte_nibble(c: u8) -> (r: Option<u8>)
    ensures
        r matches Some(v) ==> is_hex_char(c as char) && v == nibble_value(c as char),
        r is None ==> !is_hex_char(c as char),
{
    if 48 <= c && c <= 57 {
        Some(c - 48)
    } else if 97 <= c && c <= 102 {
        Some(c - 87)
    } else {
        None
    }
}

/// The bytes spelled by a hexadecimal text; `None` where it is not one.
pub fn from_hex(s: &str) -> (r: Option<Vec<u8>>)
    ensures
        match hex_dec(s@) {
            Some(b) => r matches Some(v) && v@ == b,
            None => r is None,
        },
{
    if !s.is_ascii() {
        proof {
            assert(!(forall|i: int| 0 <= i < s@.len() ==> is_hex_char(#[trigger] s@[i])));
        }
        return None;
    }
    let bytes = s.as_bytes();
    proof {
        broadcast use vstd::string::is_ascii_spec_bytes;
    }
    let ghost c = s@;
    assert(bytes@.len() == c.len());
    assert(forall|i: int| 0 <= i < c.len() ==> bytes@[i] as char == c[i]);
    if bytes.len() % 2 != 0 {
        return None;
    }
    let mut out: Vec<u8> = Vec::new();
    let mut i: usize = 0;
    while i < bytes.len() / 2
        invariant
            bytes@.len() == c.len(),
            c == s@,
            c.len() % 2 == 0,
            forall|k: int| 0 <= k < c.len() ==> bytes@[k] as char == c[k],
            i <= c.len() / 2,
            forall|k: int| 0 <= k < 2 * i ==> is_hex_char(#[trigger] c[k]),
            out@.len() == i,
            forall|k: int| 0 <= k < i ==> #[trigger] out@[k] == (nibble_value(c[2 * k]) * 16 + nibble_value(c[2 * k + 1])) as u8,
        decreases bytes.len() / 2 - i,
    {
        let hi = byte_nibble(bytes[2 * i]);
        let lo = byte_nibble(bytes[2 * i + 1]);
        match (hi, lo) {
            (Some(h), Some(l)) => {
                out.push((h * 16 + l) as u8);
            },
            _ => {
                proof {
                    let k: int = if !is_hex_char(c[2 * i as int]) { 2 * i as int } else { 2 * i + 1 };
                    assert(!is_hex_char(c[k]));
                    assert(!(forall|j: int| 0 <= j < c.len() ==> is_hex_char(#[trigger] c[j])));
                }
                return None;
            },
        }
        i = i + 1;
    }
    proof {
        assert(forall|k: int| 0 <= k < c.len() ==> is_hex_char(#[trigger] c[k]));
        assert(out@ =~= hex_dec(c)->0);
    }
    Some(out)
}

} // verus!
