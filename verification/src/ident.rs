//! Identifier derivation: stable content addresses for photo paths and
//! freshly drawn identifiers for posts.
//!
//! Both kinds of identifier are 64-bit values rendered as 16 lowercase
//! hexadecimal digits. A photo's identifier is derived deterministically from
//! its source path, so it is stable across runs for an unchanged path; a
//! post's identifier is drawn at random once and then persisted.

use std::collections::hash_map::DefaultHasher;
use std::hash::Hasher;
use vstd::prelude::*;
use vstd::std_specs::hash::DefaultHasherAdditionalSpecFns;

verus! {

/// The lowercase hexadecimal digit character for `d`.
pub open spec fn hex_char_of(d: u64) -> char {
    if d == 0 {
        '0'
    } else if d == 1 {
        '1'
    } else if d == 2 {
        '2'
    } else if d == 3 {
        '3'
    } else if d == 4 {
        '4'
    } else if d == 5 {
        '5'
    } else if d == 6 {
        '6'
    } else if d == 7 {
        '7'
    } else if d == 8 {
        '8'
    } else if d == 9 {
        '9'
    } else if d == 10 {
        'a'
    } else if d == 11 {
        'b'
    } else if d == 12 {
        'c'
    } else if d == 13 {
        'd'
    } else if d == 14 {
        'e'
    } else {
        'f'
    }
}

/// The `i`-th hexadecimal digit of `v`, counting from the most significant.
pub open spec fn hex_nibble(v: u64, i: int) -> u64 {
    (v >> (((15 - i) * 4) as u64)) & 0xf
}

/// The 16-digit lowercase hexadecimal rendering of `v`.
pub open spec fn hex16_of(v: u64) -> Seq<char> {
    Seq::new(16, |i: int| hex_char_of(hex_nibble(v, i)))
}

/// Whether `c` is a lowercase hexadecimal digit.
pub open spec fn is_hex_char(c: char) -> bool {
    ('0' <= c && c <= '9') || ('a' <= c && c <= 'f')
}

/// Whether `s` is a 16-digit lowercase hexadecimal token.
pub open spec fn is_hex16(s: Seq<char>) -> bool {
    s.len() == 16 && forall|i: int| 0 <= i < 16 ==> is_hex_char(#[trigger] s[i])
}

pub proof fn lemma_hex16_is_hex16(v: u64)
    ensures
        is_hex16(hex16_of(v)),
{
    assert forall|i: int| 0 <= i < 16 implies is_hex_char(#[trigger] hex16_of(v)[i]) by {
        let s: u64 = ((15 - i) * 4) as u64;
        assert((v >> s) & 0xf < 16) by (bit_vector);
    }
}

pub fn hex_digit_char(d: u64) -> (r: char)
    requires
        d < 16,
    ensures
        r == hex_char_of(d),
{
    if d == 0 {
        '0'
    } else if d == 1 {
        '1'
    } else if d == 2 {
        '2'
    } else if d == 3 {
        '3'
    } else if d == 4 {
        '4'
    } else if d == 5 {
        '5'
    } else if d == 6 {
        '6'
    } else if d == 7 {
        '7'
    } else if d == 8 {
        '8'
    } else if d == 9 {
        '9'
    } else if d == 10 {
        'a'
    } else if d == 11 {
        'b'
    } else if d == 12 {
        'c'
    } else if d == 13 {
        'd'
    } else if d == 14 {
        'e'
    } else {
        'f'
    }
}

/// Renders `v` as exactly 16 lowercase hexadecimal digits.
pub fn to_hex16(v: u64) -> (r: String)
    ensures
        r@ == hex16_of(v),
{
    let mut r = String::new();
    let mut i: usize = 0;
    while i < 16
        invariant
            0 <= i <= 16,
            r@ =~= hex16_of(v).take(i as int),
        decreases 16 - i,
    {
        let shift: u64 = (15 - i as u64) * 4;
        let d: u64 = (v >> shift) & 0xf;
        assert((v >> shift) & 0xf < 16) by (bit_vector);
        assert(d == hex_nibble(v, i as int));
        let c = hex_digit_char(d);
        crate::text::push_char(&mut r, c);
        assert(r@ =~= hex16_of(v).take(i + 1));
        i = i + 1;
    }
    assert(r@ =~= hex16_of(v));
    r
}

/// The 64-bit hash that `DefaultHasher` assigns to the UTF-8 bytes of `s`;
/// fixed for a given string within vstd's model of the hasher.
pub open spec fn text_hash64(s: Seq<char>) -> u64 {
    DefaultHasher::spec_finish(seq![vstd::utf8::encode_utf8(s)])
}

/// The stable content address of a path: the hash of the path string,
/// rendered as 16 hexadecimal digits.
pub open spec fn derived_id(path: Seq<char>) -> Seq<char> {
    hex16_of(text_hash64(path))
}

/// Hashes the UTF-8 bytes of `s` with `DefaultHasher`.
pub fn text_hash(s: &str) -> (r: u64)
    ensures
        r == text_hash64(s@),
{
    let mut h = DefaultHasher::new();
    h.write(s.as_bytes());
    proof {
        assert(h@ =~= seq![vstd::utf8::encode_utf8(s@)]);
    }
    h.finish()
}

/// Derives the stable identifier for a photo source path. Deterministic: the
/// same path always maps to the same 16-digit token.
pub fn derive_id(path: &str) -> (r: String)
    ensures
        r@ == derived_id(path@),
        is_hex16(r@),
{
    let v = text_hash(path);
    proof {
        lemma_hex16_is_hex16(v);
    }
    to_hex16(v)
}

/// Relies on `rand::random` (rand crate): draws a 64-bit value; nothing is
/// assumed about which one.
#[verifier::external_body]
fn random_u64() -> u64 {
    rand::random()
}

/// Draws a fresh post identifier: a random 64-bit value rendered as 16
/// hexadecimal digits. Collisions are not checked for; callers treat a
/// duplicate insert as a store error.
pub fn generate_id() -> (r: String)
    ensures
        is_hex16(r@),
{
    let v = random_u64();
    proof {
        lemma_hex16_is_hex16(v);
    }
    to_hex16(v)
}

} // verus!
