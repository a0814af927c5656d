//! Canonical text form of tenant identifiers and the stable 64-bit hash the
//! balancer partitions by.

use vstd::prelude::*;

verus! {

/// 16 raised to `k`.
pub open spec fn pow16(k: nat) -> nat
    decreases k,
{
    if k == 0 {
        1
    } else {
        16 * pow16((k - 1) as nat)
    }
}

/// The lower-case hex digit character for `d` (`0 <= d < 16`).
pub open spec fn hex_digit(d: int) -> char {
    if d < 10 {
        crate::text::dec_digit(d)
    } else if d == 10 {
        'a'
    } else if d == 11 {
        'b'
    } else if d == 12 {
        'c'
    } else if d == 13 {
        'd'
    } else if d == 14 {
        'e'
    } else {
        'f'
    }
}

/// `n` rendered as exactly `digits` lower-case hex digits, most significant
/// first, with leading zeroes.
pub open spec fn hex_str(n: nat, digits: nat) -> Seq<char>
    decreases digits,
{
    if digits == 0 {
        Seq::empty()
    } else {
        seq![hex_digit(((n / pow16((digits - 1) as nat)) % 16) as int)] + hex_str(
            n % pow16((digits - 1) as nat),
            (digits - 1) as nat,
        )
    }
}

/// The canonical text form of a 128-bit tenant identifier: 32 lower-case hex
/// digits, most significant first, with hyphens grouping them 8-4-4-4-12.
pub open spec fn canonical_id(t: u128) -> Seq<char> {
    let h = hex_str(t as nat, 32);
    h.subrange(0, 8) + seq!['-'] + h.subrange(8, 12) + seq!['-'] + h.subrange(12, 16) + seq!['-']
        + h.subrange(16, 20) + seq!['-'] + h.subrange(20, 32)
}

/// Relies on `uuid::Uuid::from_u128` and its `to_string`: the identifier's
/// sixteen big-endian bytes rendered as lower-case hex with hyphens in the
/// 8-4-4-4-12 pattern, which is exactly `canonical_id`.
#[verifier::external_body]
pub fn canonical_id_string(t: u128) -> (s: String)
    ensures
        s@ == canonical_id(t),
{
    uuid::Uuid::from_u128(t).to_string()
}

/// What the standard library's `DefaultHasher`, freshly created with `new`,
/// yields for a given string. `DefaultHasher::new` is documented to build
/// hashers that produce the same output for the same input, so the result is
/// a function of the characters alone.
pub uninterp spec fn hash64_of(s: Seq<char>) -> u64;

/// Relies on `DefaultHasher::new`, `Hash::hash` for `str` and
/// `Hasher::finish`: a 64-bit non-cryptographic hash of the string,
/// depending on its characters alone.
#[verifier::external_body]
pub fn str_hash64(s: &str) -> (r: u64)
    ensures
        r == hash64_of(s@),
{
    let mut h = std::collections::hash_map::DefaultHasher::new();
    std::hash::Hash::hash(s, &mut h);
    std::hash::Hasher::finish(&h)
}

/// The 64-bit hash of a tenant identifier's canonical text form.
pub fn tenant_hash64(t: u128) -> (r: u64)
    ensures
        r == hash64_of(canonical_id(t)),
{
    let s = canonical_id_string(t);
    str_hash64(s.as_str())
}

} // verus!
