//! Small string utilities shared by the cache key scheme, the configuration
//! layer and the balancer: decimal rendering of integers and ASCII
//! case-insensitive comparison.

use vstd::prelude::*;
use vstd::string::{StrSliceExecFns, StringExecFns};

verus! {

/// The decimal digit character for `d` (`0 <= d < 10`).
pub open spec fn dec_digit(d: int) -> char {
    if d == 0 { '0' }
    else if d == 1 { '1' }
    else if d == 2 { '2' }
    else if d == 3 { '3' }
    else if d == 4 { '4' }
    else if d == 5 { '5' }
    else if d == 6 { '6' }
    else if d == 7 { '7' }
    else if d == 8 { '8' }
    else { '9' }
}

/// The usual decimal rendering of `n`, most significant digit first,
/// without leading zeroes (except for `n == 0` itself).
pub open spec fn dec_str(n: nat) -> Seq<char>
    decreases n,
{
    if n < 10 {
        seq![dec_digit(n as int)]
    } else {
        dec_str(n / 10).push(dec_digit((n % 10) as int))
    }
}

/// A one-character string for the digit `d`.
fn digit_to_str(d: u64) -> (s: &'static str)
    requires
        d < 10,
    ensures
        s@ == seq![dec_digit(d as int)],
{
    proof {
        reveal_strlit("0");
        reveal_strlit("1");
        reveal_strlit("2");
        reveal_strlit("3");
        reveal_strlit("4");
        reveal_strlit("5");
        reveal_strlit("6");
        reveal_strlit("7");
        reveal_strlit("8");
        reveal_strlit("9");
    }
    let s = match d {
        0 => "0",
        1 => "1",
        2 => "2",
        3 => "3",
        4 => "4",
        5 => "5",
        6 => "6",
        7 => "7",
        8 => "8",
        _ => "9",
    };
    proof {
        assert(s@ =~= seq![dec_digit(d as int)]);
    }
    s
}

/// Renders `n` in decimal.
pub fn u64_to_string(n: u64) -> (s: String)
    ensures
        s@ == dec_str(n as nat),
    decreases n,
{
    if n < 10 {
        digit_to_str(n).to_owned()
    } else {
        let mut s = u64_to_string(n / 10);
        s.append(digit_to_str(n % 10));
        proof {
            assert(s@ =~= dec_str(n as nat));
        }
        s
    }
}

/// `'A'..='Z'` mapped to the corresponding lower-case letter; every other
/// character unchanged.
pub open spec fn ascii_lower_char(c: char) -> char {
    if 'A' <= c && c <= 'Z' {
        (((c as u8) + 32) as u8) as char
    } else {
        c
    }
}

/// The character sequence with all ASCII upper-case letters lowered.
pub open spec fn ascii_lower(s: Seq<char>) -> Seq<char> {
    s.map_values(|c: char| ascii_lower_char(c))
}

/// Relies on `str::eq_ignore_ascii_case`: the result is true exactly when the
/// two strings agree once ASCII upper-case letters are mapped to lower case,
/// with all other characters compared as they stand.
#[verifier::external_body]
pub fn str_eq_ignore_ascii_case(a: &str, b: &str) -> (r: bool)
    ensures
        r == (ascii_lower(a@) == ascii_lower(b@)),
{
    a.eq_ignore_ascii_case(b)
}

/// Whether an owned string and a borrowed one read the same.
pub fn string_eq_str(a: &String, b: &str) -> (r: bool)
    ensures
        r == (a@ == b@),
{
    let bs = b.to_owned();
    *a == bs
}

/// The UTF-8 encoding of a character sequence.
pub open spec fn str_bytes(s: Seq<char>) -> Seq<u8> {
    vstd::utf8::encode_utf8(s)
}

/// Lexicographic order on byte sequences: the order strings sort in.
pub open spec fn bytes_le(a: Seq<u8>, b: Seq<u8>) -> bool
    decreases a.len(),
{
    if a.len() == 0 {
        true
    } else if b.len() == 0 {
        false
    } else if a[0] < b[0] {
        true
    } else if a[0] > b[0] {
        false
    } else {
        bytes_le(a.skip(1), b.skip(1))
    }
}

/// Lexicographic order is total: one direction always holds.
pub proof fn lemma_bytes_le_total(a: Seq<u8>, b: Seq<u8>)
    ensures
        bytes_le(a, b) || bytes_le(b, a),
    decreases a.len(),
{
    if a.len() == 0 || b.len() == 0 {
    } else if a[0] == b[0] {
        lemma_bytes_le_total(a.skip(1), b.skip(1));
    }
}

/// Lexicographic order is transitive.
pub proof fn lemma_bytes_le_trans(a: Seq<u8>, b: Seq<u8>, c: Seq<u8>)
    requires
        bytes_le(a, b),
        bytes_le(b, c),
    ensures
        bytes_le(a, c),
    decreases a.len(),
{
    if a.len() == 0 || b.len() == 0 || c.len() == 0 {
    } else if a[0] == b[0] && b[0] == c[0] {
        lemma_bytes_le_trans(a.skip(1), b.skip(1), c.skip(1));
    }
}

/// Whether `a` sorts at or before `b`, comparing their UTF-8 bytes.
pub fn str_le(a: &str, b: &str) -> (r: bool)
    ensures
        r == bytes_le(str_bytes(a@), str_bytes(b@)),
{
    let ab = a.as_bytes();
    let bb = b.as_bytes();
    let mut i: usize = 0;
    proof {
        assert(ab@.skip(0) =~= ab@);
        assert(bb@.skip(0) =~= bb@);
    }
    while i < ab.len() && i < bb.len()
        invariant
            i <= ab@.len(),
            i <= bb@.len(),
            ab@ == str_bytes(a@),
            bb@ == str_bytes(b@),
            bytes_le(ab@, bb@) == bytes_le(ab@.skip(i as int), bb@.skip(i as int)),
        decreases ab@.len() - i,
    {
        let x = ab[i];
        let y = bb[i];
        proof {
            assert(ab@.skip(i as int)[0] == x);
            assert(bb@.skip(i as int)[0] == y);
            assert(ab@.skip(i as int).skip(1) =~= ab@.skip(i + 1));
            assert(bb@.skip(i as int).skip(1) =~= bb@.skip(i + 1));
        }
        if x < y {
            return true;
        }
        if x > y {
            return false;
        }
        i = i + 1;
    }
    proof {
        if i == ab@.len() {
            assert(ab@.skip(i as int).len() == 0);
        } else {
            assert(bb@.skip(i as int).len() == 0);
            assert(ab@.skip(i as int).len() > 0);
        }
    }
    ab.len() <= bb.len()
}

/// The suffix after the last separator `'/'`; the whole sequence when none
/// occurs, and empty when the sequence ends with one.
pub open spec fn after_last_slash(s: Seq<char>) -> Seq<char>
    decreases s.len(),
{
    if s.len() == 0 {
        s
    } else if s.last() == '/' {
        Seq::empty()
    } else {
        after_last_slash(s.drop_last()).push(s.last())
    }
}

/// With the last separator at `i`, the suffix is everything after it.
pub proof fn lemma_after_last_slash_at(s: Seq<char>, i: int)
    requires
        0 <= i < s.len(),
        s[i] == '/',
        forall|j: int| i < j < s.len() ==> s[j] != '/',
    ensures
        after_last_slash(s) == s.subrange(i + 1, s.len() as int),
    decreases s.len(),
{
    if i == s.len() - 1 {
        assert(after_last_slash(s) =~= s.subrange(i + 1, s.len() as int));
    } else {
        lemma_after_last_slash_at(s.drop_last(), i);
        assert(s.drop_last().subrange(i + 1, s.len() - 1) =~= s.subrange(i + 1, s.len() - 1));
        assert(after_last_slash(s) =~= s.subrange(i + 1, s.len() as int));
    }
}

/// The sequence with every trailing repetition of `suf` removed.
pub open spec fn trim_suffix_rep(s: Seq<char>, suf: Seq<char>) -> Seq<char>
    decreases s.len(),
{
    if suf.len() > 0 && s.len() >= suf.len() && s.subrange(
        s.len() - suf.len(),
        s.len() as int,
    ) == suf {
        trim_suffix_rep(s.take(s.len() - suf.len()), suf)
    } else {
        s
    }
}

/// Trim every repetition of a three-character suffix off the end.
pub fn trim_suffix3(s: &str, c0: char, c1: char, c2: char) -> (r: String)
    ensures
        r@ == trim_suffix_rep(s@, seq![c0, c1, c2]),
    decreases s@.len(),
{
    let n = s.unicode_len();
    if n >= 3 && s.get_char(n - 3) == c0 && s.get_char(n - 2) == c1 && s.get_char(n - 1) == c2 {
        proof {
            assert(s@.subrange(s@.len() - 3, s@.len() as int) =~= seq![c0, c1, c2]);
        }
        let head = s.substring_char(0, n - 3);
        proof {
            assert(head@ =~= s@.take(s@.len() - 3));
        }
        trim_suffix3(head, c0, c1, c2)
    } else {
        proof {
            if s@.len() >= 3 && s@.subrange(s@.len() - 3, s@.len() as int) == seq![c0, c1, c2] {
                assert(s@.subrange(s@.len() - 3, s@.len() as int)[0] == s@[s@.len() - 3]);
                assert(s@.subrange(s@.len() - 3, s@.len() as int)[1] == s@[s@.len() - 2]);
                assert(s@.subrange(s@.len() - 3, s@.len() as int)[2] == s@[s@.len() - 1]);
            }
        }
        s.to_owned()
    }
}

} // verus!
