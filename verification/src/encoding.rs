//! Canonical byte and text encodings: little-endian byte sequences as
//! integers, lowercase hex, and decimal rendering of indices.

use vstd::arithmetic::div_mod::{
    lemma_div_multiples_vanish_fancy, lemma_mod_add_multiples_vanish, lemma_mod_breakdown,
    lemma_mod_multiples_vanish, lemma_small_mod,
};
use vstd::arithmetic::power2::{lemma2_to64, lemma_pow2_adds, lemma_pow2_pos, pow2};
use vstd::prelude::*;

verus! {

// ---------------------------------------------------------------------------
// Little-endian interpretation of byte sequences
// ---------------------------------------------------------------------------

/// 256^n.
pub open spec fn pow256(n: nat) -> int
    decreases n,
{
    if n == 0 {
        1
    } else {
        256 * pow256((n - 1) as nat)
    }
}

/// The integer a byte sequence denotes in little-endian order.
pub open spec fn le_int_of(s: Seq<u8>) -> int
    decreases s.len(),
{
    if s.len() == 0 {
        0
    } else {
        s[0] + 256 * le_int_of(s.drop_first())
    }
}

/// The canonical 32-byte little-endian encoding of a non-negative integer
/// below 256^32.
pub open spec fn le_bytes32_of(v: int) -> Seq<u8> {
    Seq::new(32, |i: int| ((v / pow256(i as nat)) % 256) as u8)
}

pub proof fn lemma_pow256_pos(n: nat)
    ensures
        pow256(n) >= 1,
    decreases n,
{
    if n > 0 {
        lemma_pow256_pos((n - 1) as nat);
    }
}

pub proof fn lemma_le_int_bound(s: Seq<u8>)
    ensures
        0 <= le_int_of(s) < pow256(s.len()),
    decreases s.len(),
{
    if s.len() == 0 {
    } else {
        lemma_le_int_bound(s.drop_first());
    }
}

proof fn lemma_le_int_of_prefix(n: nat, v: int)
    requires
        v >= 0,
    ensures
        le_int_of(Seq::new(n, |i: int| ((v / pow256(i as nat)) % 256) as u8)) == v % pow256(n),
    decreases n,
{
    let s = Seq::new(n, |i: int| ((v / pow256(i as nat)) % 256) as u8);
    if n == 0 {
        assert(v % 1 == 0) by {
            lemma_small_mod(0, 1);
            assert(v % 1 == 0) by (nonlinear_arith)
                requires v >= 0;
        }
    } else {
        let t = Seq::new((n - 1) as nat, |i: int| (((v / 256) / pow256(i as nat)) % 256) as u8);
        assert(s.drop_first() =~= t) by {
            assert forall|i: int| 0 <= i < n - 1 implies s.drop_first()[i] == t[i] by {
                assert(s.drop_first()[i] == s[i + 1]);
                assert(pow256((i + 1) as nat) == 256 * pow256(i as nat));
                assert(v / pow256((i + 1) as nat) == (v / 256) / pow256(i as nat)) by {
                    lemma_pow256_pos(i as nat);
                    vstd::arithmetic::div_mod::lemma_div_denominator(v, 256, pow256(i as nat));
                }
            }
        }
        lemma_le_int_of_prefix((n - 1) as nat, v / 256);
        assert(le_int_of(s) == (v % 256) + 256 * ((v / 256) % pow256((n - 1) as nat)));
        lemma_pow256_pos((n - 1) as nat);
        lemma_mod_breakdown(v, 256, pow256((n - 1) as nat));
        assert(pow256(n) == 256 * pow256((n - 1) as nat));
    }
}

/// Reading back the canonical 32-byte encoding of `v` yields `v`.
pub proof fn lemma_le_bytes32_roundtrip(v: int)
    requires
        0 <= v < pow256(32),
    ensures
        le_int_of(le_bytes32_of(v)) == v,
{
    lemma_le_int_of_prefix(32, v);
    lemma_small_mod(v as nat, pow256(32) as nat);
}


/// The integer a byte sequence denotes in big-endian order.
pub open spec fn be_int_of(s: Seq<u8>) -> int
    decreases s.len(),
{
    if s.len() == 0 {
        0
    } else {
        s[0] * pow256((s.len() - 1) as nat) + be_int_of(s.drop_first())
    }
}

/// Bit `i` of the little-endian value of a byte sequence is bit `i % 8` of
/// byte `i / 8`.
pub proof fn lemma_le_int_bit(s: Seq<u8>, i: int)
    requires
        0 <= i < 8 * s.len(),
    ensures
        (le_int_of(s) / (pow2(i as nat) as int)) % 2 == ((s[i / 8] as int) / (pow2(
            (i % 8) as nat,
        ) as int)) % 2,
    decreases s.len(),
{
    lemma2_to64();
    let rest = le_int_of(s.drop_first());
    lemma_le_int_bound(s.drop_first());
    if i < 8 {
        assert(i / 8 == 0 && i % 8 == i);
        // le_int_of(s) = s[0] + 256 * rest; dividing by 2^i splits exactly
        let p = pow2(i as nat) as int;
        let hi = pow2((8 - i) as nat) as int;
        assert(256 == p * hi) by {
            lemma_pow2_adds(i as nat, (8 - i) as nat);
        }
        assert(p > 0) by {
            lemma_pow2_pos(i as nat);
        }
        assert(hi > 0) by {
            lemma_pow2_pos((8 - i) as nat);
        }
        assert(le_int_of(s) == s[0] + p * (hi * rest)) by (nonlinear_arith)
            requires
                le_int_of(s) == s[0] + 256 * rest,
                256 == p * hi,
        ;
        vstd::arithmetic::div_mod::lemma_hoist_over_denominator(
            s[0] as int,
            hi * rest,
            pow2(i as nat),
        );
        assert(s[0] as int / p + hi * rest == (s[0] + (hi * rest) * p) / p);
        assert((hi * rest) * p == p * (hi * rest)) by (nonlinear_arith);
        assert(le_int_of(s) / p == hi * rest + s[0] as int / p);
        // hi * rest is even since hi = 2^(8-i) with 8 - i >= 1
        let hi2 = pow2((7 - i) as nat) as int;
        assert(hi == 2 * hi2) by {
            lemma_pow2_adds(1, (7 - i) as nat);
            assert(pow2(1) == 2);
        }
        assert(hi * rest == 2 * (hi2 * rest)) by (nonlinear_arith)
            requires
                hi == 2 * hi2,
        ;
        lemma_mod_multiples_vanish(hi2 * rest, s[0] as int / p, 2);
        assert((2 * (hi2 * rest) + s[0] as int / p) % 2 == (s[0] as int / p) % 2);
    } else {
        lemma_le_int_bit(s.drop_first(), i - 8);
        // le_int_of(s) / 2^i == rest / 2^(i-8)
        lemma_div_multiples_vanish_fancy(rest, s[0] as int, 256);
        assert((256 * rest + s[0]) / 256 == rest + s[0] as int / 256);
        assert(s[0] as int / 256 == 0) by {
            vstd::arithmetic::div_mod::lemma_basic_div(s[0] as int, 256);
        }
        assert(le_int_of(s) / 256 == rest);
        assert(pow2(i as nat) as int == 256 * (pow2((i - 8) as nat) as int)) by {
            lemma_pow2_adds(8, (i - 8) as nat);
        }
        assert(le_int_of(s) / (pow2(i as nat) as int) == rest / (pow2((i - 8) as nat) as int))
            by {
            lemma_pow2_pos((i - 8) as nat);
            vstd::arithmetic::div_mod::lemma_div_denominator(
                le_int_of(s),
                256,
                pow2((i - 8) as nat) as int,
            );
        }
        assert((i - 8) / 8 == i / 8 - 1);
        assert((i - 8) % 8 == i % 8) by {
            lemma_mod_add_multiples_vanish(i - 8, 8);
        }
        assert(s.drop_first()[(i - 8) / 8] == s[i / 8]);
    }
}


/// Writes the canonical 32-byte little-endian encoding of a 64-bit value:
/// its eight little-endian bytes followed by twenty-four zero bytes.
pub fn le_bytes32_from_u64(u: u64) -> (r: Vec<u8>)
    ensures
        r@ == le_bytes32_of(u as int),
{
    let mut out: Vec<u8> = Vec::new();
    let mut cur: u64 = u;
    let mut i: usize = 0;
    while i < 8
        invariant
            i <= 8,
            out@.len() == i,
            cur as int == u as int / pow256(i as nat),
            forall|j: int| 0 <= j < i ==> out@[j] == le_bytes32_of(u as int)[j],
        decreases 8 - i,
    {
        let byte = (cur % 256) as u8;
        proof {
            lemma_pow256_pos(i as nat);
        }
        out.push(byte);
        cur = cur / 256;
        proof {
            vstd::arithmetic::div_mod::lemma_div_denominator(u as int, pow256(i as nat), 256);
            assert(pow256((i + 1) as nat) == 256 * pow256(i as nat));
            assert(pow256(i as nat) * 256 == 256 * pow256(i as nat)) by (nonlinear_arith);
        }
        i = i + 1;
    }
    proof {
        assert(pow256(8) == 0x10000000000000000int) by {
            reveal_with_fuel(pow256, 9);
        }
    }
    while i < 32
        invariant
            8 <= i <= 32,
            out@.len() == i,
            pow256(8) == 0x10000000000000000int,
            forall|j: int| 0 <= j < i ==> out@[j] == le_bytes32_of(u as int)[j],
        decreases 32 - i,
    {
        proof {
            lemma_pow256_pos(i as nat);
            assert(u < pow256(i as nat)) by {
                lemma_pow256_increases(8, i as nat);
            }
            vstd::arithmetic::div_mod::lemma_basic_div(u as int, pow256(i as nat));
            lemma_small_mod(0, 256);
            assert(le_bytes32_of(u as int)[i as int] == 0);
        }
        out.push(0);
        i = i + 1;
    }
    proof {
        assert(out@ =~= le_bytes32_of(u as int));
    }
    out
}

/// 256^m <= 256^n for m <= n.
pub proof fn lemma_pow256_increases(m: nat, n: nat)
    requires
        m <= n,
    ensures
        pow256(m) <= pow256(n),
    decreases n,
{
    if m < n {
        lemma_pow256_increases(m, (n - 1) as nat);
        lemma_pow256_pos((n - 1) as nat);
    }
}

// ---------------------------------------------------------------------------
// Lowercase hex
// ---------------------------------------------------------------------------

/// The lowercase hex digit for a value below 16.
pub open spec fn hex_digit(n: int) -> char {
    if n == 0 { '0' }
    else if n == 1 { '1' }
    else if n == 2 { '2' }
    else if n == 3 { '3' }
    else if n == 4 { '4' }
    else if n == 5 { '5' }
    else if n == 6 { '6' }
    else if n == 7 { '7' }
    else if n == 8 { '8' }
    else if n == 9 { '9' }
    else if n == 10 { 'a' }
    else if n == 11 { 'b' }
    else if n == 12 { 'c' }
    else if n == 13 { 'd' }
    else if n == 14 { 'e' }
    else { 'f' }
}

/// Two lowercase hex digits of a byte, high nibble first.
pub open spec fn hex_of_byte(b: u8) -> Seq<char> {
    seq![hex_digit(b as int / 16), hex_digit(b as int % 16)]
}

/// Lowercase hex of a byte sequence, with exactly two digits per byte.
pub open spec fn hex_of(s: Seq<u8>) -> Seq<char>
    decreases s.len(),
{
    if s.len() == 0 {
        Seq::empty()
    } else {
        hex_of_byte(s[0]) + hex_of(s.drop_first())
    }
}

/// Appends the lowercase hex digit of `n` to `out`.
fn push_hex_digit(out: &mut String, n: u8)
    requires
        n < 16,
    ensures
        final(out)@ == old(out)@ + seq![hex_digit(n as int)],
{
    let d: &str = match n {
        0 => "0",
        1 => "1",
        2 => "2",
        3 => "3",
        4 => "4",
        5 => "5",
        6 => "6",
        7 => "7",
        8 => "8",
        9 => "9",
        10 => "a",
        11 => "b",
        12 => "c",
        13 => "d",
        14 => "e",
        _ => "f",
    };
    proof {
        reveal_strlit("0");
        reveal_strlit("1");
        reveal_strlit("2");
        reveal_strlit("3");
        reveal_strlit("4");
        reveal_strlit("5");
        reveal_strlit("6");
        reveal_strlit("7");
        reveal_strlit("8");
        reveal_strlit("9");
        reveal_strlit("a");
        reveal_strlit("b");
        reveal_strlit("c");
        reveal_strlit("d");
        reveal_strlit("e");
        reveal_strlit("f");
        assert(d@ =~= seq![hex_digit(n as int)]);
    }
    out.append(d);
}

/// Renders a byte vector as lowercase hex, two digits per byte.
pub fn hex_string(bytes: &Vec<u8>) -> (r: String)
    ensures
        r@ == hex_of(bytes@),
{
    let mut out = String::new();
    let mut i: usize = 0;
    while i < bytes.len()
        invariant
            i <= bytes.len(),
            out@ == hex_of(bytes@.take(i as int)),
        decreases bytes.len() - i,
    {
        let b = bytes[i];
        push_hex_digit(&mut out, b / 16);
        push_hex_digit(&mut out, b % 16);
        proof {
            lemma_hex_of_snoc(bytes@, i as int);
        }
        i = i + 1;
    }
    proof {
        assert(bytes@.take(bytes@.len() as int) =~= bytes@);
    }
    out
}

proof fn lemma_hex_of_snoc(s: Seq<u8>, i: int)
    requires
        0 <= i < s.len(),
    ensures
        hex_of(s.take(i + 1)) == hex_of(s.take(i)) + hex_of_byte(s[i]),
{
    lemma_hex_of_concat_one(s.take(i + 1));
    assert(s.take(i + 1).drop_last() =~= s.take(i));
    assert(s.take(i + 1).last() == s[i]);
}

proof fn lemma_hex_of_concat_one(s: Seq<u8>)
    requires
        s.len() > 0,
    ensures
        hex_of(s) == hex_of(s.drop_last()) + hex_of_byte(s.last()),
    decreases s.len(),
{
    if s.len() == 1 {
        assert(s.drop_first() =~= Seq::<u8>::empty());
        assert(s.drop_last() =~= Seq::<u8>::empty());
        assert(hex_of(s.drop_first()) =~= Seq::<char>::empty());
        assert(hex_of(s) =~= hex_of_byte(s[0]));
        assert(hex_of(s.drop_last()) + hex_of_byte(s.last()) =~= hex_of_byte(s[0]));
    } else {
        lemma_hex_of_concat_one(s.drop_first());
        assert(s.drop_first().drop_last() =~= s.drop_last().drop_first());
        assert(s.drop_first().last() == s.last());
        assert(s.drop_last()[0] == s[0]);
        assert(s.drop_last().len() > 0);
        assert(hex_of(s.drop_last()) == hex_of_byte(s[0]) + hex_of(s.drop_last().drop_first()));
        assert(hex_of(s) =~= hex_of(s.drop_last()) + hex_of_byte(s.last()));
    }
}

// ---------------------------------------------------------------------------
// Decimal rendering
// ---------------------------------------------------------------------------

/// Decimal digits of a non-negative integer, most significant first.
pub open spec fn dec_of(n: int) -> Seq<char>
    decreases n,
{
    if n < 10 {
        seq![hex_digit(n)]
    } else {
        dec_of(n / 10) + seq![hex_digit(n % 10)]
    }
}

/// Renders an index in decimal.
pub fn usize_to_string(n: usize) -> (r: String)
    ensures
        r@ == dec_of(n as int),
    decreases n,
{
    if n < 10 {
        let mut out = String::new();
        push_hex_digit(&mut out, n as u8);
        out
    } else {
        let mut out = usize_to_string(n / 10);
        push_hex_digit(&mut out, (n % 10) as u8);
        out
    }
}

/// Renders a u64 in decimal.
pub fn u64_to_string(n: u64) -> (r: String)
    ensures
        r@ == dec_of(n as int),
    decreases n,
{
    if n < 10 {
        let mut out = String::new();
        push_hex_digit(&mut out, n as u8);
        out
    } else {
        let mut out = u64_to_string(n / 10);
        push_hex_digit(&mut out, (n % 10) as u8);
        out
    }
}

// ---------------------------------------------------------------------------
// Byte vector equality
// ---------------------------------------------------------------------------

/// Compares two byte vectors for equality.
pub fn bytes_eq(a: &Vec<u8>, b: &Vec<u8>) -> (r: bool)
    ensures
        r == (a@ == b@),
{
    if a.len() != b.len() {
        proof {
            assert(a@.len() != b@.len());
        }
        return false;
    }
    let mut i: usize = 0;
    while i < a.len()
        invariant
            i <= a.len(),
            a@.len() == b@.len(),
            forall|j: int| 0 <= j < i ==> a@[j] == b@[j],
        decreases a.len() - i,
    {
        if a[i] != b[i] {
            return false;
        }
        i = i + 1;
    }
    proof {
        assert(a@ =~= b@);
    }
    true
}

/// Copies a byte vector.
pub fn clone_bytes(v: &Vec<u8>) -> (r: Vec<u8>)
    ensures
        r@ == v@,
{
    let mut out: Vec<u8> = Vec::new();
    let mut i: usize = 0;
    while i < v.len()
        invariant
            i <= v.len(),
            out@ == v@.take(i as int),
        decreases v.len() - i,
    {
        out.push(v[i]);
        proof {
            assert(out@ =~= v@.take(i + 1));
        }
        i = i + 1;
    }
    proof {
        assert(v@.take(v@.len() as int) =~= v@);
    }
    out
}


/// Compares two strings for equality.
pub fn str_eq(a: &String, b: &String) -> (r: bool)
    ensures
        r == (a@ == b@),
{
    a.eq(b)
}

} // verus!
