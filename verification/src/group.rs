//! Scalars and group elements of the Ristretto group, modeled by their
//! canonical byte encodings.
//!
//! A scalar is its canonical 32-byte little-endian encoding; its value is the
//! integer those bytes denote, always below the group order.  A group element
//! carries its canonical compressed encoding together with a ghost pair of
//! exponents `(a, b)` recording that the element is `g^a * h^b` for the two
//! Pedersen generators `g` and `h`.  All group arithmetic is delegated to
//! `curve25519_dalek_ng` through trusted wrappers whose contracts track the
//! exponents.

use crate::encoding::{le_bytes32_of, le_int_of, lemma_le_bytes32_roundtrip, pow256};
use sha2::Digest;
use vstd::prelude::*;

verus! {

/// The order of the Ristretto group: 2^252 + 27742317777372353535851937790883648493.
pub open spec fn group_order() -> int {
    7237005577332262213973186563042994240857116359379907606001950938285454250989int
}

/// The canonical compressed encoding of `g^a * h^b`, where `g` is the
/// Ristretto basepoint and `h` the default Pedersen blinding generator.
/// Left uninterpreted: the trusted wrappers below state which encodings
/// they return in terms of this function.
pub uninterp spec fn encode_of(a: int, b: int) -> Seq<u8>;

/// The SHA-256 digest of the UTF-8 bytes of a string.
pub uninterp spec fn sha256_of(s: Seq<char>) -> Seq<u8>;

/// Whether 32 bytes are a valid compressed Ristretto encoding, that is,
/// whether decompression succeeds on them.  Left uninterpreted: the
/// trusted wrappers below state which byte strings satisfy it.
pub uninterp spec fn is_point(b: Seq<u8>) -> bool;

/// A byte view that decompresses to a group element: 32 bytes forming a
/// valid compressed encoding.
pub open spec fn valid_point_encoding(b: Seq<u8>) -> bool {
    b.len() == 32 && is_point(b)
}

/// A scalar of the Ristretto group in canonical little-endian form.
pub struct GroupScalar {
    pub bytes: Vec<u8>,
}

impl GroupScalar {
    /// The integer value this scalar denotes.
    pub open spec fn val(&self) -> int {
        le_int_of(self.bytes@)
    }

    /// Canonical form: 32 bytes denoting a value below the group order.
    pub open spec fn wf(&self) -> bool {
        self.bytes@.len() == 32 && 0 <= self.val() < group_order()
    }
}

impl Clone for GroupScalar {
    fn clone(&self) -> (r: Self)
        ensures
            r.bytes@ == self.bytes@,
    {
        GroupScalar { bytes: crate::encoding::clone_bytes(&self.bytes) }
    }
}

/// An element of the Ristretto group in compressed form, with ghost
/// exponents over the two Pedersen generators.
pub struct GroupElement {
    pub bytes: Vec<u8>,
    pub exp: Ghost<(int, int)>,
}

impl GroupElement {
    /// The exponent of the basepoint `g`.
    pub open spec fn a(&self) -> int {
        self.exp@.0
    }

    /// The exponent of the blinding generator `h`.
    pub open spec fn b(&self) -> int {
        self.exp@.1
    }

    /// The bytes are the canonical encoding of `g^a * h^b`, with both
    /// exponents reduced mod the group order; a canonical encoding always
    /// decompresses.
    pub open spec fn wf(&self) -> bool {
        &&& 0 <= self.a() < group_order()
        &&& 0 <= self.b() < group_order()
        &&& self.bytes@ == encode_of(self.a(), self.b())
        &&& valid_point_encoding(self.bytes@)
    }
}

impl Clone for GroupElement {
    fn clone(&self) -> (r: Self)
        ensures
            r.bytes@ == self.bytes@,
            r.exp@ == self.exp@,
    {
        GroupElement { bytes: crate::encoding::clone_bytes(&self.bytes), exp: Ghost(self.exp@) }
    }
}

impl PartialEq for GroupElement {
    fn eq(&self, other: &Self) -> (r: bool) {
        crate::encoding::bytes_eq(&self.bytes, &other.bytes)
    }
}

impl vstd::std_specs::cmp::PartialEqSpecImpl for GroupElement {
    open spec fn obeys_eq_spec() -> bool {
        true
    }

    open spec fn eq_spec(&self, other: &Self) -> bool {
        self.bytes@ == other.bytes@
    }
}


/// Copies a list of group elements, preserving bytes and ghost exponents.
pub fn clone_elements(v: &Vec<GroupElement>) -> (r: Vec<GroupElement>)
    ensures
        r@.len() == v@.len(),
        forall|j: int|
            0 <= j < v@.len() ==> (#[trigger] r@[j]).bytes@ == v@[j].bytes@ && r@[j].exp@
                == v@[j].exp@,
{
    let mut out: Vec<GroupElement> = Vec::new();
    let mut i: usize = 0;
    while i < v.len()
        invariant
            i <= v@.len(),
            out@.len() == i,
            forall|j: int|
                0 <= j < i ==> (#[trigger] out@[j]).bytes@ == v@[j].bytes@ && out@[j].exp@
                    == v@[j].exp@,
        decreases v@.len() - i,
    {
        out.push(v[i].clone());
        i = i + 1;
    }
    out
}

// ---------------------------------------------------------------------------
// Trusted wrappers around curve25519_dalek_ng, bulletproofs generators and sha2
// ---------------------------------------------------------------------------

/// Relies on `curve25519_dalek_ng::scalar::Scalar::random`: a uniformly
/// random scalar, reduced mod the group order; `to_bytes` returns its
/// canonical little-endian encoding.  Nothing is promised of the value.
#[verifier::external_body]
fn ext_scalar_random() -> (r: GroupScalar)
    ensures
        r.wf(),
{
    let s = curve25519_dalek_ng::scalar::Scalar::random(&mut rand::rngs::OsRng);
    GroupScalar { bytes: s.to_bytes().to_vec() }
}

/// Relies on `curve25519_dalek_ng::scalar::Scalar`'s `+`: addition mod the
/// group order on canonical scalars, returned in canonical form.
#[verifier::external_body]
fn ext_scalar_add(a: &GroupScalar, b: &GroupScalar) -> (r: GroupScalar)
    requires
        a.wf(),
        b.wf(),
    ensures
        r.bytes@ == le_bytes32_of((a.val() + b.val()) % group_order()),
{
    let ab: [u8; 32] = a.bytes.as_slice().try_into().unwrap();
    let bb: [u8; 32] = b.bytes.as_slice().try_into().unwrap();
    let sa = curve25519_dalek_ng::scalar::Scalar::from_bytes_mod_order(ab);
    let sb = curve25519_dalek_ng::scalar::Scalar::from_bytes_mod_order(bb);
    GroupScalar { bytes: (sa + sb).to_bytes().to_vec() }
}

/// Relies on `curve25519_dalek_ng::scalar::Scalar`'s `*`: multiplication mod
/// the group order on canonical scalars, returned in canonical form.
#[verifier::external_body]
fn ext_scalar_mul(a: &GroupScalar, b: &GroupScalar) -> (r: GroupScalar)
    requires
        a.wf(),
        b.wf(),
    ensures
        r.bytes@ == le_bytes32_of((a.val() * b.val()) % group_order()),
{
    let ab: [u8; 32] = a.bytes.as_slice().try_into().unwrap();
    let bb: [u8; 32] = b.bytes.as_slice().try_into().unwrap();
    let sa = curve25519_dalek_ng::scalar::Scalar::from_bytes_mod_order(ab);
    let sb = curve25519_dalek_ng::scalar::Scalar::from_bytes_mod_order(bb);
    GroupScalar { bytes: (sa * sb).to_bytes().to_vec() }
}

/// Relies on `curve25519_dalek_ng::scalar::Scalar::from_bytes_mod_order`:
/// the little-endian value of the 32 bytes, reduced mod the group order,
/// in canonical form.
#[verifier::external_body]
fn ext_scalar_from_bytes(b: &Vec<u8>) -> (r: GroupScalar)
    requires
        b@.len() == 32,
    ensures
        r.bytes@ == le_bytes32_of(le_int_of(b@) % group_order()),
{
    let bb: [u8; 32] = b.as_slice().try_into().unwrap();
    let s = curve25519_dalek_ng::scalar::Scalar::from_bytes_mod_order(bb);
    GroupScalar { bytes: s.to_bytes().to_vec() }
}

/// Relies on `sha2::Sha256::digest`: the 32-byte SHA-256 digest of the
/// string's UTF-8 bytes, a function of the string alone.
#[verifier::external_body]
fn ext_sha256(s: &str) -> (r: Vec<u8>)
    ensures
        r@ == sha256_of(s@),
        r@.len() == 32,
{
    let hash = sha2::Sha256::digest(s.as_bytes());
    hash.to_vec()
}

/// Relies on `bulletproofs::PedersenGens::default`: `B` is the Ristretto
/// basepoint `g`; `compress` returns its canonical encoding.
#[verifier::external_body]
fn ext_basepoint_bytes() -> (r: Vec<u8>)
    ensures
        r@ == encode_of(1, 0),
        r@.len() == 32,
        is_point(r@),
{
    let g = bulletproofs::PedersenGens::default().B;
    g.compress().to_bytes().to_vec()
}

/// Relies on `curve25519_dalek_ng`'s `RistrettoPoint * Scalar` with
/// `bulletproofs::PedersenGens::default().B`: returns the canonical
/// encoding of `g^s`.
#[verifier::external_body]
fn ext_base_mul_bytes(s: &GroupScalar) -> (r: Vec<u8>)
    requires
        s.wf(),
    ensures
        r@ == encode_of(s.val(), 0),
        r@.len() == 32,
        is_point(r@),
{
    let sb: [u8; 32] = s.bytes.as_slice().try_into().unwrap();
    let sc = curve25519_dalek_ng::scalar::Scalar::from_bytes_mod_order(sb);
    let p = bulletproofs::PedersenGens::default().B * sc;
    p.compress().to_bytes().to_vec()
}

/// Relies on `curve25519_dalek_ng`'s `RistrettoPoint * Scalar` with
/// `bulletproofs::PedersenGens::default().B_blinding`: returns the
/// canonical encoding of `h^s`.
#[verifier::external_body]
fn ext_blind_mul_bytes(s: &GroupScalar) -> (r: Vec<u8>)
    requires
        s.wf(),
    ensures
        r@ == encode_of(0, s.val()),
        r@.len() == 32,
        is_point(r@),
{
    let sb: [u8; 32] = s.bytes.as_slice().try_into().unwrap();
    let sc = curve25519_dalek_ng::scalar::Scalar::from_bytes_mod_order(sb);
    let p = bulletproofs::PedersenGens::default().B_blinding * sc;
    p.compress().to_bytes().to_vec()
}

/// Relies on `curve25519_dalek_ng`'s point decompression and `* Scalar`:
/// `(g^a h^b)^s = g^(a*s) h^(b*s)`, compressed canonically.
#[verifier::external_body]
fn ext_point_mul_bytes(p: &GroupElement, s: &GroupScalar) -> (r: Vec<u8>)
    requires
        p.wf(),
        s.wf(),
    ensures
        r@ == encode_of((p.a() * s.val()) % group_order(), (p.b() * s.val()) % group_order()),
        r@.len() == 32,
        is_point(r@),
{
    let pt = curve25519_dalek_ng::ristretto::CompressedRistretto::from_slice(&p.bytes)
        .decompress()
        .unwrap();
    let sb: [u8; 32] = s.bytes.as_slice().try_into().unwrap();
    let sc = curve25519_dalek_ng::scalar::Scalar::from_bytes_mod_order(sb);
    (pt * sc).compress().to_bytes().to_vec()
}

/// Relies on `curve25519_dalek_ng`'s point addition:
/// `(g^a1 h^b1) + (g^a2 h^b2) = g^(a1+a2) h^(b1+b2)`, compressed canonically.
#[verifier::external_body]
fn ext_point_add_bytes(p: &GroupElement, q: &GroupElement) -> (r: Vec<u8>)
    requires
        p.wf(),
        q.wf(),
    ensures
        r@ == encode_of((p.a() + q.a()) % group_order(), (p.b() + q.b()) % group_order()),
        r@.len() == 32,
        is_point(r@),
{
    let pp = curve25519_dalek_ng::ristretto::CompressedRistretto::from_slice(&p.bytes)
        .decompress()
        .unwrap();
    let qq = curve25519_dalek_ng::ristretto::CompressedRistretto::from_slice(&q.bytes)
        .decompress()
        .unwrap();
    (pp + qq).compress().to_bytes().to_vec()
}

/// Relies on `curve25519_dalek_ng`'s point subtraction:
/// `(g^a1 h^b1) - (g^a2 h^b2) = g^(a1-a2) h^(b1-b2)`, compressed canonically.
#[verifier::external_body]
fn ext_point_sub_bytes(p: &GroupElement, q: &GroupElement) -> (r: Vec<u8>)
    requires
        p.wf(),
        q.wf(),
    ensures
        r@ == encode_of((p.a() - q.a()) % group_order(), (p.b() - q.b()) % group_order()),
        r@.len() == 32,
        is_point(r@),
{
    let pp = curve25519_dalek_ng::ristretto::CompressedRistretto::from_slice(&p.bytes)
        .decompress()
        .unwrap();
    let qq = curve25519_dalek_ng::ristretto::CompressedRistretto::from_slice(&q.bytes)
        .decompress()
        .unwrap();
    (pp - qq).compress().to_bytes().to_vec()
}

/// Relies on `curve25519_dalek_ng::ristretto::CompressedRistretto::decompress`:
/// it succeeds exactly on the valid compressed encodings.
#[verifier::external_body]
fn ext_point_is_valid(b: &Vec<u8>) -> (r: bool)
    requires
        b@.len() == 32,
    ensures
        r == is_point(b@),
{
    curve25519_dalek_ng::ristretto::CompressedRistretto::from_slice(b).decompress().is_some()
}

// ---------------------------------------------------------------------------
// Public group API
// ---------------------------------------------------------------------------

proof fn lemma_pow256_32_value()
    ensures
        pow256(32) == 0x10000000000000000000000000000000000000000000000000000000000000000int,
{
    reveal_with_fuel(pow256, 33);
}

proof fn lemma_u64_scalar(u: u64)
    ensures
        le_int_of(le_bytes32_of(u as int)) == u as int,
        u < group_order(),
{
    lemma_pow256_32_value();
    lemma_le_bytes32_roundtrip(u as int);
}

/// Exposes the roundtrip between a reduced value and its canonical bytes.
pub proof fn lemma_scalar_bytes_val(v: int)
    requires
        0 <= v < group_order(),
    ensures
        le_int_of(le_bytes32_of(v)) == v,
{
    lemma_pow256_32_value();
    lemma_le_bytes32_roundtrip(v);
}

/// Draws a fresh uniformly random scalar.
pub fn scalar_random() -> (r: GroupScalar)
    ensures
        r.wf(),
{
    ext_scalar_random()
}

/// The scalar with value `u`.
pub fn scalar_from_u64(u: u64) -> (r: GroupScalar)
    ensures
        r.wf(),
        r.val() == u as int,
        r.bytes@ == le_bytes32_of(u as int),
{
    let bytes = crate::encoding::le_bytes32_from_u64(u);
    proof {
        lemma_u64_scalar(u);
    }
    GroupScalar { bytes }
}

/// Scalar addition mod the group order.
pub fn scalar_add(a: &GroupScalar, b: &GroupScalar) -> (r: GroupScalar)
    requires
        a.wf(),
        b.wf(),
    ensures
        r.wf(),
        r.val() == (a.val() + b.val()) % group_order(),
        r.bytes@ == le_bytes32_of((a.val() + b.val()) % group_order()),
{
    let r = ext_scalar_add(a, b);
    proof {
        lemma_scalar_bytes_val((a.val() + b.val()) % group_order());
    }
    r
}

/// Scalar multiplication mod the group order.
pub fn scalar_mul(a: &GroupScalar, b: &GroupScalar) -> (r: GroupScalar)
    requires
        a.wf(),
        b.wf(),
    ensures
        r.wf(),
        r.val() == (a.val() * b.val()) % group_order(),
        r.bytes@ == le_bytes32_of((a.val() * b.val()) % group_order()),
{
    let r = ext_scalar_mul(a, b);
    proof {
        lemma_scalar_bytes_val((a.val() * b.val()) % group_order());
    }
    r
}

/// The value of a hash digest, reduced mod the group order, as a scalar.
pub fn scalar_from_bytes(b: &Vec<u8>) -> (r: GroupScalar)
    requires
        b@.len() == 32,
    ensures
        r.wf(),
        r.val() == le_int_of(b@) % group_order(),
        r.bytes@ == le_bytes32_of(le_int_of(b@) % group_order()),
{
    let r = ext_scalar_from_bytes(b);
    proof {
        lemma_scalar_bytes_val(le_int_of(b@) % group_order());
    }
    r
}

/// The SHA-256 digest of a string.
pub fn sha256_string(s: &str) -> (r: Vec<u8>)
    ensures
        r@ == sha256_of(s@),
        r@.len() == 32,
{
    ext_sha256(s)
}

/// Whether a byte vector is a valid compressed point encoding.
pub fn point_bytes_valid(b: &Vec<u8>) -> (r: bool)
    requires
        b@.len() == 32,
    ensures
        r == is_point(b@),
{
    ext_point_is_valid(b)
}

/// The Ristretto basepoint `g`.
pub fn basepoint() -> (r: GroupElement)
    ensures
        r.wf(),
        r.exp@ == (1int, 0int),
{
    let bytes = ext_basepoint_bytes();
    GroupElement { bytes, exp: Ghost((1int, 0int)) }
}

/// `g^s` for the basepoint `g`.
pub fn base_mul(s: &GroupScalar) -> (r: GroupElement)
    requires
        s.wf(),
    ensures
        r.wf(),
        r.exp@ == (s.val(), 0int),
{
    let bytes = ext_base_mul_bytes(s);
    GroupElement { bytes, exp: Ghost((s.val(), 0int)) }
}

/// `h^s` for the blinding generator `h`.
pub fn blind_mul(s: &GroupScalar) -> (r: GroupElement)
    requires
        s.wf(),
    ensures
        r.wf(),
        r.exp@ == (0int, s.val()),
{
    let bytes = ext_blind_mul_bytes(s);
    GroupElement { bytes, exp: Ghost((0int, s.val())) }
}

/// `p^s`.
pub fn point_mul(p: &GroupElement, s: &GroupScalar) -> (r: GroupElement)
    requires
        p.wf(),
        s.wf(),
    ensures
        r.wf(),
        r.exp@ == ((p.a() * s.val()) % group_order(), (p.b() * s.val()) % group_order()),
{
    let bytes = ext_point_mul_bytes(p, s);
    proof {
        lemma_mod_range(p.a() * s.val());
        lemma_mod_range(p.b() * s.val());
    }
    GroupElement {
        bytes,
        exp: Ghost(((p.a() * s.val()) % group_order(), (p.b() * s.val()) % group_order())),
    }
}

/// The group product `p * q`, written additively by the curve library.
pub fn point_add(p: &GroupElement, q: &GroupElement) -> (r: GroupElement)
    requires
        p.wf(),
        q.wf(),
    ensures
        r.wf(),
        r.exp@ == ((p.a() + q.a()) % group_order(), (p.b() + q.b()) % group_order()),
{
    let bytes = ext_point_add_bytes(p, q);
    proof {
        lemma_mod_range(p.a() + q.a());
        lemma_mod_range(p.b() + q.b());
    }
    GroupElement {
        bytes,
        exp: Ghost(((p.a() + q.a()) % group_order(), (p.b() + q.b()) % group_order())),
    }
}

/// The group quotient `p / q`, written subtractively by the curve library.
pub fn point_sub(p: &GroupElement, q: &GroupElement) -> (r: GroupElement)
    requires
        p.wf(),
        q.wf(),
    ensures
        r.wf(),
        r.exp@ == ((p.a() - q.a()) % group_order(), (p.b() - q.b()) % group_order()),
{
    let bytes = ext_point_sub_bytes(p, q);
    proof {
        lemma_mod_range(p.a() - q.a());
        lemma_mod_range(p.b() - q.b());
    }
    GroupElement {
        bytes,
        exp: Ghost(((p.a() - q.a()) % group_order(), (p.b() - q.b()) % group_order())),
    }
}

/// Any value reduced mod the group order lies in `[0, group_order)`.
pub proof fn lemma_mod_range(x: int)
    ensures
        0 <= x % group_order() < group_order(),
{
    vstd::arithmetic::div_mod::lemma_mod_bound(x, group_order());
}

} // verus!
