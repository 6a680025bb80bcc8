//! Elements of the BLS12-377 scalar field, modeled by the canonical
//! little-endian byte encoding of their representative in `[0, p)`.
//! Field arithmetic is delegated to `ark_ff` through trusted wrappers.

use crate::encoding::{be_int_of, le_bytes32_of, le_int_of, lemma_le_bytes32_roundtrip, pow256};
use ark_ff::{BigInteger, PrimeField};
use rand::Rng;
use vstd::prelude::*;

verus! {

/// The BLS12-377 scalar field modulus.
pub open spec fn fp_modulus() -> int {
    8444461749428370424248824938781546531375899335154063827935233455917409239041int
}

/// An element of the BLS12-377 scalar field in canonical little-endian form.
pub struct FpElement {
    pub bytes: Vec<u8>,
}

impl FpElement {
    /// The canonical representative this element denotes.
    pub open spec fn val(&self) -> int {
        le_int_of(self.bytes@)
    }

    /// Canonical form: 32 bytes denoting a value below the modulus.
    pub open spec fn wf(&self) -> bool {
        self.bytes@.len() == 32 && 0 <= self.val() < fp_modulus()
    }
}

impl Clone for FpElement {
    fn clone(&self) -> (r: Self)
        ensures
            r.bytes@ == self.bytes@,
    {
        FpElement { bytes: crate::encoding::clone_bytes(&self.bytes) }
    }
}

proof fn lemma_fp_bytes_val(v: int)
    requires
        0 <= v < fp_modulus(),
    ensures
        le_int_of(le_bytes32_of(v)) == v,
{
    assert(pow256(32) == 0x10000000000000000000000000000000000000000000000000000000000000000int)
        by {
        reveal_with_fuel(pow256, 33);
    }
    lemma_le_bytes32_roundtrip(v);
}

// ---------------------------------------------------------------------------
// Trusted wrappers around ark_ff field arithmetic
// ---------------------------------------------------------------------------

/// Relies on `rand::Rng::gen` with `ark_bls12_377::Fr`: a uniformly random
/// field element; `into_repr().to_bytes_le()` yields its canonical 32-byte
/// little-endian encoding.  Nothing is promised of the value.
#[verifier::external_body]
fn ext_fp_random() -> (r: FpElement)
    ensures
        r.wf(),
{
    let f: ark_bls12_377::Fr = rand::rngs::OsRng.gen();
    FpElement { bytes: f.into_repr().to_bytes_le() }
}

/// Relies on `ark_ff`'s field addition for `Fr`: addition mod the field
/// modulus on canonical elements, returned in canonical form.
#[verifier::external_body]
fn ext_fp_add(a: &FpElement, b: &FpElement) -> (r: FpElement)
    requires
        a.wf(),
        b.wf(),
    ensures
        r.bytes@ == le_bytes32_of((a.val() + b.val()) % fp_modulus()),
{
    let fa = ark_bls12_377::Fr::from_le_bytes_mod_order(&a.bytes);
    let fb = ark_bls12_377::Fr::from_le_bytes_mod_order(&b.bytes);
    FpElement { bytes: (fa + fb).into_repr().to_bytes_le() }
}

/// Relies on `ark_ff`'s field multiplication for `Fr`: multiplication mod
/// the field modulus on canonical elements, returned in canonical form.
#[verifier::external_body]
fn ext_fp_mul(a: &FpElement, b: &FpElement) -> (r: FpElement)
    requires
        a.wf(),
        b.wf(),
    ensures
        r.bytes@ == le_bytes32_of((a.val() * b.val()) % fp_modulus()),
{
    let fa = ark_bls12_377::Fr::from_le_bytes_mod_order(&a.bytes);
    let fb = ark_bls12_377::Fr::from_le_bytes_mod_order(&b.bytes);
    FpElement { bytes: (fa * fb).into_repr().to_bytes_le() }
}

/// Relies on `ark_ff::PrimeField::from_be_bytes_mod_order` for `Fr`: the
/// big-endian value of the bytes, reduced mod the field modulus, in
/// canonical form; the reduction is of the whole big-endian value, for
/// byte strings of any length.
#[verifier::external_body]
fn ext_fp_from_be_bytes(b: &Vec<u8>) -> (r: FpElement)
    ensures
        r.bytes@ == le_bytes32_of(be_int_of(b@) % fp_modulus()),
{
    let f = ark_bls12_377::Fr::from_be_bytes_mod_order(b);
    FpElement { bytes: f.into_repr().to_bytes_le() }
}

// ---------------------------------------------------------------------------
// Public field API
// ---------------------------------------------------------------------------

/// Draws a fresh uniformly random field element.
pub fn fp_random() -> (r: FpElement)
    ensures
        r.wf(),
{
    ext_fp_random()
}

/// The field element with value `u`.
pub fn fp_from_u64(u: u64) -> (r: FpElement)
    ensures
        r.wf(),
        r.val() == u as int,
{
    let bytes = crate::encoding::le_bytes32_from_u64(u);
    proof {
        lemma_fp_bytes_val(u as int);
    }
    FpElement { bytes }
}

/// Field addition mod the modulus.
pub fn fp_add(a: &FpElement, b: &FpElement) -> (r: FpElement)
    requires
        a.wf(),
        b.wf(),
    ensures
        r.wf(),
        r.val() == (a.val() + b.val()) % fp_modulus(),
{
    let r = ext_fp_add(a, b);
    proof {
        vstd::arithmetic::div_mod::lemma_mod_bound(a.val() + b.val(), fp_modulus());
        lemma_fp_bytes_val((a.val() + b.val()) % fp_modulus());
    }
    r
}

/// Field multiplication mod the modulus.
pub fn fp_mul(a: &FpElement, b: &FpElement) -> (r: FpElement)
    requires
        a.wf(),
        b.wf(),
    ensures
        r.wf(),
        r.val() == (a.val() * b.val()) % fp_modulus(),
{
    let r = ext_fp_mul(a, b);
    proof {
        vstd::arithmetic::div_mod::lemma_mod_bound(a.val() * b.val(), fp_modulus());
        lemma_fp_bytes_val((a.val() * b.val()) % fp_modulus());
    }
    r
}

/// The big-endian value of a digest, reduced mod the modulus, as a field
/// element.
pub fn fp_from_be_bytes(b: &Vec<u8>) -> (r: FpElement)
    ensures
        r.wf(),
        r.val() == be_int_of(b@) % fp_modulus(),
{
    let r = ext_fp_from_be_bytes(b);
    proof {
        vstd::arithmetic::div_mod::lemma_mod_bound(be_int_of(b@), fp_modulus());
        lemma_fp_bytes_val(be_int_of(b@) % fp_modulus());
    }
    r
}

} // verus!
