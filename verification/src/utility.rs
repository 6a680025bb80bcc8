//! Field and group utilities: canonical encodings, hash-to-scalar, the
//! valid upperbounds, and adjacent-index lookup with wrap-around.

use crate::encoding::{be_int_of, hex_of, le_bytes32_of, le_int_of, lemma_le_int_bit};
use crate::errors::WakeError;
use crate::fp::{fp_add, fp_from_be_bytes, fp_modulus, fp_mul, FpElement};
use crate::group::{
    group_order, scalar_from_bytes, sha256_of, sha256_string, GroupElement, GroupScalar,
};
use vstd::arithmetic::power2::pow2;
use vstd::prelude::*;

verus! {

/// The upperbound is one of 2^8-1, 2^16-1, 2^32-1, 2^64-1.
pub open spec fn valid_upperbound(upperbound: u64) -> bool {
    ||| upperbound == 0xff
    ||| upperbound == 0xffff
    ||| upperbound == 0xffffffff
    ||| upperbound == 0xffffffffffffffff
}

/// The bit size that a valid upperbound spans.
pub open spec fn upperbound_log_spec(upperbound: u64) -> int {
    if upperbound == 0xffffffffffffffff {
        64
    } else if upperbound == 0xffffffff {
        32
    } else if upperbound == 0xffff {
        16
    } else {
        8
    }
}

/// Computes the logarithm of an upperbound among the valid inputs
/// 2^8-1, 2^16-1, 2^32-1 and 2^64-1.
pub fn upperbound_log(upperbound: u64) -> (r: Result<usize, WakeError>)
    ensures
        r is Ok <==> valid_upperbound(upperbound),
        r is Ok ==> r->Ok_0 == upperbound_log_spec(upperbound),
        r is Err ==> r->Err_0 is UpperboundLog,
{
    let u32_max = u32::MAX as u64;
    let u16_max = u16::MAX as u64;
    let u8_max = u8::MAX as u64;
    if upperbound == u64::MAX {
        Ok(64)
    } else if upperbound == u32_max {
        Ok(32)
    } else if upperbound == u16_max {
        Ok(16)
    } else if upperbound == u8_max {
        Ok(8)
    } else {
        Err(WakeError::UpperboundLog)
    }
}

/// `(i - 1) mod len`.
pub open spec fn prev_idx_spec(idx: int, len: int) -> int {
    if idx == 0 {
        len - 1
    } else {
        idx - 1
    }
}

/// `(i + 1) mod len`.
pub open spec fn next_idx_spec(idx: int, len: int) -> int {
    if idx == len - 1 {
        0
    } else {
        idx + 1
    }
}

/// Finds the previous index of a list, with loop-around.
pub fn find_prev_idx(idx: usize, len: usize) -> (r: usize)
    requires
        len >= 1,
        idx < len,
    ensures
        r == prev_idx_spec(idx as int, len as int),
        r < len,
{
    if idx == 0 {
        len - 1
    } else {
        idx - 1
    }
}

/// Gets the two adjacent elements of a list of group elements, with
/// wrap-around at both ends.
pub fn get_adjacent_elements(z_list: &Vec<GroupElement>, idx: usize) -> (r: (
    GroupElement,
    GroupElement,
))
    requires
        z_list@.len() >= 2,
        idx < z_list@.len(),
    ensures
        r.0.bytes@ == z_list@[prev_idx_spec(idx as int, z_list@.len() as int)].bytes@,
        r.0.exp@ == z_list@[prev_idx_spec(idx as int, z_list@.len() as int)].exp@,
        r.1.bytes@ == z_list@[next_idx_spec(idx as int, z_list@.len() as int)].bytes@,
        r.1.exp@ == z_list@[next_idx_spec(idx as int, z_list@.len() as int)].exp@,
{
    let len = z_list.len();
    if idx == 0 {
        (z_list[len - 1].clone(), z_list[1].clone())
    } else if idx == len - 1 {
        (z_list[len - 2].clone(), z_list[0].clone())
    } else {
        (z_list[idx - 1].clone(), z_list[idx + 1].clone())
    }
}

/// Converts a group element to its lowercase hex string.
pub fn ristretto_to_string(point: &GroupElement) -> (r: String)
    ensures
        r@ == hex_of(point.bytes@),
{
    compressed_ristretto_to_string(point)
}

/// Converts a group element held in compressed form to its lowercase hex
/// string.
pub fn compressed_ristretto_to_string(compressed_point: &GroupElement) -> (r: String)
    ensures
        r@ == hex_of(compressed_point.bytes@),
{
    crate::encoding::hex_string(&compressed_point.bytes)
}

/// Converts a scalar to the lowercase hex string of its canonical
/// little-endian encoding.
pub fn scalar_to_string(scalar: &GroupScalar) -> (r: String)
    ensures
        r@ == hex_of(scalar.bytes@),
{
    crate::encoding::hex_string(&scalar.bytes)
}

/// Hashes a string to a 32-byte digest.
pub fn hash_string(input_string: &str) -> (r: Vec<u8>)
    ensures
        r@ == sha256_of(input_string@),
        r@.len() == 32,
{
    sha256_string(input_string)
}

/// The scalar a string hashes to.
pub open spec fn hash_scalar_val(s: Seq<char>) -> int {
    le_int_of(sha256_of(s)) % group_order()
}

/// Hashes a string to a scalar: SHA-256, then reduction mod the group order.
pub fn hash_string_to_scalar(s: String) -> (r: GroupScalar)
    ensures
        r.wf(),
        r.val() == hash_scalar_val(s@),
        r.bytes@ == le_bytes32_of(hash_scalar_val(s@)),
{
    let digest = sha256_string(s.as_str());
    scalar_from_bytes(&digest)
}


/// The field element a string hashes to: SHA-256 interpreted big-endian,
/// reduced mod the field modulus.
pub open spec fn hash_fp_val(s: Seq<char>) -> int {
    be_int_of(sha256_of(s)) % fp_modulus()
}

/// Hashes a string to a BLS12-377 scalar field element.
pub fn hash_string_to_fr(input_str: String) -> (r: FpElement)
    ensures
        r.wf(),
        r.val() == hash_fp_val(input_str@),
{
    let hash = sha256_string(input_str.as_str());
    fp_from_be_bytes(&hash)
}

/// The values of a list of field elements.
pub open spec fn fp_vals(cs: Seq<FpElement>) -> Seq<int> {
    Seq::new(cs.len(), |j: int| cs[j].val())
}

/// One MiMC-Feistel round on state `(v, r)` with round constant `c`:
/// the new state is `(r + (v + c)^3, v)`, all mod the field modulus.
pub open spec fn mimc_round_val(v: int, r: int, c: int) -> int {
    let q = fp_modulus();
    let t = (v + c) % q;
    ((t * t) % q * t % q + r) % q
}

/// The final `v` after running MiMC-Feistel from round `i` on.
pub open spec fn mimc_from(v: int, r: int, cs: Seq<int>, i: int) -> int
    decreases cs.len() - i,
{
    if i < 0 || i >= cs.len() {
        v
    } else {
        mimc_from(mimc_round_val(v, r, cs[i]), v, cs, i + 1)
    }
}

/// The MiMC-Feistel image of `(v, r)` under the given round constants.
pub open spec fn mimc_spec(v: int, r: int, cs: Seq<int>) -> int {
    mimc_from(v, r, cs, 0)
}

/// Runs the MiMC-Feistel permutation: per round, `(v, r)` becomes
/// `(r + (v + c_i)^3, v)`; the image is the final `v`.
pub fn mimc(v: FpElement, r: FpElement, constants: &Vec<FpElement>) -> (image: FpElement)
    requires
        v.wf(),
        r.wf(),
        forall|j: int| 0 <= j < constants@.len() ==> (#[trigger] constants@[j]).wf(),
    ensures
        image.wf(),
        image.val() == mimc_spec(v.val(), r.val(), fp_vals(constants@)),
{
    let ghost cs = fp_vals(constants@);
    let ghost v0 = v.val();
    let ghost r0 = r.val();
    let mimc_rounds = constants.len();
    let mut v = v;
    let mut r = r;
    let mut i: usize = 0;
    while i < mimc_rounds
        invariant
            mimc_rounds == constants@.len(),
            i <= mimc_rounds,
            cs == fp_vals(constants@),
            forall|j: int| 0 <= j < constants@.len() ==> (#[trigger] constants@[j]).wf(),
            v.wf(),
            r.wf(),
            mimc_from(v.val(), r.val(), cs, i as int) == mimc_spec(v0, r0, cs),
        decreases mimc_rounds - i,
    {
        let tmp1 = fp_add(&v, &constants[i]);
        let tmp2 = fp_mul(&tmp1, &tmp1);
        let tmp3 = fp_mul(&tmp2, &tmp1);
        let tmp4 = fp_add(&tmp3, &r);
        proof {
            assert(tmp4.val() == mimc_round_val(v.val(), r.val(), cs[i as int]));
        }
        r = v;
        v = tmp4;
        i = i + 1;
    }
    v
}

/// The least-significant 64 bits of the canonical representative of a
/// field element, least-significant bit first.
pub fn fr_to_bits(v: &FpElement) -> (bits: Vec<bool>)
    requires
        v.wf(),
    ensures
        bits@.len() == 64,
        forall|i: int|
            0 <= i < 64 ==> bits@[i] == ((v.val() / (pow2(i as nat) as int)) % 2 == 1),
{
    let mut bits: Vec<bool> = Vec::new();
    let mut k: usize = 0;
    while k < 8
        invariant
            k <= 8,
            v.wf(),
            bits@.len() == 8 * k,
            forall|i: int|
                0 <= i < 8 * k ==> bits@[i] == ((v.val() / (pow2(i as nat) as int)) % 2 == 1),
        decreases 8 - k,
    {
        let mut b = v.bytes[k];
        let ghost b0 = b;
        proof {
            vstd::arithmetic::power2::lemma2_to64();
        }
        let mut t: usize = 0;
        while t < 8
            invariant
                t <= 8,
                k < 8,
                v.wf(),
                b as int == b0 as int / (pow2(t as nat) as int),
                b0 == v.bytes@[k as int],
                bits@.len() == 8 * k + t,
                forall|i: int|
                    0 <= i < 8 * k ==> bits@[i] == ((v.val() / (pow2(i as nat) as int)) % 2
                        == 1),
                forall|i: int|
                    8 * k <= i < 8 * k + t ==> bits@[i] == ((v.val() / (pow2(i as nat) as int))
                        % 2 == 1),
            decreases 8 - t,
        {
            let bit = b % 2 == 1;
            proof {
                let i = 8 * k + t;
                lemma_le_int_bit(v.bytes@, i as int);
                assert(i as int / 8 == k as int && i as int % 8 == t as int);
                assert((v.val() / (pow2(i as nat) as int)) % 2 == ((v.bytes@[k as int] as int)
                    / (pow2(t as nat) as int)) % 2);
                lemma_byte_shift(b0, t as nat);
            }
            bits.push(bit);
            b = b / 2;
            t = t + 1;
        }
        k = k + 1;
    }
    bits
}

proof fn lemma_byte_shift(b: u8, t: nat)
    requires
        t < 8,
    ensures
        (b as int / (pow2(t) as int)) / 2 == b as int / (pow2((t + 1) as nat) as int),
        pow2(t) as int >= 1,
{
    vstd::arithmetic::power2::lemma_pow2_pos(t);
    vstd::arithmetic::power2::lemma_pow2_adds(t, 1);
    assert(pow2(1) == 2) by {
        vstd::arithmetic::power2::lemma2_to64();
    }
    vstd::arithmetic::div_mod::lemma_div_denominator(b as int, pow2(t) as int, 2);
}

} // verus!
