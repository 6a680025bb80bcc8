//! The verified core of the GM17 darkpool proof system: the MiMC round
//! constants and bit size, the public images `MiMC(upperbound - (balance -
//! min_bal), blinding)` every party commits to, and the per-message checks
//! of the GM17-backed protocols.
//!
//! Drawing the common reference string, proving and verifying the SNARK
//! itself go through `ark_gm17`'s constraint synthesis, which lives outside
//! the verified library; the functions here state everything the
//! surrounding driver decides.

use crate::compiler_bp_wake::CompMessage;
use crate::errors::WakeError;
use crate::fp::{fp_random, fp_from_u64, FpElement};
use crate::optimized_bp_wake::OptimizedMessage;
use crate::session::{Nonces, VK};
use crate::utility::{
    fp_vals, mimc, mimc_spec, upperbound_log, upperbound_log_spec, valid_upperbound,
};
use vstd::prelude::*;

verus! {

/// The fixed number of MiMC-Feistel rounds.
pub const MIMC_ROUNDS: usize = 322;

/// Holds the public parameters of the GM17 darkpool relation: the MiMC
/// round constants and the bit size of the valid balance range.
pub struct Gm17Darkpool {
    pub mimc_constants: Vec<FpElement>,
    pub upperbound: usize,
}

impl Gm17Darkpool {
    /// The constants table has the fixed number of well-formed entries and
    /// the bit size is one of the valid ones.
    pub open spec fn wf(&self) -> bool {
        &&& self.mimc_constants@.len() == MIMC_ROUNDS
        &&& forall|j: int|
            0 <= j < self.mimc_constants@.len() ==> (#[trigger] self.mimc_constants@[j]).wf()
        &&& (self.upperbound == 8 || self.upperbound == 16 || self.upperbound == 32
            || self.upperbound == 64)
    }

    /// Validates the upperbound and draws fresh random MiMC round
    /// constants.
    pub fn new(upperbound: usize) -> (res: Result<Gm17Darkpool, WakeError>)
        ensures
            res is Ok <==> valid_upperbound(upperbound as u64),
            res is Err ==> res->Err_0 is UpperboundLog,
            res is Ok ==> res->Ok_0.wf() && res->Ok_0.upperbound == upperbound_log_spec(
                upperbound as u64,
            ),
    {
        let upperbound_exp = match upperbound_log(upperbound as u64) {
            Ok(e) => e,
            Err(e) => {
                return Err(e);
            },
        };

        let mut mimc_constants: Vec<FpElement> = Vec::new();
        let mut i: usize = 0;
        while i < MIMC_ROUNDS
            invariant
                i <= MIMC_ROUNDS,
                mimc_constants@.len() == i,
                forall|j: int| 0 <= j < i ==> (#[trigger] mimc_constants@[j]).wf(),
            decreases MIMC_ROUNDS - i,
        {
            mimc_constants.push(fp_random());
            i = i + 1;
        }
        Ok(Gm17Darkpool { mimc_constants, upperbound: upperbound_exp })
    }
}

/// The inputs on which the GM17 protocols owe a key exchange.
pub open spec fn valid_inputs(
    party_amount: usize,
    min_bal: u64,
    balances: Seq<u64>,
    upperbound: u64,
) -> bool {
    &&& balances.len() == party_amount
    &&& valid_upperbound(upperbound)
    &&& forall|j: int| 0 <= j < balances.len() ==> balances[j] >= min_bal
}

/// Validates the session inputs and computes each party's public MiMC
/// image `MiMC(upperbound - (balance_j - min_bal), blinding_j)` together
/// with the fresh blindings, in the order the protocols check them.
pub fn gm17_setup_images(
    constants: &Vec<FpElement>,
    party_amount: usize,
    min_bal: u64,
    balances: &Vec<u64>,
    upperbound: u64,
) -> (res: Result<(Vec<FpElement>, Vec<FpElement>), WakeError>)
    requires
        forall|j: int| 0 <= j < constants@.len() ==> (#[trigger] constants@[j]).wf(),
        valid_upperbound(upperbound) ==> forall|j: int|
            0 <= j < balances@.len() && balances@[j] >= min_bal ==> balances@[j] <= upperbound,
    ensures
        res is Ok <==> valid_inputs(party_amount, min_bal, balances@, upperbound),
        res is Err ==> (res->Err_0 is BalanceLength <==> balances@.len() != party_amount),
        res is Err && balances@.len() == party_amount ==> (res->Err_0 == (
        WakeError::InvalidUpperbound { upperbound }) <==> !valid_upperbound(upperbound)),
        res is Err && balances@.len() == party_amount && valid_upperbound(upperbound)
            ==> res->Err_0 is BalanceBelowMin,
        res is Ok ==> {
            let (images, blindings) = res->Ok_0;
            &&& images@.len() == party_amount
            &&& blindings@.len() == party_amount
            &&& forall|j: int|
                0 <= j < party_amount ==> (#[trigger] blindings@[j]).wf() && images@[j].wf()
                    && images@[j].val() == mimc_spec(
                    upperbound - (balances@[j] - min_bal),
                    blindings@[j].val(),
                    fp_vals(constants@),
                )
        },
{
    if balances.len() != party_amount {
        return Err(WakeError::BalanceLength);
    }
    if upperbound != u8::MAX as u64 && upperbound != u16::MAX as u64 && upperbound != u32::MAX
        as u64 && upperbound != u64::MAX {
        return Err(WakeError::InvalidUpperbound { upperbound });
    }

    let mut images: Vec<FpElement> = Vec::new();
    let mut blindings: Vec<FpElement> = Vec::new();
    let mut i: usize = 0;
    while i < party_amount
        invariant
            i <= party_amount,
            balances@.len() == party_amount,
            valid_upperbound(upperbound),
            forall|j: int| 0 <= j < constants@.len() ==> (#[trigger] constants@[j]).wf(),
            forall|j: int|
                0 <= j < balances@.len() && balances@[j] >= min_bal ==> balances@[j] <= upperbound,
            images@.len() == i,
            blindings@.len() == i,
            forall|j: int| 0 <= j < i ==> balances@[j] >= min_bal,
            forall|j: int|
                0 <= j < i ==> (#[trigger] blindings@[j]).wf() && images@[j].wf()
                    && images@[j].val() == mimc_spec(
                    upperbound - (balances@[j] - min_bal),
                    blindings@[j].val(),
                    fp_vals(constants@),
                ),
        decreases party_amount - i,
    {
        if balances[i] < min_bal {
            return Err(WakeError::BalanceBelowMin);
        }
        let r = fp_random();
        let v = fp_from_u64(upperbound - (balances[i] - min_bal));
        let image = mimc(v, r.clone(), constants);
        images.push(image);
        blindings.push(r);
        i = i + 1;
    }
    Ok((images, blindings))
}

/// The length gate of a receive step: a received round must hold one entry
/// per party.
pub fn round_length_check(n_entries: usize, n_parties: usize) -> (res: Result<(), WakeError>)
    ensures
        res is Ok <==> n_entries == n_parties,
        res is Err ==> res->Err_0 == (WakeError::InvalidLength {
            expected: n_entries,
            found: n_parties,
        }),
{
    if n_parties != n_entries {
        return Err(WakeError::InvalidLength { expected: n_entries, found: n_parties });
    }
    Ok(())
}

/// Checks the metadata of a received compiler message: the expected round
/// index first, then strict equality of the nonce table strings.
pub fn compiler_message_meta_check(
    msg: &CompMessage,
    expected_round: usize,
    local_nonces: &Nonces,
) -> (res: Result<(), WakeError>)
    requires
        msg.nonces.wf(),
        local_nonces.wf(),
    ensures
        res is Ok <==> (msg.round_idx == expected_round && msg.nonces.str_spec()
            == local_nonces.str_spec()),
        msg.round_idx != expected_round ==> res == Err::<(), WakeError>(
            WakeError::WrongRoundNumber { found: msg.round_idx },
        ),
        res is Err && msg.round_idx == expected_round ==> res->Err_0 is InvalidNonces,
{
    if msg.round_idx != expected_round {
        return Err(WakeError::WrongRoundNumber { found: msg.round_idx });
    }
    let msg_nonces_string = msg.nonces.to_string();
    let local_nonces_string = local_nonces.to_string();
    if !crate::encoding::str_eq(&msg_nonces_string, &local_nonces_string) {
        return Err(WakeError::InvalidNonces);
    }
    Ok(())
}

/// Checks the session table of a received optimized message: strict
/// equality of the ephemeral table strings.
pub fn optimized_message_vk_check(msg: &OptimizedMessage, local_vk: &VK) -> (res: Result<
    (),
    WakeError,
>)
    requires
        msg.vk.wf(),
        local_vk.wf(),
    ensures
        res is Ok <==> msg.vk.str_spec() == local_vk.str_spec(),
        res is Err ==> res->Err_0 is InvalidVk,
{
    let msg_vk_string = msg.vk.to_string();
    let local_vk_string = local_vk.to_string();
    if !crate::encoding::str_eq(&msg_vk_string, &local_vk_string) {
        return Err(WakeError::InvalidVk);
    }
    Ok(())
}

} // verus!
