//! The three-round compiler WAKE protocol over the Bulletproofs backend:
//! a nonce round, then the two Burmester-Desmedt rounds, where each
//! Burmester-Desmedt broadcast is signed with a range proof over the
//! sender's committed balance.

use crate::burmester_desmedt::{
    all_base_powers, bd_compute_key, bd_round2_payload, bd_sum, exps_a, lemma_bd_key_common,
    round_two_exps, session_key_exp,
};
use crate::encoding::{dec_of, hex_of};
use crate::errors::WakeError;
use crate::group::{
    base_mul, basepoint, blind_mul, encode_of, group_order, point_add, point_mul, scalar_from_u64,
    scalar_random, GroupElement, GroupScalar,
};
use crate::range_proof::{bp_accepts, bp_weak_accepts, RangeProof, RangeProofStruct};
use crate::session::{scalars_bytes, table_str, Nonces};
use crate::utility::{next_idx_spec, prev_idx_spec, upperbound_log_spec, valid_upperbound};
use vstd::arithmetic::div_mod::lemma_small_mod;
use vstd::prelude::*;

verus! {

// ---------------------------------------------------------------------------
// Messages and signatures
// ---------------------------------------------------------------------------

/// A compiler WAKE broadcast: party index, round index, the Burmester-
/// Desmedt payload, and the session's nonce table.
pub struct CompMessage {
    pub idx: usize,
    pub round_idx: usize,
    pub payload: GroupElement,
    pub nonces: Nonces,
}

/// The canonical string form of a compiler message: the decimal index,
/// round index, payload hex and nonce table, joined by `##`.
pub open spec fn comp_message_str(m: &CompMessage) -> Seq<char> {
    dec_of(m.idx as int) + "##"@ + dec_of(m.round_idx as int) + "##"@ + hex_of(m.payload.bytes@)
        + "##"@ + m.nonces.str_spec()
}

impl Clone for CompMessage {
    fn clone(&self) -> (r: Self)
        ensures
            r.idx == self.idx,
            r.round_idx == self.round_idx,
            r.payload.bytes@ == self.payload.bytes@,
            r.payload.exp@ == self.payload.exp@,
            r.nonces.idxs@ == self.nonces.idxs@,
            r.nonces.scalars@.len() == self.nonces.scalars@.len(),
            r.nonces.str_spec() == self.nonces.str_spec(),
            comp_message_str(&r) == comp_message_str(self),
    {
        CompMessage {
            idx: self.idx,
            round_idx: self.round_idx,
            payload: self.payload.clone(),
            nonces: self.nonces.clone(),
        }
    }
}

impl CompMessage {
    pub fn new(idx: usize, round_idx: usize, message: GroupElement, nonces: Nonces) -> (r:
        CompMessage)
        ensures
            r.idx == idx,
            r.round_idx == round_idx,
            r.payload == message,
            r.nonces == nonces,
    {
        CompMessage { idx, round_idx, payload: message, nonces }
    }

    /// Renders the canonical string form of the message.
    pub fn to_string(&self) -> (r: String)
        requires
            self.nonces.wf(),
        ensures
            r@ == comp_message_str(self),
    {
        let mut s = crate::encoding::usize_to_string(self.idx);
        s.append("##");
        let round = crate::encoding::usize_to_string(self.round_idx);
        s.append(round.as_str());
        s.append("##");
        let payload = crate::utility::ristretto_to_string(&self.payload);
        s.append(payload.as_str());
        s.append("##");
        let nonces = self.nonces.to_string();
        s.append(nonces.as_str());
        s
    }
}

/// A compiler WAKE signature: a Bulletproof range proof for the darkpool
/// relation over the signed message string.
pub struct CompSignature {
    pub range_proof: RangeProof,
}

impl Clone for CompSignature {
    fn clone(&self) -> (r: Self)
        ensures
            r.range_proof.bytes@ == self.range_proof.bytes@,
    {
        CompSignature { range_proof: self.range_proof.clone() }
    }
}

impl CompSignature {
    /// Signs a message string: proves in zero knowledge that the balance is
    /// at least `min_bal`, binding the proof to the string.
    pub fn sign(
        message_string: String,
        min_bal: u64,
        balance: u64,
        blinding_factor: &GroupScalar,
        upperbound: u64,
    ) -> (sig: CompSignature)
        requires
            blinding_factor.wf(),
            valid_upperbound(upperbound),
            balance >= min_bal,
            balance - min_bal <= upperbound,
        ensures
            bp_accepts(
                sig.range_proof.bytes@,
                encode_of(upperbound - (balance - min_bal), blinding_factor.val()),
                upperbound_log_spec(upperbound),
                message_string@,
            ),
    {
        let range_proof_struct = RangeProofStruct::new(min_bal, upperbound);
        match range_proof_struct.prove(balance, blinding_factor, message_string) {
            Ok(range_proof) => CompSignature { range_proof },
            Err(_) => {
                proof {
                    assert(false);
                }
                unreached()
            },
        }
    }

    /// Verifies the range proof against the adjusted commitment of the
    /// sender: an honest proof is accepted, and a `true` result means the
    /// proof passed the backend's verification of this commitment, bit
    /// size and message string.
    pub fn verify_signature(
        &self,
        message_string: String,
        range_proof_struct: &RangeProofStruct,
        commitment: &GroupElement,
    ) -> (r: bool)
        requires
            valid_upperbound(range_proof_struct.upperbound),
            commitment.bytes@.len() == 32,
        ensures
            bp_accepts(
                self.range_proof.bytes@,
                commitment.bytes@,
                upperbound_log_spec(range_proof_struct.upperbound),
                message_string@,
            ) ==> r,
            r ==> bp_weak_accepts(
                self.range_proof.bytes@,
                commitment.bytes@,
                upperbound_log_spec(range_proof_struct.upperbound),
                message_string@,
            ),
    {
        range_proof_struct.verify(self.range_proof.clone(), commitment, message_string)
    }
}


/// The canonical string is a pure function of the message's components:
/// two parties with identical views of a message render byte-identical
/// strings.
pub proof fn lemma_comp_message_str_pure(m1: &CompMessage, m2: &CompMessage)
    requires
        m1.idx == m2.idx,
        m1.round_idx == m2.round_idx,
        m1.payload.bytes@ == m2.payload.bytes@,
        m1.nonces.idxs@ == m2.nonces.idxs@,
        scalars_bytes(m1.nonces.scalars@) == scalars_bytes(m2.nonces.scalars@),
    ensures
        comp_message_str(m1) == comp_message_str(m2),
{
}

// ---------------------------------------------------------------------------
// Parties
// ---------------------------------------------------------------------------

/// The Burmester-Desmedt state a party keeps between rounds two and three.
pub struct BurmesterDesmedt {
    pub r: GroupScalar,
}

/// The index views of a round-one output list.
pub open spec fn outputs_idxs(o: Seq<(usize, GroupScalar)>) -> Seq<usize> {
    Seq::new(o.len(), |j: int| o[j].0)
}

/// The nonce byte views of a round-one output list.
pub open spec fn outputs_bytes(o: Seq<(usize, GroupScalar)>) -> Seq<Seq<u8>> {
    Seq::new(o.len(), |j: int| o[j].1.bytes@)
}

/// The metadata checks a received message must pass: the expected round
/// index, and a nonce table whose canonical string equals the local one.
pub open spec fn msg_meta_ok(m: &CompMessage, round_idx: int, local_str: Seq<char>) -> bool {
    &&& m.round_idx == round_idx
    &&& m.nonces.str_spec() == local_str
}

/// A received pair passes verification: the metadata checks hold and the
/// range proof verifies against the sender's adjusted commitment
/// `c * g^min_bal`.
pub open spec fn msg_ok(
    m: &CompMessage,
    sig: &CompSignature,
    round_idx: int,
    local_str: Seq<char>,
    c: GroupElement,
    min_bal: u64,
    upperbound: u64,
) -> bool {
    &&& msg_meta_ok(m, round_idx, local_str)
    &&& bp_accepts(
        sig.range_proof.bytes@,
        encode_of((c.a() + min_bal) % group_order(), c.b()),
        upperbound_log_spec(upperbound),
        comp_message_str(m),
    )
}

/// A single party of the compiler protocol: its public index, the minimum
/// balance, every party's commitment, its secret balance and blinding, and
/// the state built up during the rounds.
pub struct Party {
    pub idx: usize,
    pub min_bal: u64,
    pub commitments: Vec<GroupElement>,
    pub balance: u64,
    pub blinding: GroupScalar,
    pub nonces: Option<Nonces>,
    pub bd: Option<BurmesterDesmedt>,
}

impl Party {
    pub fn new(
        idx: usize,
        commitments: Vec<GroupElement>,
        min_bal: u64,
        balance: u64,
        blinding: GroupScalar,
    ) -> (p: Party)
        ensures
            p.idx == idx,
            p.commitments == commitments,
            p.min_bal == min_bal,
            p.balance == balance,
            p.blinding == blinding,
            p.nonces is None,
            p.bd is None,
    {
        Party { idx, commitments, min_bal, balance, blinding, nonces: None, bd: None }
    }

    /// Round one of WAKE: broadcast a fresh session nonce with the party
    /// index.
    pub fn round_1(&self) -> (r: (usize, GroupScalar))
        ensures
            r.0 == self.idx,
            r.1.wf(),
    {
        let nonce = scalar_random();
        (self.idx, nonce)
    }

    /// Stores the nonce table assembled from every party's round-one
    /// broadcast.
    pub fn round1_recieve(&mut self, round_1_outputs: &Vec<(usize, GroupScalar)>)
        ensures
            final(self).idx == old(self).idx,
            final(self).min_bal == old(self).min_bal,
            final(self).commitments == old(self).commitments,
            final(self).balance == old(self).balance,
            final(self).blinding == old(self).blinding,
            final(self).bd == old(self).bd,
            final(self).nonces is Some,
            final(self).nonces->Some_0.wf(),
            final(self).nonces->Some_0.idxs@ == outputs_idxs(round_1_outputs@),
            scalars_bytes(final(self).nonces->Some_0.scalars@) == outputs_bytes(
                round_1_outputs@,
            ),
    {
        let mut idxs: Vec<usize> = Vec::new();
        let mut scalars: Vec<GroupScalar> = Vec::new();
        let mut i: usize = 0;
        while i < round_1_outputs.len()
            invariant
                i <= round_1_outputs@.len(),
                idxs@.len() == i,
                scalars@.len() == i,
                forall|j: int| 0 <= j < i ==> idxs@[j] == outputs_idxs(round_1_outputs@)[j],
                forall|j: int|
                    0 <= j < i ==> (#[trigger] scalars@[j]).bytes@ == round_1_outputs@[j].1.bytes@,
            decreases round_1_outputs@.len() - i,
        {
            idxs.push(round_1_outputs[i].0);
            scalars.push(round_1_outputs[i].1.clone());
            i = i + 1;
        }
        proof {
            assert(idxs@ =~= outputs_idxs(round_1_outputs@));
            assert(scalars_bytes(scalars@) =~= outputs_bytes(round_1_outputs@));
        }
        let nonces = Nonces::new(idxs, scalars);
        self.nonces = Some(nonces);
    }

    /// Round two of WAKE, which is round one of Burmester-Desmedt: draw the
    /// ephemeral exponent, broadcast `z = g^r` signed with a range proof.
    pub fn round_2(&mut self, g: &GroupElement, upperbound: u64) -> (res: (
        CompMessage,
        CompSignature,
    ))
        requires
            old(self).nonces is Some,
            old(self).nonces->Some_0.wf(),
            old(self).blinding.wf(),
            g.wf(),
            g.exp@ == (1int, 0int),
            valid_upperbound(upperbound),
            old(self).balance >= old(self).min_bal,
            old(self).balance - old(self).min_bal <= upperbound,
        ensures
            final(self).idx == old(self).idx,
            final(self).min_bal == old(self).min_bal,
            final(self).commitments == old(self).commitments,
            final(self).balance == old(self).balance,
            final(self).blinding == old(self).blinding,
            final(self).nonces == old(self).nonces,
            final(self).bd is Some,
            final(self).bd->Some_0.r.wf(),
            res.0.idx == old(self).idx,
            res.0.round_idx == 2,
            res.0.payload.wf(),
            res.0.payload.b() == 0,
            res.0.payload.a() == final(self).bd->Some_0.r.val(),
            res.0.nonces.wf(),
            res.0.nonces.str_spec() == old(self).nonces->Some_0.str_spec(),
            bp_accepts(
                res.1.range_proof.bytes@,
                encode_of(
                    upperbound - (old(self).balance - old(self).min_bal),
                    old(self).blinding.val(),
                ),
                upperbound_log_spec(upperbound),
                comp_message_str(&res.0),
            ),
    {
        let r = scalar_random();
        let z = point_mul(g, &r);
        proof {
            assert(1 * r.val() == r.val()) by (nonlinear_arith);
            assert(0 * r.val() == 0) by (nonlinear_arith);
            lemma_small_mod(r.val() as nat, group_order() as nat);
            lemma_small_mod(0, group_order() as nat);
        }
        self.bd = Some(BurmesterDesmedt { r });

        let nonces = match &self.nonces {
            Some(n) => n.clone(),
            None => {
                proof {
                    assert(false);
                }
                unreached()
            },
        };
        let message = CompMessage::new(self.idx, 2, z, nonces);
        let message_string = message.to_string();
        let signature = CompSignature::sign(
            message_string,
            self.min_bal,
            self.balance,
            &self.blinding,
            upperbound,
        );
        (message, signature)
    }

    /// Round three of WAKE, which is round two of Burmester-Desmedt:
    /// broadcast `x = (z_next / z_prev)^r` signed with a range proof.
    pub fn round_3(&self, z_list: &Vec<GroupElement>, upperbound: u64) -> (res: (
        CompMessage,
        CompSignature,
    ))
        requires
            self.nonces is Some,
            self.nonces->Some_0.wf(),
            self.blinding.wf(),
            self.bd is Some,
            self.bd->Some_0.r.wf(),
            valid_upperbound(upperbound),
            self.balance >= self.min_bal,
            self.balance - self.min_bal <= upperbound,
            z_list@.len() >= 2,
            self.idx < z_list@.len(),
            all_base_powers(z_list@),
        ensures
            res.0.idx == self.idx,
            res.0.round_idx == 3,
            res.0.payload.wf(),
            res.0.payload.b() == 0,
            res.0.payload.a() == ((z_list@[next_idx_spec(self.idx as int, z_list@.len() as int)].a()
                - z_list@[prev_idx_spec(self.idx as int, z_list@.len() as int)].a())
                % group_order() * self.bd->Some_0.r.val()) % group_order(),
            res.0.nonces.wf(),
            res.0.nonces.str_spec() == self.nonces->Some_0.str_spec(),
            bp_accepts(
                res.1.range_proof.bytes@,
                encode_of(upperbound - (self.balance - self.min_bal), self.blinding.val()),
                upperbound_log_spec(upperbound),
                comp_message_str(&res.0),
            ),
    {
        let r = match &self.bd {
            Some(bd) => &bd.r,
            None => {
                proof {
                    assert(false);
                }
                unreached()
            },
        };
        let x = bd_round2_payload(z_list, self.idx, r);

        let nonces = match &self.nonces {
            Some(n) => n.clone(),
            None => {
                proof {
                    assert(false);
                }
                unreached()
            },
        };
        let message = CompMessage::new(self.idx, 3, x, nonces);
        let message_string = message.to_string();
        let signature = CompSignature::sign(
            message_string,
            self.min_bal,
            self.balance,
            &self.blinding,
            upperbound,
        );
        (message, signature)
    }

    /// Receives and checks every peer's broadcast of a round: the list
    /// length, the round index, the nonce table string and the range-proof
    /// signature, aborting at the first failure.
    pub fn round_recieve(
        &self,
        g: &GroupElement,
        prev_round_res: &Vec<(CompMessage, CompSignature)>,
        round_idx: usize,
        upperbound: u64,
    ) -> (res: Result<(), WakeError>)
        requires
            g.wf(),
            g.exp@ == (1int, 0int),
            valid_upperbound(upperbound),
            self.nonces is Some,
            self.nonces->Some_0.wf(),
            forall|j: int|
                0 <= j < self.commitments@.len() ==> (#[trigger] self.commitments@[j]).wf(),
            forall|j: int|
                0 <= j < prev_round_res@.len() ==> (#[trigger] prev_round_res@[j].0).nonces.wf(),
        ensures
            res is Ok ==> prev_round_res@.len() == self.commitments@.len() && forall|i: int|
                0 <= i < prev_round_res@.len() && i != self.idx as int ==> msg_meta_ok(
                    &(#[trigger] prev_round_res@[i]).0,
                    round_idx as int,
                    self.nonces->Some_0.str_spec(),
                ),
            (prev_round_res@.len() == self.commitments@.len() && (forall|i: int|
                0 <= i < prev_round_res@.len() && i != self.idx as int ==> msg_ok(
                    &(#[trigger] prev_round_res@[i]).0,
                    &prev_round_res@[i].1,
                    round_idx as int,
                    self.nonces->Some_0.str_spec(),
                    self.commitments@[i],
                    self.min_bal,
                    upperbound,
                ))) ==> res is Ok,
            res is Err ==> (res->Err_0 is InvalidLength || res->Err_0 is WrongRoundNumber
                || res->Err_0 is InvalidNonces || res->Err_0 is SignatureVerificationFailed),
            res is Err && res->Err_0 is InvalidLength <==> prev_round_res@.len()
                != self.commitments@.len(),
    {
        if self.commitments.len() != prev_round_res.len() {
            return Err(
                WakeError::InvalidLength {
                    expected: prev_round_res.len(),
                    found: self.commitments.len(),
                },
            );
        }
        let local_nonces = match &self.nonces {
            Some(n) => n,
            None => {
                proof {
                    assert(false);
                }
                unreached()
            },
        };
        let local_nonces_string = local_nonces.to_string();

        let mut i: usize = 0;
        while i < prev_round_res.len()
            invariant
                prev_round_res@.len() == self.commitments@.len(),
                i <= prev_round_res@.len(),
                g.wf(),
                g.exp@ == (1int, 0int),
                valid_upperbound(upperbound),
                self.nonces is Some,
                self.nonces->Some_0.wf(),
                local_nonces_string@ == self.nonces->Some_0.str_spec(),
                forall|j: int|
                    0 <= j < self.commitments@.len() ==> (#[trigger] self.commitments@[j]).wf(),
                forall|j: int|
                    0 <= j < prev_round_res@.len() ==> (#[trigger] prev_round_res@[j].0).nonces.wf(),
                forall|j: int|
                    0 <= j < i && j != self.idx as int ==> msg_meta_ok(
                        &(#[trigger] prev_round_res@[j]).0,
                        round_idx as int,
                        self.nonces->Some_0.str_spec(),
                    ),
            decreases prev_round_res@.len() - i,
        {
            if i != self.idx {
                let curr_message = &prev_round_res[i].0;

                if curr_message.round_idx != round_idx {
                    return Err(WakeError::WrongRoundNumber { found: curr_message.round_idx });
                }
                let msg_nonces_string = curr_message.nonces.to_string();
                if !crate::encoding::str_eq(&msg_nonces_string, &local_nonces_string) {
                    return Err(WakeError::InvalidNonces);
                }

                let range_proof_struct = RangeProofStruct::new(self.min_bal, upperbound);
                let min_bal_scalar = scalar_from_u64(self.min_bal);
                let g_min_bal = point_mul(g, &min_bal_scalar);
                proof {
                    assert(1 * min_bal_scalar.val() == min_bal_scalar.val()) by (nonlinear_arith);
                    assert(0 * min_bal_scalar.val() == 0) by (nonlinear_arith);
                    lemma_small_mod(self.min_bal as nat, group_order() as nat);
                    lemma_small_mod(0, group_order() as nat);
                }
                let updated_bal_comm = point_add(&self.commitments[i], &g_min_bal);
                proof {
                    lemma_small_mod(self.commitments@[i as int].b() as nat, group_order() as nat);
                }
                let message_string = curr_message.to_string();
                let verification_status = prev_round_res[i].1.verify_signature(
                    message_string,
                    &range_proof_struct,
                    &updated_bal_comm,
                );
                if !verification_status {
                    return Err(WakeError::SignatureVerificationFailed);
                }
            }
            i = i + 1;
        }
        Ok(())
    }

    /// Computes the Burmester-Desmedt key from the two payload lists.
    pub fn compute_key(&self, z_list: &Vec<GroupElement>, x_list: &Vec<GroupElement>) -> (key:
        GroupElement)
        requires
            self.bd is Some,
            self.bd->Some_0.r.wf(),
            z_list@.len() == x_list@.len(),
            x_list@.len() >= 1,
            self.idx < x_list@.len(),
            all_base_powers(z_list@),
            all_base_powers(x_list@),
        ensures
            key.wf(),
            key.b() == 0,
            key.a() == (z_list@[prev_idx_spec(self.idx as int, x_list@.len() as int)].a()
                * self.bd->Some_0.r.val() * x_list@.len() + bd_sum(
                exps_a(x_list@),
                self.idx as int,
                (x_list@.len() - 1) as nat,
            )) % group_order(),
    {
        let r = match &self.bd {
            Some(bd) => &bd.r,
            None => {
                proof {
                    assert(false);
                }
                unreached()
            },
        };
        bd_compute_key(z_list, x_list, self.idx, r)
    }
}

// ---------------------------------------------------------------------------
// Setup and driver
// ---------------------------------------------------------------------------

/// The inputs on which a key exchange is owed: one balance per party, a
/// valid upperbound, and every balance at least the minimum.
pub open spec fn valid_inputs(
    party_amount: usize,
    min_bal: u64,
    balances: Seq<u64>,
    upperbound: u64,
) -> bool {
    &&& balances.len() == party_amount
    &&& valid_upperbound(upperbound)
    &&& forall|j: int| 0 <= j < balances.len() ==> balances[j] >= min_bal
}

/// The per-party facts established by setup.
spec fn party_base_inv(p: Party, i: int, min_bal: u64, balance: u64, n: int) -> bool {
    &&& p.idx == i
    &&& p.min_bal == min_bal
    &&& p.balance == balance
    &&& p.blinding.wf()
    &&& p.commitments@.len() == n
}

/// Every party holds the same commitment table: entry `j` commits to
/// `upperbound - balances[j]` under party `j`'s blinding.
spec fn commitments_inv(parties: Seq<Party>, balances: Seq<u64>, upperbound: u64) -> bool {
    forall|i: int, j: int|
        0 <= i < parties.len() && 0 <= j < parties.len() ==> {
            let c = #[trigger] parties[i].commitments@[j];
            &&& c.wf()
            &&& c.a() == upperbound - balances[j]
            &&& c.b() == parties[j].blinding.val()
        }
}

/// Initializes the parties with their secret values and the shared table of
/// public commitments `g^(upperbound - balance_j) * h^(blinding_j)`.
fn setup_parties(party_amount: usize, min_bal: u64, balances: &Vec<u64>, upperbound: u64) -> (res:
    Result<Vec<Party>, WakeError>)
    requires
        valid_upperbound(upperbound) ==> forall|j: int|
            0 <= j < balances@.len() && balances@[j] >= min_bal ==> balances@[j] <= upperbound,
    ensures
        res is Ok <==> valid_inputs(party_amount, min_bal, balances@, upperbound),
        res is Err ==> (res->Err_0 is BalanceLength <==> balances@.len() != party_amount),
        res is Err && balances@.len() == party_amount ==> (res->Err_0 == (
        WakeError::InvalidUpperbound { upperbound }) <==> !valid_upperbound(upperbound)),
        res is Err && balances@.len() == party_amount && valid_upperbound(upperbound)
            ==> res->Err_0 is BalanceBelowMin,
        res is Ok ==> {
            let parties = res->Ok_0@;
            &&& parties.len() == party_amount
            &&& forall|i: int|
                0 <= i < parties.len() ==> party_base_inv(
                    #[trigger] parties[i],
                    i,
                    min_bal,
                    balances@[i],
                    party_amount as int,
                ) && parties[i].nonces is None && parties[i].bd is None
            &&& commitments_inv(parties, balances@, upperbound)
        },
{
    if balances.len() != party_amount {
        return Err(WakeError::BalanceLength);
    }
    if upperbound != u8::MAX as u64 && upperbound != u16::MAX as u64 && upperbound != u32::MAX
        as u64 && upperbound != u64::MAX {
        return Err(WakeError::InvalidUpperbound { upperbound });
    }

    let mut commitments: Vec<GroupElement> = Vec::new();
    let mut blindings: Vec<GroupScalar> = Vec::new();
    let mut i: usize = 0;
    while i < party_amount
        invariant
            i <= party_amount,
            balances@.len() == party_amount,
            valid_upperbound(upperbound),
            forall|j: int|
                0 <= j < balances@.len() && balances@[j] >= min_bal ==> balances@[j] <= upperbound,
            commitments@.len() == i,
            blindings@.len() == i,
            forall|j: int| 0 <= j < i ==> balances@[j] >= min_bal,
            forall|j: int| 0 <= j < i ==> (#[trigger] blindings@[j]).wf(),
            forall|j: int|
                0 <= j < i ==> (#[trigger] commitments@[j]).wf() && commitments@[j].a()
                    == upperbound - balances@[j] && commitments@[j].b() == blindings@[j].val(),
        decreases party_amount - i,
    {
        if balances[i] < min_bal {
            return Err(WakeError::BalanceBelowMin);
        }
        let r = scalar_random();
        let value_scalar = scalar_from_u64(upperbound - balances[i]);
        let base_part = base_mul(&value_scalar);
        let blind_part = blind_mul(&r);
        let commitment = point_add(&base_part, &blind_part);
        proof {
            lemma_small_mod((upperbound - balances@[i as int]) as nat, group_order() as nat);
            lemma_small_mod(r.val() as nat, group_order() as nat);
        }
        commitments.push(commitment);
        blindings.push(r);
        i = i + 1;
    }

    let mut parties: Vec<Party> = Vec::new();
    let mut i: usize = 0;
    while i < party_amount
        invariant
            i <= party_amount,
            balances@.len() == party_amount,
            commitments@.len() == party_amount,
            blindings@.len() == party_amount,
            forall|j: int| 0 <= j < party_amount ==> balances@[j] >= min_bal,
            forall|j: int| 0 <= j < party_amount ==> (#[trigger] blindings@[j]).wf(),
            forall|j: int|
                0 <= j < party_amount ==> (#[trigger] commitments@[j]).wf() && commitments@[j].a()
                    == upperbound - balances@[j] && commitments@[j].b() == blindings@[j].val(),
            parties@.len() == i,
            forall|k: int|
                0 <= k < i ==> party_base_inv(
                    #[trigger] parties@[k],
                    k,
                    min_bal,
                    balances@[k],
                    party_amount as int,
                ) && parties@[k].nonces is None && parties@[k].bd is None,
            forall|k: int, j: int|
                0 <= k < i && 0 <= j < party_amount ==> {
                    let c = #[trigger] parties@[k].commitments@[j];
                    &&& c.wf()
                    &&& c.a() == upperbound - balances@[j]
                    &&& c.b() == blindings@[j].val()
                },
            forall|k: int|
                0 <= k < i ==> (#[trigger] parties@[k]).blinding.val() == blindings@[k].val(),
        decreases party_amount - i,
    {
        let own_commitments = crate::group::clone_elements(&commitments);
        let own_blinding = blindings[i].clone();
        parties.push(Party::new(i, own_commitments, min_bal, balances[i], own_blinding));
        i = i + 1;
    }
    Ok(parties)
}

/// Runs the three-round compiler WAKE protocol: on valid inputs it returns
/// one key per party and all the keys are equal; invalid inputs are
/// rejected with the matching error.
pub fn run_compiler_key_exchange(
    party_amount: usize,
    min_bal: u64,
    balances: Vec<u64>,
    upperbound: u64,
) -> (res: Result<Vec<GroupElement>, WakeError>)
    requires
        party_amount >= 2,
        valid_upperbound(upperbound) ==> forall|j: int|
            0 <= j < balances@.len() && balances@[j] >= min_bal ==> balances@[j] <= upperbound,
    ensures
        res is Ok <==> valid_inputs(party_amount, min_bal, balances@, upperbound),
        res is Ok ==> res->Ok_0@.len() == party_amount,
        res is Ok ==> forall|i: int| 0 <= i < party_amount ==> (#[trigger] res->Ok_0@[i]).wf(),
        res is Ok ==> forall|i: int, j: int|
            0 <= i < party_amount && 0 <= j < party_amount ==> res->Ok_0@[i].bytes@
                == res->Ok_0@[j].bytes@,
        res is Err ==> (res->Err_0 is BalanceLength <==> balances@.len() != party_amount),
        res is Err && balances@.len() == party_amount ==> (res->Err_0 == (
        WakeError::InvalidUpperbound { upperbound }) <==> !valid_upperbound(upperbound)),
        res is Err && balances@.len() == party_amount && valid_upperbound(upperbound)
            ==> res->Err_0 is BalanceBelowMin,
{
    let g = basepoint();
    let ghost n = party_amount as int;

    let mut parties = match setup_parties(party_amount, min_bal, &balances, upperbound) {
        Ok(p) => p,
        Err(e) => {
            return Err(e);
        },
    };

    // round 1: nonces
    let mut round1_outputs: Vec<(usize, GroupScalar)> = Vec::new();
    let mut i: usize = 0;
    while i < party_amount
        invariant
            n == party_amount as int,
            i <= party_amount,
            parties@.len() == party_amount,
            round1_outputs@.len() == i,
            forall|k: int|
                0 <= k < party_amount ==> party_base_inv(
                    #[trigger] parties@[k],
                    k,
                    min_bal,
                    balances@[k],
                    n,
                ),
            forall|j: int|
                0 <= j < i ==> (#[trigger] round1_outputs@[j]).0 == j
                    && round1_outputs@[j].1.wf(),
        decreases party_amount - i,
    {
        let out = parties[i].round_1();
        round1_outputs.push(out);
        i = i + 1;
    }

    let ghost nonce_str = table_str(
        outputs_idxs(round1_outputs@),
        outputs_bytes(round1_outputs@),
        round1_outputs@.len(),
    );

    // round 1 receive: every party stores the same nonce table
    let mut i: usize = 0;
    while i < party_amount
        invariant
            n == party_amount as int,
            i <= party_amount,
            parties@.len() == party_amount,
            balances@.len() == party_amount,
            round1_outputs@.len() == party_amount,
            valid_upperbound(upperbound),
            forall|j: int| 0 <= j < party_amount ==> balances@[j] >= min_bal,
            forall|j: int|
                0 <= j < balances@.len() && balances@[j] >= min_bal ==> balances@[j] <= upperbound,
            forall|k: int|
                0 <= k < party_amount ==> party_base_inv(
                    #[trigger] parties@[k],
                    k,
                    min_bal,
                    balances@[k],
                    n,
                ),
            commitments_inv(parties@, balances@, upperbound),
            nonce_str == table_str(
                outputs_idxs(round1_outputs@),
                outputs_bytes(round1_outputs@),
                round1_outputs@.len(),
            ),
            forall|k: int|
                0 <= k < i ==> (#[trigger] parties@[k]).nonces is Some
                    && parties@[k].nonces->Some_0.wf() && parties@[k].nonces->Some_0.str_spec()
                    == nonce_str,
        decreases party_amount - i,
    {
        parties[i].round1_recieve(&round1_outputs);
        i = i + 1;
    }

    // round 2: Burmester-Desmedt round one, signed
    let mut round2_outputs: Vec<(CompMessage, CompSignature)> = Vec::new();
    let mut payload_list: Vec<GroupElement> = Vec::new();
    let mut i: usize = 0;
    while i < party_amount
        invariant
            n == party_amount as int,
            i <= party_amount,
            parties@.len() == party_amount,
            balances@.len() == party_amount,
            party_amount >= 2,
            g.wf(),
            g.exp@ == (1int, 0int),
            valid_upperbound(upperbound),
            forall|j: int| 0 <= j < party_amount ==> balances@[j] >= min_bal,
            forall|j: int|
                0 <= j < balances@.len() && balances@[j] >= min_bal ==> balances@[j] <= upperbound,
            forall|k: int|
                0 <= k < party_amount ==> party_base_inv(
                    #[trigger] parties@[k],
                    k,
                    min_bal,
                    balances@[k],
                    n,
                ),
            commitments_inv(parties@, balances@, upperbound),
            forall|k: int|
                0 <= k < party_amount ==> (#[trigger] parties@[k]).nonces is Some
                    && parties@[k].nonces->Some_0.wf() && parties@[k].nonces->Some_0.str_spec()
                    == nonce_str,
            round2_outputs@.len() == i,
            payload_list@.len() == i,
            forall|k: int|
                0 <= k < i ==> (#[trigger] parties@[k]).bd is Some
                    && parties@[k].bd->Some_0.r.wf(),
            forall|k: int|
                0 <= k < i ==> {
                    let m = #[trigger] round2_outputs@[k].0;
                    &&& m.idx == k
                    &&& m.round_idx == 2
                    &&& m.payload.wf()
                    &&& m.payload.b() == 0
                    &&& m.payload.a() == parties@[k].bd->Some_0.r.val()
                    &&& m.nonces.wf()
                    &&& m.nonces.str_spec() == nonce_str
                    &&& bp_accepts(
                        round2_outputs@[k].1.range_proof.bytes@,
                        encode_of(
                            upperbound - (balances@[k] - min_bal),
                            parties@[k].blinding.val(),
                        ),
                        upperbound_log_spec(upperbound),
                        comp_message_str(&m),
                    )
                },
            forall|k: int|
                0 <= k < i ==> (#[trigger] payload_list@[k]).wf() && payload_list@[k].b() == 0
                    && payload_list@[k].a() == parties@[k].bd->Some_0.r.val(),
        decreases party_amount - i,
    {
        let (message, signature) = parties[i].round_2(&g, upperbound);
        payload_list.push(message.payload.clone());
        round2_outputs.push((message, signature));
        i = i + 1;
    }

    // round 2 receive: every party verifies all broadcasts
    let mut i: usize = 0;
    while i < party_amount
        invariant
            n == party_amount as int,
            i <= party_amount,
            parties@.len() == party_amount,
            balances@.len() == party_amount,
            party_amount >= 2,
            g.wf(),
            g.exp@ == (1int, 0int),
            valid_upperbound(upperbound),
            forall|j: int| 0 <= j < party_amount ==> balances@[j] >= min_bal,
            forall|j: int|
                0 <= j < balances@.len() && balances@[j] >= min_bal ==> balances@[j] <= upperbound,
            forall|k: int|
                0 <= k < party_amount ==> party_base_inv(
                    #[trigger] parties@[k],
                    k,
                    min_bal,
                    balances@[k],
                    n,
                ),
            commitments_inv(parties@, balances@, upperbound),
            forall|k: int|
                0 <= k < party_amount ==> (#[trigger] parties@[k]).nonces is Some
                    && parties@[k].nonces->Some_0.wf() && parties@[k].nonces->Some_0.str_spec()
                    == nonce_str,
            round2_outputs@.len() == party_amount,
            forall|k: int|
                0 <= k < party_amount ==> {
                    let m = #[trigger] round2_outputs@[k].0;
                    &&& m.round_idx == 2
                    &&& m.nonces.wf()
                    &&& m.nonces.str_spec() == nonce_str
                    &&& bp_accepts(
                        round2_outputs@[k].1.range_proof.bytes@,
                        encode_of(
                            upperbound - (balances@[k] - min_bal),
                            parties@[k].blinding.val(),
                        ),
                        upperbound_log_spec(upperbound),
                        comp_message_str(&m),
                    )
                },
        decreases party_amount - i,
    {
        proof {
            lemma_adjusted_commitments(
                parties@,
                round2_outputs@,
                i as int,
                2,
                nonce_str,
                balances@,
                min_bal,
                upperbound,
            );
        }
        proof {
            let ghost pi = parties@[i as int];
            assert forall|j: int|
                0 <= j < pi.commitments@.len() implies (#[trigger] pi.commitments@[j]).wf() by {
                assert(parties@[i as int].commitments@[j].wf());
            }
        }
        match parties[i].round_recieve(&g, &round2_outputs, 2, upperbound) {
            Ok(_) => {},
            Err(e) => {
                proof {
                    assert(false);
                }
                return Err(e);
            },
        }
        i = i + 1;
    }

    // round 3: Burmester-Desmedt round two, signed
    let ghost a = Seq::new(party_amount as nat, |k: int| parties@[k].bd->Some_0.r.val());
    proof {
        assert(all_base_powers(payload_list@));
        assert forall|k: int| 0 <= k < party_amount implies (#[trigger] payload_list@[k]).a()
            == a[k] by {}
    }

    let mut round3_outputs: Vec<(CompMessage, CompSignature)> = Vec::new();
    let mut x_list: Vec<GroupElement> = Vec::new();
    let mut i: usize = 0;
    while i < party_amount
        invariant
            n == party_amount as int,
            i <= party_amount,
            parties@.len() == party_amount,
            balances@.len() == party_amount,
            party_amount >= 2,
            g.wf(),
            g.exp@ == (1int, 0int),
            valid_upperbound(upperbound),
            forall|j: int| 0 <= j < party_amount ==> balances@[j] >= min_bal,
            forall|j: int|
                0 <= j < balances@.len() && balances@[j] >= min_bal ==> balances@[j] <= upperbound,
            forall|k: int|
                0 <= k < party_amount ==> party_base_inv(
                    #[trigger] parties@[k],
                    k,
                    min_bal,
                    balances@[k],
                    n,
                ),
            commitments_inv(parties@, balances@, upperbound),
            forall|k: int|
                0 <= k < party_amount ==> (#[trigger] parties@[k]).nonces is Some
                    && parties@[k].nonces->Some_0.wf() && parties@[k].nonces->Some_0.str_spec()
                    == nonce_str,
            forall|k: int|
                0 <= k < party_amount ==> (#[trigger] parties@[k]).bd is Some
                    && parties@[k].bd->Some_0.r.wf(),
            a == Seq::new(party_amount as nat, |k: int| parties@[k].bd->Some_0.r.val()),
            payload_list@.len() == party_amount,
            all_base_powers(payload_list@),
            forall|k: int| 0 <= k < party_amount ==> (#[trigger] payload_list@[k]).a() == a[k],
            round3_outputs@.len() == i,
            x_list@.len() == i,
            forall|k: int|
                0 <= k < i ==> {
                    let m = #[trigger] round3_outputs@[k].0;
                    &&& m.round_idx == 3
                    &&& m.nonces.wf()
                    &&& m.nonces.str_spec() == nonce_str
                    &&& bp_accepts(
                        round3_outputs@[k].1.range_proof.bytes@,
                        encode_of(
                            upperbound - (balances@[k] - min_bal),
                            parties@[k].blinding.val(),
                        ),
                        upperbound_log_spec(upperbound),
                        comp_message_str(&m),
                    )
                },
            forall|k: int|
                0 <= k < i ==> (#[trigger] x_list@[k]).wf() && x_list@[k].b() == 0 && x_list@[k].a()
                    == ((a[next_idx_spec(k, n)] - a[prev_idx_spec(k, n)]) % group_order() * a[k])
                    % group_order(),
        decreases party_amount - i,
    {
        let (message, signature) = parties[i].round_3(&payload_list, upperbound);
        x_list.push(message.payload.clone());
        round3_outputs.push((message, signature));
        i = i + 1;
    }

    // round 3 receive
    let mut i: usize = 0;
    while i < party_amount
        invariant
            n == party_amount as int,
            i <= party_amount,
            parties@.len() == party_amount,
            balances@.len() == party_amount,
            party_amount >= 2,
            g.wf(),
            g.exp@ == (1int, 0int),
            valid_upperbound(upperbound),
            forall|j: int| 0 <= j < party_amount ==> balances@[j] >= min_bal,
            forall|j: int|
                0 <= j < balances@.len() && balances@[j] >= min_bal ==> balances@[j] <= upperbound,
            forall|k: int|
                0 <= k < party_amount ==> party_base_inv(
                    #[trigger] parties@[k],
                    k,
                    min_bal,
                    balances@[k],
                    n,
                ),
            commitments_inv(parties@, balances@, upperbound),
            forall|k: int|
                0 <= k < party_amount ==> (#[trigger] parties@[k]).nonces is Some
                    && parties@[k].nonces->Some_0.wf() && parties@[k].nonces->Some_0.str_spec()
                    == nonce_str,
            round3_outputs@.len() == party_amount,
            forall|k: int|
                0 <= k < party_amount ==> {
                    let m = #[trigger] round3_outputs@[k].0;
                    &&& m.round_idx == 3
                    &&& m.nonces.wf()
                    &&& m.nonces.str_spec() == nonce_str
                    &&& bp_accepts(
                        round3_outputs@[k].1.range_proof.bytes@,
                        encode_of(
                            upperbound - (balances@[k] - min_bal),
                            parties@[k].blinding.val(),
                        ),
                        upperbound_log_spec(upperbound),
                        comp_message_str(&m),
                    )
                },
        decreases party_amount - i,
    {
        proof {
            lemma_adjusted_commitments(
                parties@,
                round3_outputs@,
                i as int,
                3,
                nonce_str,
                balances@,
                min_bal,
                upperbound,
            );
        }
        proof {
            let ghost pi = parties@[i as int];
            assert forall|j: int|
                0 <= j < pi.commitments@.len() implies (#[trigger] pi.commitments@[j]).wf() by {
                assert(parties@[i as int].commitments@[j].wf());
            }
        }
        match parties[i].round_recieve(&g, &round3_outputs, 3, upperbound) {
            Ok(_) => {},
            Err(e) => {
                proof {
                    assert(false);
                }
                return Err(e);
            },
        }
        i = i + 1;
    }

    // key derivation: all keys carry the same exponent
    let mut keys: Vec<GroupElement> = Vec::new();
    let mut i: usize = 0;
    while i < party_amount
        invariant
            n == party_amount as int,
            i <= party_amount,
            parties@.len() == party_amount,
            party_amount >= 2,
            forall|k: int|
                0 <= k < party_amount ==> party_base_inv(
                    #[trigger] parties@[k],
                    k,
                    min_bal,
                    balances@[k],
                    n,
                ),
            forall|k: int|
                0 <= k < party_amount ==> (#[trigger] parties@[k]).bd is Some
                    && parties@[k].bd->Some_0.r.wf(),
            a == Seq::new(party_amount as nat, |k: int| parties@[k].bd->Some_0.r.val()),
            payload_list@.len() == party_amount,
            x_list@.len() == party_amount,
            all_base_powers(payload_list@),
            all_base_powers(x_list@),
            forall|k: int| 0 <= k < party_amount ==> (#[trigger] payload_list@[k]).a() == a[k],
            round_two_exps(a, exps_a(x_list@)),
            keys@.len() == i,
            forall|k: int|
                0 <= k < i ==> (#[trigger] keys@[k]).wf() && keys@[k].b() == 0 && keys@[k].a()
                    == session_key_exp(a) % group_order(),
        decreases party_amount - i,
    {
        let key = parties[i].compute_key(&payload_list, &x_list);
        proof {
            lemma_bd_key_common(a, exps_a(x_list@), i as int);
        }
        keys.push(key);
        i = i + 1;
    }

    proof {
        assert forall|i: int, j: int|
            0 <= i < party_amount && 0 <= j < party_amount implies keys@[i].bytes@
            == keys@[j].bytes@ by {
            assert(keys@[i].wf() && keys@[j].wf());
        }
    }
    Ok(keys)
}

/// For each peer entry, the stored acceptance fact over the sender's own
/// commitment transfers to the receiver's adjusted commitment
/// `c * g^min_bal`.
proof fn lemma_adjusted_commitments(
    parties: Seq<Party>,
    outputs: Seq<(CompMessage, CompSignature)>,
    i: int,
    round_idx: int,
    nonce_str: Seq<char>,
    balances: Seq<u64>,
    min_bal: u64,
    upperbound: u64,
)
    requires
        0 <= i < parties.len(),
        outputs.len() == parties.len(),
        balances.len() == parties.len(),
        valid_upperbound(upperbound),
        forall|j: int| 0 <= j < balances.len() ==> balances[j] >= min_bal,
        forall|j: int|
            0 <= j < balances.len() && balances[j] >= min_bal ==> balances[j] <= upperbound,
        forall|k: int|
            0 <= k < parties.len() ==> party_base_inv(
                #[trigger] parties[k],
                k,
                min_bal,
                balances[k],
                parties.len() as int,
            ),
        commitments_inv(parties, balances, upperbound),
        parties[i].nonces is Some,
        parties[i].nonces->Some_0.str_spec() == nonce_str,
        forall|k: int|
            0 <= k < outputs.len() ==> {
                let m = #[trigger] outputs[k].0;
                &&& m.round_idx == round_idx
                &&& m.nonces.str_spec() == nonce_str
                &&& bp_accepts(
                    outputs[k].1.range_proof.bytes@,
                    encode_of(upperbound - (balances[k] - min_bal), parties[k].blinding.val()),
                    upperbound_log_spec(upperbound),
                    comp_message_str(&m),
                )
            },
    ensures
        forall|k: int|
            0 <= k < outputs.len() && k != parties[i].idx as int ==> msg_ok(
                &(#[trigger] outputs[k]).0,
                &outputs[k].1,
                round_idx,
                parties[i].nonces->Some_0.str_spec(),
                parties[i].commitments@[k],
                min_bal,
                upperbound,
            ),
{
    assert forall|k: int| 0 <= k < outputs.len() && k != parties[i].idx as int implies msg_ok(
        &(#[trigger] outputs[k]).0,
        &outputs[k].1,
        round_idx,
        parties[i].nonces->Some_0.str_spec(),
        parties[i].commitments@[k],
        min_bal,
        upperbound,
    ) by {
        let c = parties[i].commitments@[k];
        assert(c.a() == upperbound - balances[k]);
        assert(c.b() == parties[k].blinding.val());
        assert(0 <= c.a() + min_bal < group_order());
        lemma_small_mod((c.a() + min_bal) as nat, group_order() as nat);
        assert((c.a() + min_bal) % group_order() == upperbound - (balances[k] - min_bal));
    }
}

} // verus!
