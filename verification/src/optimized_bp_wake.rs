//! The two-round optimized WAKE protocol over the Bulletproofs backend:
//! round one of Burmester-Desmedt doubles as the first WAKE round, its
//! ephemeral `z_i` doubling as the statement of a discrete-log knowledge
//! proof; round two carries the payload together with the discrete-log
//! proof and a range proof, each binding the next through aux strings.

use crate::burmester_desmedt::{
    all_base_powers, bd_compute_key, bd_round2_payload, bd_sum, exps_a, lemma_bd_key_common,
    round_two_exps, session_key_exp,
};
use crate::dlk::{
    dlk_challenge_input, dlk_proof_str, dlk_verify_spec, lemma_dlk_completeness,
    DiscreteLogKnowledgeProof, DiscreteLogKnowledgeProofStruct,
};
use crate::encoding::{dec_of, hex_of, le_bytes32_of};
use crate::errors::WakeError;
use crate::group::{
    base_mul, basepoint, blind_mul, encode_of, group_order, point_add, point_mul, scalar_from_u64,
    scalar_random, GroupElement, GroupScalar,
};
use crate::range_proof::{bp_accepts, bp_weak_accepts, RangeProof, RangeProofStruct};
use crate::session::{elements_bytes, table_str, VK};
use crate::utility::{
    hash_scalar_val, next_idx_spec, prev_idx_spec, upperbound_log_spec, valid_upperbound,
};
use vstd::arithmetic::div_mod::lemma_small_mod;
use vstd::prelude::*;

verus! {

// ---------------------------------------------------------------------------
// Messages and signatures
// ---------------------------------------------------------------------------

/// An optimized WAKE broadcast: party index, the Burmester-Desmedt round-two
/// payload, and the table of round-one ephemerals.
pub struct OptimizedMessage {
    pub idx: usize,
    pub payload: GroupElement,
    pub vk: VK,
}

/// The canonical string form of an optimized message: the decimal index,
/// the payload hex and the ephemeral table, joined by `##`.
pub open spec fn opt_message_str(m: &OptimizedMessage) -> Seq<char> {
    dec_of(m.idx as int) + "##"@ + hex_of(m.payload.bytes@) + "##"@ + m.vk.str_spec()
}

impl Clone for OptimizedMessage {
    fn clone(&self) -> (r: Self)
        ensures
            r.idx == self.idx,
            r.payload.bytes@ == self.payload.bytes@,
            r.payload.exp@ == self.payload.exp@,
            r.vk.idxs@ == self.vk.idxs@,
            r.vk.z_is@.len() == self.vk.z_is@.len(),
            r.vk.str_spec() == self.vk.str_spec(),
            opt_message_str(&r) == opt_message_str(self),
    {
        OptimizedMessage { idx: self.idx, payload: self.payload.clone(), vk: self.vk.clone() }
    }
}

impl OptimizedMessage {
    pub fn new(idx: usize, message: GroupElement, vk: VK) -> (r: OptimizedMessage)
        ensures
            r.idx == idx,
            r.payload == message,
            r.vk == vk,
    {
        OptimizedMessage { idx, payload: message, vk }
    }

    /// Renders the canonical string form of the message.
    pub fn to_string(&self) -> (r: String)
        requires
            self.vk.wf(),
        ensures
            r@ == opt_message_str(self),
    {
        let mut s = crate::encoding::usize_to_string(self.idx);
        s.append("##");
        let payload = crate::utility::ristretto_to_string(&self.payload);
        s.append(payload.as_str());
        s.append("##");
        let vk = self.vk.to_string();
        s.append(vk.as_str());
        s
    }
}


/// The canonical string is a pure function of the message's components:
/// two parties with identical views of a message render byte-identical
/// strings.
pub proof fn lemma_opt_message_str_pure(m1: &OptimizedMessage, m2: &OptimizedMessage)
    requires
        m1.idx == m2.idx,
        m1.payload.bytes@ == m2.payload.bytes@,
        m1.vk.idxs@ == m2.vk.idxs@,
        elements_bytes(m1.vk.z_is@) == elements_bytes(m2.vk.z_is@),
    ensures
        opt_message_str(m1) == opt_message_str(m2),
{
}

/// The discrete-log auxiliary string: the message string followed by the
/// hex of the adjusted commitment.
pub open spec fn dlk_aux_str(msg: Seq<char>, commitment_bytes: Seq<u8>) -> Seq<char> {
    msg + hex_of(commitment_bytes)
}

/// The range-proof auxiliary string: the message string followed by the
/// canonical string of the discrete-log proof.
pub open spec fn range_aux_str(msg: Seq<char>, p: &DiscreteLogKnowledgeProof) -> Seq<char> {
    msg + dlk_proof_str(p)
}

/// An optimized WAKE signature with session authentication: a discrete-log
/// knowledge proof for the round-one ephemeral, then a range proof bound to
/// that proof's string.
pub struct OptimizedSignatureAndSessionAuthentication {
    pub discrete_log_knowledge_proof: DiscreteLogKnowledgeProof,
    pub range_proof: RangeProof,
}

impl Clone for OptimizedSignatureAndSessionAuthentication {
    fn clone(&self) -> (r: Self)
        ensures
            r.discrete_log_knowledge_proof.statement.bytes@
                == self.discrete_log_knowledge_proof.statement.bytes@,
            r.discrete_log_knowledge_proof.statement.exp@
                == self.discrete_log_knowledge_proof.statement.exp@,
            r.discrete_log_knowledge_proof.challenge.bytes@
                == self.discrete_log_knowledge_proof.challenge.bytes@,
            r.discrete_log_knowledge_proof.response.bytes@
                == self.discrete_log_knowledge_proof.response.bytes@,
            r.range_proof.bytes@ == self.range_proof.bytes@,
    {
        OptimizedSignatureAndSessionAuthentication {
            discrete_log_knowledge_proof: self.discrete_log_knowledge_proof.clone(),
            range_proof: self.range_proof.clone(),
        }
    }
}

/// What an honestly produced optimized signature satisfies, for witness `w`
/// with statement bytes `y`, message string `msg`, adjusted commitment
/// bytes `cbytes` and the range values `v` and blinding `bl`.
pub open spec fn opt_sig_honest(
    sig: &OptimizedSignatureAndSessionAuthentication,
    y: Seq<u8>,
    w: GroupScalar,
    msg: Seq<char>,
    cbytes: Seq<u8>,
    v: int,
    bl: int,
    upperbound: u64,
) -> bool {
    let p = &sig.discrete_log_knowledge_proof;
    let aux = dlk_aux_str(msg, cbytes);
    &&& p.statement.wf()
    &&& p.statement.b() == 0
    &&& p.challenge.wf()
    &&& p.challenge.val() == hash_scalar_val(dlk_challenge_input(y, aux))
    &&& p.challenge.bytes@ == le_bytes32_of(hash_scalar_val(dlk_challenge_input(y, aux)))
    &&& p.response.wf()
    &&& p.response.val() == (p.statement.a() + (p.challenge.val() * w.val()) % group_order())
        % group_order()
    &&& bp_accepts(
        sig.range_proof.bytes@,
        encode_of(v, bl),
        upperbound_log_spec(upperbound),
        range_aux_str(msg, p),
    )
}

impl OptimizedSignatureAndSessionAuthentication {
    /// Signs a message string: first the discrete-log proof for the
    /// round-one ephemeral, bound to the message and the commitment, then
    /// the range proof bound to the message and the discrete-log proof.
    pub fn sign(
        message_string: &String,
        min_bal: u64,
        balance: u64,
        blinding_factor: &GroupScalar,
        discrete_log_proof_statement: GroupElement,
        discrete_log_proof_witness: &GroupScalar,
        upperbound: u64,
        commitment: &GroupElement,
    ) -> (sig: OptimizedSignatureAndSessionAuthentication)
        requires
            blinding_factor.wf(),
            discrete_log_proof_witness.wf(),
            valid_upperbound(upperbound),
            balance >= min_bal,
            balance - min_bal <= upperbound,
        ensures
            opt_sig_honest(
                &sig,
                discrete_log_proof_statement.bytes@,
                *discrete_log_proof_witness,
                message_string@,
                commitment.bytes@,
                upperbound - (balance - min_bal),
                blinding_factor.val(),
                upperbound,
            ),
    {
        let discrete_log_knowledege_proof_struct = DiscreteLogKnowledgeProofStruct::new(
            discrete_log_proof_statement,
        );
        let mut dlk_aux = clone_string(message_string);
        let commitment_hex = crate::utility::ristretto_to_string(commitment);
        dlk_aux.append(commitment_hex.as_str());
        let discrete_log_knowledge_proof = discrete_log_knowledege_proof_struct.prove(
            discrete_log_proof_witness.clone(),
            dlk_aux,
        );

        let range_proof_struct = RangeProofStruct::new(min_bal, upperbound);
        let mut range_aux = clone_string(message_string);
        let dlk_string = discrete_log_knowledge_proof.to_string();
        range_aux.append(dlk_string.as_str());
        let range_proof = match range_proof_struct.prove(balance, blinding_factor, range_aux) {
            Ok(p) => p,
            Err(_) => {
                proof {
                    assert(false);
                }
                unreached()
            },
        };

        OptimizedSignatureAndSessionAuthentication { discrete_log_knowledge_proof, range_proof }
    }

    /// Verifies the session authentication and the signature: the
    /// discrete-log proof against the peer's round-one ephemeral, then the
    /// range proof against the peer's adjusted commitment.
    pub fn verify_signature(
        &self,
        message_string: &String,
        discrete_log_knowledge_proof_struct: &DiscreteLogKnowledgeProofStruct,
        range_proof_struct: &RangeProofStruct,
        commitment: &GroupElement,
    ) -> (r: bool)
        requires
            discrete_log_knowledge_proof_struct.statement.wf(),
            self.discrete_log_knowledge_proof.statement.wf(),
            self.discrete_log_knowledge_proof.challenge.wf(),
            self.discrete_log_knowledge_proof.response.wf(),
            valid_upperbound(range_proof_struct.upperbound),
            commitment.bytes@.len() == 32,
        ensures
            r ==> dlk_verify_spec(
                discrete_log_knowledge_proof_struct.statement,
                &self.discrete_log_knowledge_proof,
                dlk_aux_str(message_string@, commitment.bytes@),
            ),
            (dlk_verify_spec(
                discrete_log_knowledge_proof_struct.statement,
                &self.discrete_log_knowledge_proof,
                dlk_aux_str(message_string@, commitment.bytes@),
            ) && bp_accepts(
                self.range_proof.bytes@,
                commitment.bytes@,
                upperbound_log_spec(range_proof_struct.upperbound),
                range_aux_str(message_string@, &self.discrete_log_knowledge_proof),
            )) ==> r,
            r ==> bp_weak_accepts(
                self.range_proof.bytes@,
                commitment.bytes@,
                upperbound_log_spec(range_proof_struct.upperbound),
                range_aux_str(message_string@, &self.discrete_log_knowledge_proof),
            ),
    {
        let mut dlk_aux = clone_string(message_string);
        let commitment_hex = crate::utility::ristretto_to_string(commitment);
        dlk_aux.append(commitment_hex.as_str());
        let discrete_log_knowledege_proof_verification = discrete_log_knowledge_proof_struct
            .verify(self.discrete_log_knowledge_proof.clone(), dlk_aux);

        let mut range_aux = clone_string(message_string);
        let dlk_string = self.discrete_log_knowledge_proof.to_string();
        range_aux.append(dlk_string.as_str());
        let range_proof_verification = range_proof_struct.verify(
            self.range_proof.clone(),
            commitment,
            range_aux,
        );

        discrete_log_knowledege_proof_verification && range_proof_verification
    }
}

// ---------------------------------------------------------------------------
// Parties
// ---------------------------------------------------------------------------

/// The Burmester-Desmedt state of the optimized protocol: the round-one
/// ephemeral and its exponent, drawn in round one.
pub struct BurmesterDesmedt {
    pub z_i: GroupElement,
    pub x_i: GroupScalar,
}

/// The index views of a round-one output list.
pub open spec fn outputs_idxs(o: Seq<(usize, GroupElement)>) -> Seq<usize> {
    Seq::new(o.len(), |j: int| o[j].0)
}

/// The ephemeral byte views of a round-one output list.
pub open spec fn outputs_bytes(o: Seq<(usize, GroupElement)>) -> Seq<Seq<u8>> {
    Seq::new(o.len(), |j: int| o[j].1.bytes@)
}

/// The ephemerals of a round-one output list.
pub open spec fn outputs_elements(o: Seq<(usize, GroupElement)>) -> Seq<GroupElement> {
    Seq::new(o.len(), |j: int| o[j].1)
}

/// A received pair passes verification: the ephemeral table matches the
/// local one, the discrete-log proof verifies for the sender's round-one
/// ephemeral, and the range proof verifies against the sender's adjusted
/// commitment, whose encoding is `cbytes`.
pub open spec fn opt_msg_ok(
    m: &OptimizedMessage,
    sig: &OptimizedSignatureAndSessionAuthentication,
    local_str: Seq<char>,
    y: GroupElement,
    cbytes: Seq<u8>,
    upperbound: u64,
) -> bool {
    &&& m.vk.str_spec() == local_str
    &&& dlk_verify_spec(
        y,
        &sig.discrete_log_knowledge_proof,
        dlk_aux_str(opt_message_str(m), cbytes),
    )
    &&& bp_accepts(
        sig.range_proof.bytes@,
        cbytes,
        upperbound_log_spec(upperbound),
        range_aux_str(opt_message_str(m), &sig.discrete_log_knowledge_proof),
    )
}

/// A single party of the optimized protocol: its public index, the minimum
/// balance, every party's commitment, its secret balance and blinding, and
/// the state built up during the rounds.
pub struct Party {
    pub idx: usize,
    pub min_bal: u64,
    pub commitments: Vec<GroupElement>,
    pub balance: u64,
    pub blinding: GroupScalar,
    pub vk: Option<VK>,
    pub bd: Option<BurmesterDesmedt>,
}

impl Party {
    pub fn new(
        idx: usize,
        commitments: Vec<GroupElement>,
        min_bal: u64,
        balance: u64,
        blinding: GroupScalar,
    ) -> (p: Party)
        ensures
            p.idx == idx,
            p.commitments == commitments,
            p.min_bal == min_bal,
            p.balance == balance,
            p.blinding == blinding,
            p.vk is None,
            p.bd is None,
    {
        Party { idx, commitments, min_bal, balance, blinding, vk: None, bd: None }
    }

    /// Round one of WAKE, which is also round one of Burmester-Desmedt:
    /// draw the exponent and publish `z_i = g^x_i`.
    pub fn round_1(&mut self, g: &GroupElement) -> (res: (usize, GroupElement))
        requires
            g.wf(),
            g.exp@ == (1int, 0int),
        ensures
            final(self).idx == old(self).idx,
            final(self).min_bal == old(self).min_bal,
            final(self).commitments == old(self).commitments,
            final(self).balance == old(self).balance,
            final(self).blinding == old(self).blinding,
            final(self).vk == old(self).vk,
            final(self).bd is Some,
            final(self).bd->Some_0.x_i.wf(),
            final(self).bd->Some_0.z_i.wf(),
            final(self).bd->Some_0.z_i.b() == 0,
            final(self).bd->Some_0.z_i.a() == final(self).bd->Some_0.x_i.val(),
            res.0 == old(self).idx,
            res.1.bytes@ == final(self).bd->Some_0.z_i.bytes@,
            res.1.exp@ == final(self).bd->Some_0.z_i.exp@,
    {
        let x_i = scalar_random();
        let z_i = point_mul(g, &x_i);
        proof {
            assert(1 * x_i.val() == x_i.val()) by (nonlinear_arith);
            assert(0 * x_i.val() == 0) by (nonlinear_arith);
            lemma_small_mod(x_i.val() as nat, group_order() as nat);
            lemma_small_mod(0, group_order() as nat);
        }
        let z_out = z_i.clone();
        self.bd = Some(BurmesterDesmedt { x_i, z_i });
        (self.idx, z_out)
    }

    /// Round two: assemble the ephemeral table, compute the Burmester-
    /// Desmedt payload, and sign the message with the discrete-log proof
    /// for `z_i` and a range proof, in that order.
    pub fn round_2(&mut self, round_1_outputs: &Vec<(usize, GroupElement)>, upperbound: u64)
        -> (res: (OptimizedMessage, OptimizedSignatureAndSessionAuthentication))
        requires
            old(self).bd is Some,
            old(self).bd->Some_0.x_i.wf(),
            old(self).bd->Some_0.z_i.wf(),
            old(self).bd->Some_0.z_i.b() == 0,
            old(self).blinding.wf(),
            valid_upperbound(upperbound),
            old(self).balance >= old(self).min_bal,
            old(self).balance - old(self).min_bal <= upperbound,
            round_1_outputs@.len() >= 2,
            old(self).idx < round_1_outputs@.len(),
            old(self).idx < old(self).commitments@.len(),
            forall|j: int|
                0 <= j < round_1_outputs@.len() ==> (#[trigger] round_1_outputs@[j].1).wf()
                    && round_1_outputs@[j].1.b() == 0,
            forall|j: int|
                0 <= j < old(self).commitments@.len() ==> (#[trigger] old(
                    self,
                ).commitments@[j]).wf(),
        ensures
            final(self).idx == old(self).idx,
            final(self).min_bal == old(self).min_bal,
            final(self).commitments == old(self).commitments,
            final(self).balance == old(self).balance,
            final(self).blinding == old(self).blinding,
            final(self).bd == old(self).bd,
            final(self).vk is Some,
            final(self).vk->Some_0.wf(),
            final(self).vk->Some_0.str_spec() == table_str(
                outputs_idxs(round_1_outputs@),
                outputs_bytes(round_1_outputs@),
                round_1_outputs@.len(),
            ),
            res.0.idx == old(self).idx,
            res.0.payload.wf(),
            res.0.payload.b() == 0,
            res.0.payload.a() == ((round_1_outputs@[next_idx_spec(
                old(self).idx as int,
                round_1_outputs@.len() as int,
            )].1.a() - round_1_outputs@[prev_idx_spec(
                old(self).idx as int,
                round_1_outputs@.len() as int,
            )].1.a()) % group_order() * old(self).bd->Some_0.x_i.val()) % group_order(),
            res.0.vk.wf(),
            res.0.vk.str_spec() == table_str(
                outputs_idxs(round_1_outputs@),
                outputs_bytes(round_1_outputs@),
                round_1_outputs@.len(),
            ),
            opt_sig_honest(
                &res.1,
                old(self).bd->Some_0.z_i.bytes@,
                old(self).bd->Some_0.x_i,
                opt_message_str(&res.0),
                encode_of(
                    (old(self).commitments@[old(self).idx as int].a() + old(self).min_bal)
                        % group_order(),
                    old(self).commitments@[old(self).idx as int].b(),
                ),
                upperbound - (old(self).balance - old(self).min_bal),
                old(self).blinding.val(),
                upperbound,
            ),
    {
        // receiving stage: assemble the ephemeral table
        let mut idxs: Vec<usize> = Vec::new();
        let mut z_i_list: Vec<GroupElement> = Vec::new();
        let mut i: usize = 0;
        while i < round_1_outputs.len()
            invariant
                i <= round_1_outputs@.len(),
                idxs@.len() == i,
                z_i_list@.len() == i,
                forall|j: int| 0 <= j < i ==> idxs@[j] == outputs_idxs(round_1_outputs@)[j],
                forall|j: int|
                    0 <= j < i ==> (#[trigger] z_i_list@[j]).bytes@ == round_1_outputs@[j].1.bytes@
                        && z_i_list@[j].exp@ == round_1_outputs@[j].1.exp@,
            decreases round_1_outputs@.len() - i,
        {
            idxs.push(round_1_outputs[i].0);
            z_i_list.push(round_1_outputs[i].1.clone());
            i = i + 1;
        }
        proof {
            assert(idxs@ =~= outputs_idxs(round_1_outputs@));
            assert(elements_bytes(z_i_list@) =~= outputs_bytes(round_1_outputs@));
            assert(all_base_powers(z_i_list@));
        }

        let vk = VK::new(idxs, z_i_list);
        let vk_for_message = vk.clone();

        // creating and sending stage
        let x_i = match &self.bd {
            Some(bd) => &bd.x_i,
            None => {
                proof {
                    assert(false);
                }
                unreached()
            },
        };
        let payload = bd_round2_payload(&vk.z_is, self.idx, x_i);
        let m_i = OptimizedMessage::new(self.idx, payload, vk_for_message);

        // sign the message, binding the commitment into the aux string
        let g = basepoint();
        let min_bal_scalar = scalar_from_u64(self.min_bal);
        let g_min_bal = point_mul(&g, &min_bal_scalar);
        proof {
            assert(1 * min_bal_scalar.val() == min_bal_scalar.val()) by (nonlinear_arith);
            assert(0 * min_bal_scalar.val() == 0) by (nonlinear_arith);
            lemma_small_mod(self.min_bal as nat, group_order() as nat);
            lemma_small_mod(0, group_order() as nat);
            lemma_small_mod(self.commitments@[self.idx as int].b() as nat, group_order() as nat);
        }
        let adjusted = point_add(&self.commitments[self.idx], &g_min_bal);

        let message_string = m_i.to_string();
        let (statement, witness) = match &self.bd {
            Some(bd) => (bd.z_i.clone(), &bd.x_i),
            None => {
                proof {
                    assert(false);
                }
                unreached()
            },
        };
        let signature = OptimizedSignatureAndSessionAuthentication::sign(
            &message_string,
            self.min_bal,
            self.balance,
            &self.blinding,
            statement,
            witness,
            upperbound,
            &adjusted,
        );
        self.vk = Some(vk);
        (m_i, signature)
    }

    /// Verifies every peer's round-two broadcast: the ephemeral table
    /// string, then the discrete-log proof, then the range proof, aborting
    /// at the first failure.
    pub fn verify_all_round_2_outputs(
        &self,
        round_1_outputs: &Vec<(usize, GroupElement)>,
        round_2_outputs: &Vec<(OptimizedMessage, OptimizedSignatureAndSessionAuthentication)>,
        upperbound: u64,
    ) -> (res: Result<(), WakeError>)
        requires
            valid_upperbound(upperbound),
            self.vk is Some,
            self.vk->Some_0.wf(),
            round_2_outputs@.len() == round_1_outputs@.len(),
            self.commitments@.len() == round_1_outputs@.len(),
            forall|j: int|
                0 <= j < round_1_outputs@.len() ==> (#[trigger] round_1_outputs@[j].1).wf(),
            forall|j: int|
                0 <= j < self.commitments@.len() ==> (#[trigger] self.commitments@[j]).wf(),
            forall|j: int|
                0 <= j < round_2_outputs@.len() ==> {
                    let pair = #[trigger] round_2_outputs@[j];
                    &&& pair.0.vk.wf()
                    &&& pair.1.discrete_log_knowledge_proof.statement.wf()
                    &&& pair.1.discrete_log_knowledge_proof.challenge.wf()
                    &&& pair.1.discrete_log_knowledge_proof.response.wf()
                },
        ensures
            res is Ok ==> forall|k: int|
                0 <= k < round_2_outputs@.len() && k != self.idx as int ==> (#[trigger]
                round_2_outputs@[k]).0.vk.str_spec() == self.vk->Some_0.str_spec(),
            (forall|k: int|
                0 <= k < round_2_outputs@.len() && k != self.idx as int ==> opt_msg_ok(
                    &(#[trigger] round_2_outputs@[k]).0,
                    &round_2_outputs@[k].1,
                    self.vk->Some_0.str_spec(),
                    round_1_outputs@[k].1,
                    encode_of(
                        (self.commitments@[k].a() + self.min_bal) % group_order(),
                        self.commitments@[k].b(),
                    ),
                    upperbound,
                )) ==> res is Ok,
            res is Err ==> (res->Err_0 is InvalidVk || res->Err_0 is SignatureVerificationFailed),
    {
        let local_vk = match &self.vk {
            Some(v) => v,
            None => {
                proof {
                    assert(false);
                }
                unreached()
            },
        };
        let local_vk_string = local_vk.to_string();
        let g = basepoint();

        let mut i: usize = 0;
        while i < round_1_outputs.len()
            invariant
                round_2_outputs@.len() == round_1_outputs@.len(),
                self.commitments@.len() == round_1_outputs@.len(),
                i <= round_1_outputs@.len(),
                g.wf(),
                g.exp@ == (1int, 0int),
                valid_upperbound(upperbound),
                self.vk is Some,
                self.vk->Some_0.wf(),
                local_vk_string@ == self.vk->Some_0.str_spec(),
                forall|j: int|
                    0 <= j < round_1_outputs@.len() ==> (#[trigger] round_1_outputs@[j].1).wf(),
                forall|j: int|
                    0 <= j < self.commitments@.len() ==> (#[trigger] self.commitments@[j]).wf(),
                forall|j: int|
                    0 <= j < round_2_outputs@.len() ==> {
                        let pair = #[trigger] round_2_outputs@[j];
                        &&& pair.0.vk.wf()
                        &&& pair.1.discrete_log_knowledge_proof.statement.wf()
                        &&& pair.1.discrete_log_knowledge_proof.challenge.wf()
                        &&& pair.1.discrete_log_knowledge_proof.response.wf()
                    },
                forall|k: int|
                    0 <= k < i && k != self.idx as int ==> (#[trigger] round_2_outputs@[k]).0
                        .vk.str_spec() == self.vk->Some_0.str_spec(),
            decreases round_1_outputs@.len() - i,
        {
            if i != self.idx {
                let (msg, sig_session_auth) = (&round_2_outputs[i].0, &round_2_outputs[i].1);

                let msg_vk_string = msg.vk.to_string();
                if !crate::encoding::str_eq(&msg_vk_string, &local_vk_string) {
                    return Err(WakeError::InvalidVk);
                }

                let discrete_log_knowledge_proof_struct = DiscreteLogKnowledgeProofStruct::new(
                    round_1_outputs[i].1.clone(),
                );
                let range_proof_struct = RangeProofStruct::new(self.min_bal, upperbound);
                let min_bal_scalar = scalar_from_u64(self.min_bal);
                let g_min_bal = point_mul(&g, &min_bal_scalar);
                proof {
                    assert(1 * min_bal_scalar.val() == min_bal_scalar.val()) by (nonlinear_arith);
                    assert(0 * min_bal_scalar.val() == 0) by (nonlinear_arith);
                    lemma_small_mod(self.min_bal as nat, group_order() as nat);
                    lemma_small_mod(0, group_order() as nat);
                    lemma_small_mod(self.commitments@[i as int].b() as nat, group_order() as nat);
                }
                let adjusted = point_add(&self.commitments[i], &g_min_bal);

                let message_string = msg.to_string();
                let verification_status = sig_session_auth.verify_signature(
                    &message_string,
                    &discrete_log_knowledge_proof_struct,
                    &range_proof_struct,
                    &adjusted,
                );
                if !verification_status {
                    return Err(WakeError::SignatureVerificationFailed);
                }
            }
            i = i + 1;
        }
        Ok(())
    }

    /// Computes the Burmester-Desmedt key from the round-one and round-two
    /// payload lists.
    pub fn compute_key(
        &self,
        round1_payload: &Vec<GroupElement>,
        round2_payload: &Vec<GroupElement>,
    ) -> (key: GroupElement)
        requires
            self.bd is Some,
            self.bd->Some_0.x_i.wf(),
            round1_payload@.len() == round2_payload@.len(),
            round2_payload@.len() >= 1,
            self.idx < round2_payload@.len(),
            all_base_powers(round1_payload@),
            all_base_powers(round2_payload@),
        ensures
            key.wf(),
            key.b() == 0,
            key.a() == (round1_payload@[prev_idx_spec(
                self.idx as int,
                round2_payload@.len() as int,
            )].a() * self.bd->Some_0.x_i.val() * round2_payload@.len() + bd_sum(
                exps_a(round2_payload@),
                self.idx as int,
                (round2_payload@.len() - 1) as nat,
            )) % group_order(),
    {
        let x_i = match &self.bd {
            Some(bd) => &bd.x_i,
            None => {
                proof {
                    assert(false);
                }
                unreached()
            },
        };
        bd_compute_key(round1_payload, round2_payload, self.idx, x_i)
    }
}

// ---------------------------------------------------------------------------
// Setup and driver
// ---------------------------------------------------------------------------

/// The inputs on which a key exchange is owed: one balance per party, a
/// valid upperbound, and every balance at least the minimum.
pub open spec fn valid_inputs(
    party_amount: usize,
    min_bal: u64,
    balances: Seq<u64>,
    upperbound: u64,
) -> bool {
    &&& balances.len() == party_amount
    &&& valid_upperbound(upperbound)
    &&& forall|j: int| 0 <= j < balances.len() ==> balances[j] >= min_bal
}

/// The per-party facts established by setup.
spec fn party_base_inv(p: Party, i: int, min_bal: u64, balance: u64, n: int) -> bool {
    &&& p.idx == i
    &&& p.min_bal == min_bal
    &&& p.balance == balance
    &&& p.blinding.wf()
    &&& p.commitments@.len() == n
}

/// Every party holds the same commitment table: entry `j` commits to
/// `upperbound - balances[j]` under party `j`'s blinding.
spec fn commitments_inv(parties: Seq<Party>, balances: Seq<u64>, upperbound: u64) -> bool {
    forall|i: int, j: int|
        0 <= i < parties.len() && 0 <= j < parties.len() ==> {
            let c = #[trigger] parties[i].commitments@[j];
            &&& c.wf()
            &&& c.a() == upperbound - balances[j]
            &&& c.b() == parties[j].blinding.val()
        }
}

/// Initializes the parties with their secret values and the shared table of
/// public commitments `g^(upperbound - balance_j) * h^(blinding_j)`.
fn setup_parties(party_amount: usize, min_bal: u64, balances: &Vec<u64>, upperbound: u64) -> (res:
    Result<Vec<Party>, WakeError>)
    requires
        valid_upperbound(upperbound) ==> forall|j: int|
            0 <= j < balances@.len() && balances@[j] >= min_bal ==> balances@[j] <= upperbound,
    ensures
        res is Ok <==> valid_inputs(party_amount, min_bal, balances@, upperbound),
        res is Err ==> (res->Err_0 is BalanceLength <==> balances@.len() != party_amount),
        res is Err && balances@.len() == party_amount ==> (res->Err_0 == (
        WakeError::InvalidUpperbound { upperbound }) <==> !valid_upperbound(upperbound)),
        res is Err && balances@.len() == party_amount && valid_upperbound(upperbound)
            ==> res->Err_0 is BalanceBelowMin,
        res is Ok ==> {
            let parties = res->Ok_0@;
            &&& parties.len() == party_amount
            &&& forall|i: int|
                0 <= i < parties.len() ==> party_base_inv(
                    #[trigger] parties[i],
                    i,
                    min_bal,
                    balances@[i],
                    party_amount as int,
                ) && parties[i].vk is None && parties[i].bd is None
            &&& commitments_inv(parties, balances@, upperbound)
        },
{
    if balances.len() != party_amount {
        return Err(WakeError::BalanceLength);
    }
    if upperbound != u8::MAX as u64 && upperbound != u16::MAX as u64 && upperbound != u32::MAX
        as u64 && upperbound != u64::MAX {
        return Err(WakeError::InvalidUpperbound { upperbound });
    }

    let mut commitments: Vec<GroupElement> = Vec::new();
    let mut blindings: Vec<GroupScalar> = Vec::new();
    let mut i: usize = 0;
    while i < party_amount
        invariant
            i <= party_amount,
            balances@.len() == party_amount,
            valid_upperbound(upperbound),
            forall|j: int|
                0 <= j < balances@.len() && balances@[j] >= min_bal ==> balances@[j] <= upperbound,
            commitments@.len() == i,
            blindings@.len() == i,
            forall|j: int| 0 <= j < i ==> balances@[j] >= min_bal,
            forall|j: int| 0 <= j < i ==> (#[trigger] blindings@[j]).wf(),
            forall|j: int|
                0 <= j < i ==> (#[trigger] commitments@[j]).wf() && commitments@[j].a()
                    == upperbound - balances@[j] && commitments@[j].b() == blindings@[j].val(),
        decreases party_amount - i,
    {
        if balances[i] < min_bal {
            return Err(WakeError::BalanceBelowMin);
        }
        let r = scalar_random();
        let value_scalar = scalar_from_u64(upperbound - balances[i]);
        let base_part = base_mul(&value_scalar);
        let blind_part = blind_mul(&r);
        let commitment = point_add(&base_part, &blind_part);
        proof {
            lemma_small_mod((upperbound - balances@[i as int]) as nat, group_order() as nat);
            lemma_small_mod(r.val() as nat, group_order() as nat);
        }
        commitments.push(commitment);
        blindings.push(r);
        i = i + 1;
    }

    let mut parties: Vec<Party> = Vec::new();
    let mut i: usize = 0;
    while i < party_amount
        invariant
            i <= party_amount,
            balances@.len() == party_amount,
            commitments@.len() == party_amount,
            blindings@.len() == party_amount,
            forall|j: int| 0 <= j < party_amount ==> balances@[j] >= min_bal,
            forall|j: int| 0 <= j < party_amount ==> (#[trigger] blindings@[j]).wf(),
            forall|j: int|
                0 <= j < party_amount ==> (#[trigger] commitments@[j]).wf() && commitments@[j].a()
                    == upperbound - balances@[j] && commitments@[j].b() == blindings@[j].val(),
            parties@.len() == i,
            forall|k: int|
                0 <= k < i ==> party_base_inv(
                    #[trigger] parties@[k],
                    k,
                    min_bal,
                    balances@[k],
                    party_amount as int,
                ) && parties@[k].vk is None && parties@[k].bd is None,
            forall|k: int, j: int|
                0 <= k < i && 0 <= j < party_amount ==> {
                    let c = #[trigger] parties@[k].commitments@[j];
                    &&& c.wf()
                    &&& c.a() == upperbound - balances@[j]
                    &&& c.b() == blindings@[j].val()
                },
            forall|k: int|
                0 <= k < i ==> (#[trigger] parties@[k]).blinding.val() == blindings@[k].val(),
        decreases party_amount - i,
    {
        let own_commitments = crate::group::clone_elements(&commitments);
        let own_blinding = blindings[i].clone();
        parties.push(Party::new(i, own_commitments, min_bal, balances[i], own_blinding));
        i = i + 1;
    }
    Ok(parties)
}

/// Runs the two-round optimized WAKE protocol: on valid inputs it returns
/// one key per party and all the keys are equal; invalid inputs are
/// rejected with the matching error.
pub fn run_optimized_key_exchange(
    party_amount: usize,
    min_bal: u64,
    balances: Vec<u64>,
    upperbound: u64,
) -> (res: Result<Vec<GroupElement>, WakeError>)
    requires
        party_amount >= 2,
        valid_upperbound(upperbound) ==> forall|j: int|
            0 <= j < balances@.len() && balances@[j] >= min_bal ==> balances@[j] <= upperbound,
    ensures
        res is Ok <==> valid_inputs(party_amount, min_bal, balances@, upperbound),
        res is Ok ==> res->Ok_0@.len() == party_amount,
        res is Ok ==> forall|i: int| 0 <= i < party_amount ==> (#[trigger] res->Ok_0@[i]).wf(),
        res is Ok ==> forall|i: int, j: int|
            0 <= i < party_amount && 0 <= j < party_amount ==> res->Ok_0@[i].bytes@
                == res->Ok_0@[j].bytes@,
        res is Err ==> (res->Err_0 is BalanceLength <==> balances@.len() != party_amount),
        res is Err && balances@.len() == party_amount ==> (res->Err_0 == (
        WakeError::InvalidUpperbound { upperbound }) <==> !valid_upperbound(upperbound)),
        res is Err && balances@.len() == party_amount && valid_upperbound(upperbound)
            ==> res->Err_0 is BalanceBelowMin,
{
    let g = basepoint();
    let ghost n = party_amount as int;

    let mut parties = match setup_parties(party_amount, min_bal, &balances, upperbound) {
        Ok(p) => p,
        Err(e) => {
            return Err(e);
        },
    };

    // round 1: ephemerals
    let mut round_1_outputs: Vec<(usize, GroupElement)> = Vec::new();
    let mut round1_payload: Vec<GroupElement> = Vec::new();
    let mut i: usize = 0;
    while i < party_amount
        invariant
            n == party_amount as int,
            i <= party_amount,
            parties@.len() == party_amount,
            balances@.len() == party_amount,
            g.wf(),
            g.exp@ == (1int, 0int),
            valid_upperbound(upperbound),
            forall|j: int| 0 <= j < party_amount ==> balances@[j] >= min_bal,
            forall|j: int|
                0 <= j < balances@.len() && balances@[j] >= min_bal ==> balances@[j] <= upperbound,
            forall|k: int|
                0 <= k < party_amount ==> party_base_inv(
                    #[trigger] parties@[k],
                    k,
                    min_bal,
                    balances@[k],
                    n,
                ),
            commitments_inv(parties@, balances@, upperbound),
            round_1_outputs@.len() == i,
            round1_payload@.len() == i,
            forall|k: int|
                0 <= k < i ==> (#[trigger] parties@[k]).bd is Some
                    && parties@[k].bd->Some_0.x_i.wf() && parties@[k].bd->Some_0.z_i.wf()
                    && parties@[k].bd->Some_0.z_i.b() == 0 && parties@[k].bd->Some_0.z_i.a()
                    == parties@[k].bd->Some_0.x_i.val(),
            forall|k: int|
                0 <= k < i ==> (#[trigger] round_1_outputs@[k]).0 == k
                    && round_1_outputs@[k].1.bytes@ == parties@[k].bd->Some_0.z_i.bytes@
                    && round_1_outputs@[k].1.exp@ == parties@[k].bd->Some_0.z_i.exp@,
            forall|k: int|
                0 <= k < i ==> (#[trigger] round1_payload@[k]).bytes@
                    == round_1_outputs@[k].1.bytes@ && round1_payload@[k].exp@
                    == round_1_outputs@[k].1.exp@,
        decreases party_amount - i,
    {
        let r1_res = parties[i].round_1(&g);
        round1_payload.push(r1_res.1.clone());
        round_1_outputs.push(r1_res);
        i = i + 1;
    }

    let ghost a = Seq::new(party_amount as nat, |k: int| parties@[k].bd->Some_0.x_i.val());
    let ghost vk_str = table_str(
        outputs_idxs(round_1_outputs@),
        outputs_bytes(round_1_outputs@),
        round_1_outputs@.len(),
    );
    proof {
        assert(all_base_powers(round1_payload@));
        assert forall|k: int| 0 <= k < party_amount implies (#[trigger] round1_payload@[k]).a()
            == a[k] by {}
    }

    // round 2: payloads with signatures and session authentication
    let mut round_2_outputs: Vec<(OptimizedMessage, OptimizedSignatureAndSessionAuthentication)> =
        Vec::new();
    let mut round2_payload: Vec<GroupElement> = Vec::new();
    let mut i: usize = 0;
    while i < party_amount
        invariant
            n == party_amount as int,
            i <= party_amount,
            parties@.len() == party_amount,
            balances@.len() == party_amount,
            party_amount >= 2,
            g.wf(),
            g.exp@ == (1int, 0int),
            valid_upperbound(upperbound),
            forall|j: int| 0 <= j < party_amount ==> balances@[j] >= min_bal,
            forall|j: int|
                0 <= j < balances@.len() && balances@[j] >= min_bal ==> balances@[j] <= upperbound,
            forall|k: int|
                0 <= k < party_amount ==> party_base_inv(
                    #[trigger] parties@[k],
                    k,
                    min_bal,
                    balances@[k],
                    n,
                ),
            commitments_inv(parties@, balances@, upperbound),
            forall|k: int|
                0 <= k < party_amount ==> (#[trigger] parties@[k]).bd is Some
                    && parties@[k].bd->Some_0.x_i.wf() && parties@[k].bd->Some_0.z_i.wf()
                    && parties@[k].bd->Some_0.z_i.b() == 0 && parties@[k].bd->Some_0.z_i.a()
                    == parties@[k].bd->Some_0.x_i.val(),
            a == Seq::new(party_amount as nat, |k: int| parties@[k].bd->Some_0.x_i.val()),
            round_1_outputs@.len() == party_amount,
            round1_payload@.len() == party_amount,
            forall|k: int|
                0 <= k < party_amount ==> (#[trigger] round_1_outputs@[k]).0 == k
                    && round_1_outputs@[k].1.bytes@ == parties@[k].bd->Some_0.z_i.bytes@
                    && round_1_outputs@[k].1.exp@ == parties@[k].bd->Some_0.z_i.exp@,
            all_base_powers(round1_payload@),
            forall|k: int| 0 <= k < party_amount ==> (#[trigger] round1_payload@[k]).a() == a[k],
            forall|k: int|
                0 <= k < party_amount ==> (#[trigger] round1_payload@[k]).bytes@
                    == round_1_outputs@[k].1.bytes@ && round1_payload@[k].exp@
                    == round_1_outputs@[k].1.exp@,
            vk_str == table_str(
                outputs_idxs(round_1_outputs@),
                outputs_bytes(round_1_outputs@),
                round_1_outputs@.len(),
            ),
            round_2_outputs@.len() == i,
            round2_payload@.len() == i,
            forall|k: int|
                0 <= k < i ==> (#[trigger] parties@[k]).vk is Some && parties@[k].vk->Some_0.wf()
                    && parties@[k].vk->Some_0.str_spec() == vk_str,
            forall|k: int|
                0 <= k < i ==> {
                    let m = #[trigger] round_2_outputs@[k].0;
                    &&& m.idx == k
                    &&& m.payload.wf()
                    &&& m.payload.b() == 0
                    &&& m.payload.a() == ((a[next_idx_spec(k, n)] - a[prev_idx_spec(k, n)])
                        % group_order() * a[k]) % group_order()
                    &&& m.vk.wf()
                    &&& m.vk.str_spec() == vk_str
                    &&& opt_sig_honest(
                        &round_2_outputs@[k].1,
                        parties@[k].bd->Some_0.z_i.bytes@,
                        parties@[k].bd->Some_0.x_i,
                        opt_message_str(&m),
                        encode_of(
                            (parties@[k].commitments@[k].a() + min_bal) % group_order(),
                            parties@[k].commitments@[k].b(),
                        ),
                        upperbound - (balances@[k] - min_bal),
                        parties@[k].blinding.val(),
                        upperbound,
                    )
                },
            forall|k: int|
                0 <= k < i ==> (#[trigger] round2_payload@[k]).wf() && round2_payload@[k].b() == 0
                    && round2_payload@[k].a() == ((a[next_idx_spec(k, n)] - a[prev_idx_spec(k, n)])
                    % group_order() * a[k]) % group_order(),
        decreases party_amount - i,
    {
        proof {
            assert forall|j: int|
                0 <= j < round_1_outputs@.len() implies (#[trigger] round_1_outputs@[j].1).wf()
                && round_1_outputs@[j].1.b() == 0 by {
                assert(round_1_outputs@[j].1.exp@ == parties@[j].bd->Some_0.z_i.exp@);
            }
        }
        let (m_i, signature) = parties[i].round_2(&round_1_outputs, upperbound);
        proof {
            assert(m_i.payload.a() == ((a[next_idx_spec(i as int, n)] - a[prev_idx_spec(
                i as int,
                n,
            )]) % group_order() * a[i as int]) % group_order()) by {
                let nn = round_1_outputs@.len() as int;
                assert(round_1_outputs@[next_idx_spec(i as int, nn)].1.a() == a[next_idx_spec(
                    i as int,
                    nn,
                )]);
                assert(round_1_outputs@[prev_idx_spec(i as int, nn)].1.a() == a[prev_idx_spec(
                    i as int,
                    nn,
                )]);
            }
        }
        round2_payload.push(m_i.payload.clone());
        round_2_outputs.push((m_i, signature));
        i = i + 1;
    }

    // verification: every party checks every peer's broadcast
    let mut i: usize = 0;
    while i < party_amount
        invariant
            n == party_amount as int,
            i <= party_amount,
            parties@.len() == party_amount,
            balances@.len() == party_amount,
            party_amount >= 2,
            valid_upperbound(upperbound),
            forall|j: int| 0 <= j < party_amount ==> balances@[j] >= min_bal,
            forall|j: int|
                0 <= j < balances@.len() && balances@[j] >= min_bal ==> balances@[j] <= upperbound,
            forall|k: int|
                0 <= k < party_amount ==> party_base_inv(
                    #[trigger] parties@[k],
                    k,
                    min_bal,
                    balances@[k],
                    n,
                ),
            commitments_inv(parties@, balances@, upperbound),
            forall|k: int|
                0 <= k < party_amount ==> (#[trigger] parties@[k]).bd is Some
                    && parties@[k].bd->Some_0.x_i.wf() && parties@[k].bd->Some_0.z_i.wf()
                    && parties@[k].bd->Some_0.z_i.b() == 0 && parties@[k].bd->Some_0.z_i.a()
                    == parties@[k].bd->Some_0.x_i.val(),
            round_1_outputs@.len() == party_amount,
            forall|k: int|
                0 <= k < party_amount ==> (#[trigger] round_1_outputs@[k]).0 == k
                    && round_1_outputs@[k].1.bytes@ == parties@[k].bd->Some_0.z_i.bytes@
                    && round_1_outputs@[k].1.exp@ == parties@[k].bd->Some_0.z_i.exp@,
            forall|k: int|
                0 <= k < party_amount ==> (#[trigger] parties@[k]).vk is Some
                    && parties@[k].vk->Some_0.wf() && parties@[k].vk->Some_0.str_spec() == vk_str,
            round_2_outputs@.len() == party_amount,
            forall|k: int|
                0 <= k < party_amount ==> {
                    let m = #[trigger] round_2_outputs@[k].0;
                    &&& m.vk.wf()
                    &&& m.vk.str_spec() == vk_str
                    &&& opt_sig_honest(
                        &round_2_outputs@[k].1,
                        parties@[k].bd->Some_0.z_i.bytes@,
                        parties@[k].bd->Some_0.x_i,
                        opt_message_str(&m),
                        encode_of(
                            (parties@[k].commitments@[k].a() + min_bal) % group_order(),
                            parties@[k].commitments@[k].b(),
                        ),
                        upperbound - (balances@[k] - min_bal),
                        parties@[k].blinding.val(),
                        upperbound,
                    )
                },
        decreases party_amount - i,
    {
        proof {
            lemma_opt_outputs_ok(
                parties@,
                round_1_outputs@,
                round_2_outputs@,
                i as int,
                vk_str,
                balances@,
                min_bal,
                upperbound,
            );
        }
        match parties[i].verify_all_round_2_outputs(&round_1_outputs, &round_2_outputs, upperbound)
            {
            Ok(_) => {},
            Err(e) => {
                proof {
                    assert(false);
                }
                return Err(e);
            },
        }
        i = i + 1;
    }

    // key derivation: all keys carry the same exponent
    proof {
        assert(round_two_exps(a, exps_a(round2_payload@)));
    }
    let mut keys: Vec<GroupElement> = Vec::new();
    let mut i: usize = 0;
    while i < party_amount
        invariant
            n == party_amount as int,
            i <= party_amount,
            parties@.len() == party_amount,
            party_amount >= 2,
            forall|k: int|
                0 <= k < party_amount ==> (#[trigger] parties@[k]).idx == k && parties@[k].bd
                    is Some && parties@[k].bd->Some_0.x_i.wf(),
            a == Seq::new(party_amount as nat, |k: int| parties@[k].bd->Some_0.x_i.val()),
            round1_payload@.len() == party_amount,
            round2_payload@.len() == party_amount,
            all_base_powers(round1_payload@),
            all_base_powers(round2_payload@),
            forall|k: int| 0 <= k < party_amount ==> (#[trigger] round1_payload@[k]).a() == a[k],
            round_two_exps(a, exps_a(round2_payload@)),
            keys@.len() == i,
            forall|k: int|
                0 <= k < i ==> (#[trigger] keys@[k]).wf() && keys@[k].b() == 0 && keys@[k].a()
                    == session_key_exp(a) % group_order(),
        decreases party_amount - i,
    {
        let key = parties[i].compute_key(&round1_payload, &round2_payload);
        proof {
            lemma_bd_key_common(a, exps_a(round2_payload@), i as int);
        }
        keys.push(key);
        i = i + 1;
    }

    proof {
        assert forall|i: int, j: int|
            0 <= i < party_amount && 0 <= j < party_amount implies keys@[i].bytes@
            == keys@[j].bytes@ by {
            assert(keys@[i].wf() && keys@[j].wf());
        }
    }
    Ok(keys)
}

/// For each peer entry, the honest signature facts transfer to the checks
/// of receiver `i`: the discrete-log proof verifies for the peer's
/// round-one ephemeral, and the range proof verifies against the adjusted
/// commitment the receiver reconstructs.
proof fn lemma_opt_outputs_ok(
    parties: Seq<Party>,
    outputs1: Seq<(usize, GroupElement)>,
    outputs2: Seq<(OptimizedMessage, OptimizedSignatureAndSessionAuthentication)>,
    i: int,
    vk_str: Seq<char>,
    balances: Seq<u64>,
    min_bal: u64,
    upperbound: u64,
)
    requires
        0 <= i < parties.len(),
        outputs1.len() == parties.len(),
        outputs2.len() == parties.len(),
        balances.len() == parties.len(),
        valid_upperbound(upperbound),
        forall|j: int| 0 <= j < balances.len() ==> balances[j] >= min_bal,
        forall|j: int|
            0 <= j < balances.len() && balances[j] >= min_bal ==> balances[j] <= upperbound,
        forall|k: int|
            0 <= k < parties.len() ==> party_base_inv(
                #[trigger] parties[k],
                k,
                min_bal,
                balances[k],
                parties.len() as int,
            ),
        commitments_inv(parties, balances, upperbound),
        forall|k: int|
            0 <= k < parties.len() ==> (#[trigger] parties[k]).bd is Some
                && parties[k].bd->Some_0.x_i.wf() && parties[k].bd->Some_0.z_i.wf()
                && parties[k].bd->Some_0.z_i.b() == 0 && parties[k].bd->Some_0.z_i.a()
                == parties[k].bd->Some_0.x_i.val(),
        forall|k: int|
            0 <= k < parties.len() ==> (#[trigger] outputs1[k]).1.bytes@
                == parties[k].bd->Some_0.z_i.bytes@ && outputs1[k].1.exp@
                == parties[k].bd->Some_0.z_i.exp@,
        parties[i].vk is Some,
        parties[i].vk->Some_0.str_spec() == vk_str,
        forall|k: int|
            0 <= k < outputs2.len() ==> {
                let m = #[trigger] outputs2[k].0;
                &&& m.vk.str_spec() == vk_str
                &&& opt_sig_honest(
                    &outputs2[k].1,
                    parties[k].bd->Some_0.z_i.bytes@,
                    parties[k].bd->Some_0.x_i,
                    opt_message_str(&m),
                    encode_of(
                        (parties[k].commitments@[k].a() + min_bal) % group_order(),
                        parties[k].commitments@[k].b(),
                    ),
                    upperbound - (balances[k] - min_bal),
                    parties[k].blinding.val(),
                    upperbound,
                )
            },
    ensures
        forall|k: int|
            0 <= k < outputs2.len() && k != parties[i].idx as int ==> opt_msg_ok(
                &(#[trigger] outputs2[k]).0,
                &outputs2[k].1,
                parties[i].vk->Some_0.str_spec(),
                outputs1[k].1,
                encode_of(
                    (parties[i].commitments@[k].a() + min_bal) % group_order(),
                    parties[i].commitments@[k].b(),
                ),
                upperbound,
            ),
{
    let q = group_order();
    assert forall|k: int| 0 <= k < outputs2.len() && k != parties[i].idx as int implies opt_msg_ok(
        &(#[trigger] outputs2[k]).0,
        &outputs2[k].1,
        parties[i].vk->Some_0.str_spec(),
        outputs1[k].1,
        encode_of(
            (parties[i].commitments@[k].a() + min_bal) % q,
            parties[i].commitments@[k].b(),
        ),
        upperbound,
    ) by {
        let m = &outputs2[k].0;
        let sig = &outputs2[k].1;
        let y = outputs1[k].1;
        let w = parties[k].bd->Some_0.x_i;
        // the receiver's adjusted commitment encoding equals the signer's
        let ci = parties[i].commitments@[k];
        let ck = parties[k].commitments@[k];
        assert(ci.a() == ck.a() && ci.b() == ck.b());
        let cbytes = encode_of((ci.a() + min_bal) % q, ci.b());
        // the discrete-log proof verifies for the peer's ephemeral
        let aux = dlk_aux_str(opt_message_str(m), cbytes);
        assert(y.bytes@ == parties[k].bd->Some_0.z_i.bytes@);
        assert(y.a() == w.val() && y.b() == 0);
        lemma_dlk_completeness(y, &sig.discrete_log_knowledge_proof, w, aux);
    }
}

/// Copies a string.
fn clone_string(s: &String) -> (r: String)
    ensures
        r@ == s@,
{
    s.clone()
}

} // verus!
