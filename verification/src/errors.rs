//! Error kinds raised by validation and by peer verification.

use crate::encoding::{dec_of, usize_to_string, u64_to_string};
use vstd::prelude::*;

verus! {

/// Everything that can go wrong while setting up or running a key exchange.
///
/// Validation errors are raised at setup; protocol errors are raised by the
/// first peer verification that fails and abort the whole exchange.
#[derive(PartialEq, Eq, Structural, Debug)]
pub enum WakeError {
    /// The balance list does not have one entry per party.
    BalanceLength,
    /// A balance is below the public minimum.
    BalanceBelowMin,
    /// The upperbound is not one of 2^8-1, 2^16-1, 2^32-1, 2^64-1.
    InvalidUpperbound { upperbound: u64 },
    /// The upperbound handed to the proof systems is not a valid power bound.
    UpperboundLog,
    /// A range proof was requested for a balance below the minimum.
    RangeProofBelowMin,
    /// A peer reported a nonce table different from the local one.
    InvalidNonces,
    /// A peer reported an ephemeral table different from the local one.
    InvalidVk,
    /// A message carried the wrong round index.
    WrongRoundNumber { found: usize },
    /// A range proof, discrete-log proof or SNARK failed to verify.
    SignatureVerificationFailed,
    /// A round result list does not have one entry per party.
    InvalidLength { expected: usize, found: usize },
}

impl WakeError {
    /// The diagnostic text of this error.
    pub fn message(&self) -> (r: String)
        ensures
            self is BalanceLength ==> r@ == "balances not correct length"@,
            self is BalanceBelowMin ==> r@ == "one or more balances are smaller than minimum_balance"@,
            self is RangeProofBelowMin ==> r@ == "minimum balance requirement was not met"@,
            self is InvalidNonces ==> r@ == "Invalid nonces"@,
            self is InvalidVk ==> r@ == "Invalid VK was send"@,
            self is SignatureVerificationFailed ==> r@ == "Verification of signature failed"@,
            self is UpperboundLog ==> r@ == "Upperbound should be either 2^8, 2^16, 2^32 or 2^64"@,
            self is WrongRoundNumber ==> r@ == "Incorrect round number "@ + dec_of(
                self->WrongRoundNumber_found as int,
            ),
            self is InvalidUpperbound ==> r@
                == "upperbound was not among the valid values: 255, 65535, 4294967295, 18446744073709551615\n was: "@
                + dec_of(self->InvalidUpperbound_upperbound as int),
            self is InvalidLength ==> r@ == "Invalid length expected: "@ + dec_of(
                self->InvalidLength_expected as int,
            ) + ", found "@ + dec_of(self->InvalidLength_found as int),
    {
        match self {
            WakeError::BalanceLength => "balances not correct length".to_string(),
            WakeError::BalanceBelowMin => {
                "one or more balances are smaller than minimum_balance".to_string()
            },
            WakeError::InvalidUpperbound { upperbound } => {
                let mut s = "upperbound was not among the valid values: 255, 65535, 4294967295, 18446744073709551615\n was: ".to_string();
                let tail = u64_to_string(*upperbound);
                s.append(tail.as_str());
                s
            },
            WakeError::UpperboundLog => {
                "Upperbound should be either 2^8, 2^16, 2^32 or 2^64".to_string()
            },
            WakeError::RangeProofBelowMin => "minimum balance requirement was not met".to_string(),
            WakeError::InvalidNonces => "Invalid nonces".to_string(),
            WakeError::InvalidVk => "Invalid VK was send".to_string(),
            WakeError::WrongRoundNumber { found } => {
                let mut s = "Incorrect round number ".to_string();
                let tail = usize_to_string(*found);
                s.append(tail.as_str());
                s
            },
            WakeError::SignatureVerificationFailed => {
                "Verification of signature failed".to_string()
            },
            WakeError::InvalidLength { expected, found } => {
                let mut s = "Invalid length expected: ".to_string();
                let e = usize_to_string(*expected);
                s.append(e.as_str());
                s.append(", found ");
                let f = usize_to_string(*found);
                s.append(f.as_str());
                s
            },
        }
    }
}

} // verus!
