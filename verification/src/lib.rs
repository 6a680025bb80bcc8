//! Witness-authenticated key exchange (WAKE) for a dark-pool setting.
//!
//! A fixed set of parties, each holding a secret account balance, jointly
//! derive a shared group key over the Ristretto group while each proves in
//! zero knowledge that its balance lies in a public range.  Two protocol
//! families are provided: a three-round compiler construction whose broadcast
//! messages carry a range-proof signature, and a two-round optimized
//! construction that fuses the first Burmester-Desmedt round with a Schnorr
//! proof of knowledge of the round-one ephemeral.

pub mod encoding;
pub mod burmester_desmedt;
pub mod compiler_bp_wake;
pub mod dlk;
pub mod errors;
pub mod fp;
pub mod group;
pub mod optimized_bp_wake;
pub mod proof_system_gm17;
pub mod range_proof;
pub mod session;
pub mod utility;
