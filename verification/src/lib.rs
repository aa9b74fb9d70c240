//! Verified core of a privacy-preserving identity credential system:
//! BBS+-style signatures and selective-disclosure proofs over BLS12-381,
//! Shamir secret sharing, a hardware-entropy service, delegation tokens,
//! and a k-anonymity submission buffer.
pub mod attestation;
pub mod cbor;
mod curve;
mod delegation;
mod field;
mod hashes;
pub mod lease;
pub mod miner;
pub mod periwinkle;
mod shamir;
mod sig;
mod wire;
mod zkp;

pub use curve::{G1Elem, G2Elem};
pub use delegation::{sign_delegation, verify_delegation_signature, DelegationToken};
pub use field::Fr;
pub use hashes::hash_to_scalar;
pub use shamir::{reconstruct_secret, reconstruct_secret_safe, split_secret, split_secret_safe};
pub use sig::{generate_linkage_tag, sign, verify_signature_safe, VerifyError};
pub use wire::le_val;
pub use zkp::{create_proof, verify_proof_safe};
