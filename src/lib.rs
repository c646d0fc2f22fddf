//! Signing core of a hardware-wallet application: command dispatch, key
//! derivation, domain-separated hashing, Schnorr signatures and Pedersen
//! commitments over the Ristretto group.

pub mod encoding;
pub mod errors;
pub mod hashing;
pub mod keys;
pub mod schnorr;
pub mod pedersen;
pub mod derivation;
pub mod instruction;
pub mod array_string;
pub mod dispatcher;
pub mod client;
pub mod wallet;
