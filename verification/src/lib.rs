//! A cross-domain state-attestation core: a registry of watched accounts is
//! digested batch by batch into a single running root, independent adapters
//! publish their view of a root under a shared key, and a consensus checker
//! attests that enough adapters agree on one value.

pub mod adapter;
pub mod digest;
pub mod hashi;
pub mod hashing;
pub mod merkle;
pub mod message;
pub mod reporter;
pub mod slots;
pub mod snapshotter;
