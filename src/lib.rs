//! Orchestration of confidential bounty computations: a registry of
//! computation definitions, an argument codec, a keyed request store with its
//! callback dispatcher, and the append-only log of published bounty events.

pub mod circuit;
pub mod codec;
pub mod lemmas;
pub mod nonce;
pub mod offset;
pub mod program;
pub mod store;
