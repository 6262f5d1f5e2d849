//! State transition of a lean consensus chain: slots, block headers,
//! attestations, justification and finalization.

pub mod attestation;
pub mod block;
pub mod bytes;
pub mod chain;
pub mod checkpoint;
pub mod collections;
pub mod commitments;
pub mod config;
pub mod consistency;
pub mod coverage;
pub mod encoding;
pub mod error;
pub mod hashing;
pub mod justifiability;
pub mod laws;
pub mod model;
pub mod selection;
pub mod slot;
pub mod state;
pub mod steps;
pub mod validator;
pub mod votes;
pub mod voting;
pub mod whole_calls;
