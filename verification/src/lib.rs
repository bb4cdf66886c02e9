//! Verified core of eas-attestor: a job that collects on-chain data through an RPC quorum, encodes
//! it against an EAS schema, signs it, and has it broadcast.
//!
//! The library does no input or output. `session::Session` takes a job step by step.

pub mod abi;
pub mod bytes;
pub mod config;
pub mod eas;
pub mod env;
pub mod evm;
pub mod guarantees;
pub mod job;
pub mod json;
pub mod keccak;
pub mod order;
pub mod outcomes;
pub mod rpc;
pub mod session;
pub mod sign;
pub mod sources;
pub mod tape;
pub mod text;
pub mod wire;
