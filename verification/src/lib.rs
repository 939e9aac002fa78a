//! Verified core of a TEE-backed block-execution prover for a Taiko-style L2
//! rollup.
//!
//! The library turns a proof-of-block witness into a signed proof of
//! execution: it reconstructs the pre-state trie, applies the state diff an
//! EVM run produced, checks the post-state root against the block header,
//! builds the four-word proof of execution, and signs its canonical
//! ABI-encoded message with the process identity key.  Key rotation, the
//! attestation report, the registry event and revert decoding, and the
//! attestation-loop decisions are modelled on plain values and verified here;
//! the network transports around them live outside the library.

pub mod words;
pub mod keccak;
pub mod rlp;
pub mod trie;
pub mod assoc;
pub mod state;
pub mod header;
pub mod pob;
pub mod executor;
pub mod abi;
pub mod keypair;
pub mod poe;
pub mod prove;
pub mod registry;
pub mod tee;
pub mod attest_loop;
pub mod config;
pub mod ima;
pub mod api;
pub mod hex_bytes;
