//! The request and response shapes of the proving interface, on plain
//! values.  The transport that carries them is outside the library.

use vstd::prelude::*;
use crate::words::{B256, Address};
use crate::header::{Header, Block};
use crate::trie::StateTrie;
use crate::pob::{StorageTrieMap, BlockMetaDataFork, ChainSpec};

verus! {

/// The prover identity and tag carried through the witness.
#[derive(Clone, Copy, Debug, PartialEq, Eq)]
pub struct TaikoProverData {
    pub prover: Address,
    pub graffiti: B256,
}

/// The rollup-specific part of a proof input.
pub struct ProofTaikoInput {
    /// The synced L1 header.
    pub l1_header: Header,
    /// The L2 block metadata, tagged by fork.
    pub metadata: BlockMetaDataFork,
    /// The prover identity data.
    pub prover_data: TaikoProverData,
}

/// A self-contained execution witness as it arrives in a request.
pub struct ProofInput {
    pub l2_block: Block,
    pub parent_header: Header,
    pub chain_spec: ChainSpec,
    pub parent_state_trie: StateTrie,
    pub parent_storage: StorageTrieMap,
    pub contracts: Vec<Vec<u8>>,
    pub ancestor_headers: Vec<Header>,
    pub taiko: ProofTaikoInput,
}

/// The body of a proving request.
pub struct ProofRequest {
    pub input: ProofInput,
}

/// A proving response: a version tag and the encoded proof bytes.
#[derive(Clone, Debug, PartialEq, Eq)]
pub struct ProofResponse {
    pub version: u64,
    pub data: Vec<u8>,
}

/// A request to build the witness from an execution node instead of
/// carrying it inline.
#[derive(Clone, Debug, PartialEq, Eq, Hash)]
pub struct ProveByExecutionNode {
    pub url: String,
    pub start_block: u64,
    pub end_block: u64,
}

/// The response of the witness-based proving interface: the post-state
/// root of the executed span.
#[derive(Clone, Copy, Debug, PartialEq, Eq)]
pub struct ProveResp {
    pub new_state_root: B256,
}

} // verus!
