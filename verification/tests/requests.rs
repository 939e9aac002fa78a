//! The request pipeline end to end at the model level: witness projection,
//! proving, the unregistered-prover error, and the response forms.

use tee_prover::api::{ProofInput, ProofTaikoInput, TaikoProverData};
use tee_prover::executor::ExecutionOutcome;
use tee_prover::header::{Block, Header};
use tee_prover::keypair::KeypairStore;
use tee_prover::pob::{BlockMetaDataFork, ChainSpec, Pob, StorageTrieMap};
use tee_prover::poe::decode_signed_poe;
use tee_prover::prove::{prove, Prover, ProveError};
use tee_prover::trie::StateTrie;
use tee_prover::words::{Address, B256, U256};

fn mk_header(number: u64, state_root: B256) -> Header {
    Header {
        parent_hash: B256::zero(),
        ommers_hash: B256::zero(),
        beneficiary: Address::zero(),
        state_root,
        transactions_root: B256::zero(),
        receipts_root: B256::zero(),
        logs_bloom: [0u8; 256],
        difficulty: U256::zero(),
        number,
        gas_limit: 30_000_000,
        gas_used: 0,
        timestamp: 1_700_000_000,
        extra_data: Vec::new(),
        mix_hash: B256::zero(),
        nonce: [0u8; 8],
        base_fee_per_gas: Some(7),
        withdrawals_root: None,
        blob_gas_used: None,
        excess_blob_gas: None,
        parent_beacon_block_root: None,
    }
}

/// A witness whose empty block the executor accepts: the pre-state trie is
/// empty and the block header claims its root.
fn accepting_input() -> ProofInput {
    let trie = StateTrie::new();
    let root = trie.hash();
    ProofInput {
        l2_block: Block { header: mk_header(10, root), transactions: Vec::new(), withdrawals: None },
        parent_header: mk_header(9, root),
        chain_spec: ChainSpec { chain_id: 167000, l1_contract: None, l2_contract: None },
        parent_state_trie: trie,
        parent_storage: StorageTrieMap::new(),
        contracts: Vec::new(),
        ancestor_headers: Vec::new(),
        taiko: ProofTaikoInput {
            l1_header: mk_header(1, B256::zero()),
            metadata: BlockMetaDataFork::Nothing,
            prover_data: TaikoProverData {
                prover: Address::from_array([0x22; 20]),
                graffiti: B256::from_array([0x11; 32]),
            },
        },
    }
}

fn empty_outcome() -> ExecutionOutcome {
    ExecutionOutcome { changes: Vec::new(), valid_transaction_indices: Vec::new() }
}

#[test]
fn witness_projection() {
    let input = accepting_input();
    let parent_hash = input.parent_header.hash();
    let parent_number = input.parent_header.number;
    let graffiti = input.taiko.prover_data.graffiti;
    let pob = Pob::from_input(input);
    assert_eq!(pob.data.chain_id, 167000);
    assert_eq!(pob.data.graffiti.bytes, graffiti.bytes);
    // The parent header's hash is recorded under its number.
    assert_eq!(pob.block_hash(parent_number).bytes, parent_hash.bytes);
    // Outside the window the lookup reads zero.
    assert_eq!(pob.block_hash(1).bytes, [0u8; 32]);
}

#[test]
fn prover_not_registered() {
    let store = KeypairStore::new();
    let registry = Address::from_array([0x33; 20]);
    let supported = vec![167000u64];
    match prove(
        accepting_input(),
        &empty_outcome(),
        &supported,
        &registry,
        &store,
        U256::from_u64(201),
    ) {
        Err(ProveError::ProverNotRegistered) => {},
        _ => panic!("an uncommitted identity must be rejected"),
    }
}

#[test]
fn proving_after_commit() {
    let mut store = KeypairStore::new();
    let staged = store.rotate();
    staged.commit(&mut store, U256::from_u64(1));
    let registry = Address::from_array([0x33; 20]);
    let supported = vec![167000u64];
    let input = accepting_input();
    let expected_parent = input.parent_header.hash();
    let expected_block = input.l2_block.header.hash();
    let sp = prove(
        input,
        &empty_outcome(),
        &supported,
        &registry,
        &store,
        U256::from_u64(201),
    )
    .unwrap();
    assert_eq!(sp.poe.parent_hash.bytes, expected_parent.bytes);
    assert_eq!(sp.poe.block_hash.bytes, expected_block.bytes);
    assert_eq!(sp.id.be, U256::from_u64(1).be);
    let (_, addr, _) = store.info().unwrap();
    assert_eq!(sp.new_instance.bytes, addr.bytes);
    assert_eq!(sp.signature.len(), 65);
}

#[test]
fn reproving_is_deterministic() {
    let mut store = KeypairStore::new();
    let staged = store.rotate();
    staged.commit(&mut store, U256::from_u64(1));
    let registry = Address::from_array([0x33; 20]);
    let supported = vec![167000u64];
    let a = prove(
        accepting_input(),
        &empty_outcome(),
        &supported,
        &registry,
        &store,
        U256::from_u64(201),
    )
    .unwrap();
    let b = prove(
        accepting_input(),
        &empty_outcome(),
        &supported,
        &registry,
        &store,
        U256::from_u64(201),
    )
    .unwrap();
    assert_eq!(a.signature, b.signature);
    assert_eq!(a.poe.block_hash.bytes, b.poe.block_hash.bytes);
}

#[test]
fn response_forms() {
    let mut store = KeypairStore::new();
    let staged = store.rotate();
    staged.commit(&mut store, U256::from_u64(5));
    let registry = Address::from_array([0x33; 20]);
    let prover = Prover::new(store, registry, U256::from_u64(201), 4, vec![167000u64]);

    // The packed form: version 1 and 89 bytes.
    let resp = prover.prove(accepting_input(), &empty_outcome()).unwrap();
    assert_eq!(resp.version, 1);
    assert_eq!(resp.data.len(), 89);
    assert_eq!(&resp.data[..4], &[0, 0, 0, 5]);

    // The wire form decodes back to a signed proof.
    let resp = prover.gen_proof(accepting_input(), &empty_outcome()).unwrap();
    assert_eq!(resp.version, 1);
    let sp = decode_signed_poe(&resp.data).unwrap();
    assert_eq!(sp.id.be, U256::from_u64(5).be);

    // A chained span of one block in the packed form.
    let resp = prover
        .prove_multi(vec![accepting_input()], vec![empty_outcome()])
        .unwrap();
    assert_eq!(resp.version, 1);
    assert_eq!(resp.data.len(), 89);
}

#[test]
fn multi_block_chaining() {
    let mut store = KeypairStore::new();
    let staged = store.rotate();
    staged.commit(&mut store, U256::from_u64(1));
    let registry = Address::from_array([0x33; 20]);
    let supported = vec![167000u64];
    // Two consecutive empty blocks over the same (empty) state: block 10's
    // header is block 11's parent.
    let first = accepting_input();
    let mut second = accepting_input();
    second.parent_header = first.l2_block.header.clone();
    second.l2_block.header.number = 11;
    let expected_parent = first.parent_header.hash();
    let expected_block = second.l2_block.header.hash();
    let sp = tee_prover::prove::prove_multi_blocks(
        vec![first, second],
        vec![empty_outcome(), empty_outcome()],
        &supported,
        &registry,
        &store,
        U256::from_u64(201),
    )
    .unwrap();
    assert_eq!(sp.poe.parent_hash.bytes, expected_parent.bytes);
    assert_eq!(sp.poe.block_hash.bytes, expected_block.bytes);
}
