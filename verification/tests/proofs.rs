//! Proof-of-execution behaviour: the canonical message, signing, the wire
//! and packed forms, and multi-block aggregation.

use tee_prover::keypair::Keypair;
use tee_prover::pob::{get_base_fee_config, meta_hash, BaseFeeConfig, BlockHashMap,
    BlockMetaDataFork, OntakeMeta, Pob, PobData, StorageTrieMap};
use tee_prover::header::{Block, Header};
use tee_prover::poe::{decode_signed_poe, encode_signed_poe, Poe};
use tee_prover::prove::{pack_proof, ProveError};
use tee_prover::trie::StateTrie;
use tee_prover::words::{Address, B256, U256};

fn word(n: u8) -> B256 {
    B256::from_array([n; 32])
}

fn mk_header(number: u64) -> Header {
    Header {
        parent_hash: B256::zero(),
        ommers_hash: B256::zero(),
        beneficiary: Address::zero(),
        state_root: B256::zero(),
        transactions_root: B256::zero(),
        receipts_root: B256::zero(),
        logs_bloom: [0u8; 256],
        difficulty: U256::zero(),
        number,
        gas_limit: 30_000_000,
        gas_used: 0,
        timestamp: 1_700_000_000,
        extra_data: Vec::new(),
        mix_hash: B256::zero(),
        nonce: [0u8; 8],
        base_fee_per_gas: None,
        withdrawals_root: None,
        blob_gas_used: None,
        excess_blob_gas: None,
        parent_beacon_block_root: None,
    }
}

fn mk_pob(chain_id: u64, prover: Address) -> Pob {
    Pob {
        block: Block { header: mk_header(10), transactions: Vec::new(), withdrawals: None },
        data: PobData {
            chain_id,
            prev_state_root: B256::zero(),
            block_hashes: BlockHashMap::new(),
            mpt_nodes: StateTrie::new(),
            storage_mpt_nodes: StorageTrieMap::new(),
            codes: Vec::new(),
            l2_contract: None,
            l1_header: mk_header(1),
            l2_parent_header: mk_header(9),
            graffiti: word(0x11),
            l1_contract: None,
            prover,
            block_meta: BlockMetaDataFork::Nothing,
            base_fee_config: BaseFeeConfig::zeroed(),
        },
    }
}

fn mk_poe(tag: u8) -> Poe {
    Poe {
        parent_hash: word(tag),
        block_hash: word(tag + 1),
        state_root: word(tag + 2),
        graffiti: word(0x11),
    }
}

#[test]
fn signed_msg_layout() {
    let pob = mk_pob(167000, Address::from_array([0x22; 20]));
    let poe = mk_poe(1);
    let registry = Address::from_array([0x33; 20]);
    let instance = Address::from_array([0x44; 20]);
    let msg = poe.signed_msg(&pob, &registry, &instance);
    // Ten head words plus the length-prefixed, padded tag.
    assert_eq!(msg.len(), 384);
    // Word 0: the offset of the tag tail.
    assert_eq!(&msg[..32], &U256::from_u64(320).be);
    // Word 1: the chain id.
    assert_eq!(&msg[32..64], &U256::from_u64(167000).be);
    // Word 2: the registry address, left-padded.
    assert_eq!(&msg[64..76], &[0u8; 12]);
    assert_eq!(&msg[76..96], &registry.bytes);
    // Words 3..6: the proof fields.
    assert_eq!(&msg[96..128], &poe.parent_hash.bytes);
    assert_eq!(&msg[128..160], &poe.block_hash.bytes);
    assert_eq!(&msg[160..192], &poe.state_root.bytes);
    assert_eq!(&msg[192..224], &poe.graffiti.bytes);
    // Word 7 and 8: the instance and prover addresses.
    assert_eq!(&msg[236..256], &instance.bytes);
    assert_eq!(&msg[268..288], &pob.data.prover.bytes);
    // The tail: length 12, then the tag, zero-padded.
    assert_eq!(&msg[320..352], &U256::from_u64(12).be);
    assert_eq!(&msg[352..364], b"VERIFY_PROOF");
    assert_eq!(&msg[364..384], &[0u8; 20]);
}

#[test]
fn signed_msg_deterministic() {
    let pob = mk_pob(167000, Address::from_array([0x22; 20]));
    let poe = mk_poe(1);
    let registry = Address::from_array([0x33; 20]);
    let instance = Address::from_array([0x44; 20]);
    let a = poe.signed_msg(&pob, &registry, &instance);
    let b = poe.signed_msg(&pob, &registry, &instance);
    assert_eq!(a, b);
}

#[test]
fn signed_poe_round_trip() {
    let kp = Keypair::new();
    let pob = mk_pob(167000, Address::from_array([0x22; 20]));
    let poe = mk_poe(1);
    let registry = Address::from_array([0x33; 20]);
    let instance = kp.address();
    let sp = poe.sign(&pob, U256::from_u64(1), &registry, &instance, &kp, U256::from_u64(201));
    let encoded = encode_signed_poe(&sp);
    let back = decode_signed_poe(&encoded).unwrap();
    assert_eq!(back.poe.parent_hash.bytes, sp.poe.parent_hash.bytes);
    assert_eq!(back.poe.block_hash.bytes, sp.poe.block_hash.bytes);
    assert_eq!(back.poe.state_root.bytes, sp.poe.state_root.bytes);
    assert_eq!(back.poe.graffiti.bytes, sp.poe.graffiti.bytes);
    assert_eq!(back.id.be, sp.id.be);
    assert_eq!(back.new_instance.bytes, sp.new_instance.bytes);
    assert_eq!(back.signature, sp.signature);
    assert_eq!(back.tee_type.be, sp.tee_type.be);
}

#[test]
fn signed_poe_decode_rejects_tampering() {
    let kp = Keypair::new();
    let pob = mk_pob(167000, Address::from_array([0x22; 20]));
    let poe = mk_poe(1);
    let registry = Address::from_array([0x33; 20]);
    let instance = kp.address();
    let sp = poe.sign(&pob, U256::from_u64(1), &registry, &instance, &kp, U256::from_u64(201));
    let mut encoded = encode_signed_poe(&sp);
    encoded.push(0);
    assert!(decode_signed_poe(&encoded).is_none());
}

#[test]
fn packed_form() {
    let kp = Keypair::new();
    let pob = mk_pob(167000, Address::from_array([0x22; 20]));
    let poe = mk_poe(1);
    let registry = Address::from_array([0x33; 20]);
    let instance = kp.address();
    let id = U256::from_u64(0x01020304);
    let sp = poe.sign(&pob, id, &registry, &instance, &kp, U256::from_u64(201));
    let data = pack_proof(&sp);
    assert_eq!(data.len(), 89);
    assert_eq!(&data[..4], &id.be[28..32]);
    assert_eq!(&data[4..24], &sp.new_instance.bytes);
    assert_eq!(&data[24..89], &sp.signature[..]);
}

#[test]
fn aggregation_of_chained_span() {
    let kp = Keypair::new();
    let registry = Address::from_array([0x33; 20]);
    let instance = kp.address();
    let prover = Address::from_array([0x22; 20]);
    // Three proofs that chain: each parent hash is the previous block hash.
    let p0 = Poe { parent_hash: word(1), block_hash: word(2), state_root: word(21), graffiti: word(0x11) };
    let p1 = Poe { parent_hash: word(2), block_hash: word(3), state_root: word(22), graffiti: word(0x11) };
    let p2 = Poe { parent_hash: word(3), block_hash: word(4), state_root: word(23), graffiti: word(0x11) };
    let poes = vec![p0, p1, p2];
    let pobs = vec![mk_pob(167000, prover), mk_pob(167000, prover), mk_pob(167000, prover)];
    let sp = Poe::sign_multi(
        &poes,
        &pobs,
        U256::from_u64(1),
        &registry,
        &instance,
        &kp,
        U256::from_u64(201),
    )
    .unwrap();
    assert_eq!(sp.poe.parent_hash.bytes, word(1).bytes);
    assert_eq!(sp.poe.block_hash.bytes, word(4).bytes);
    assert_eq!(sp.poe.state_root.bytes, word(23).bytes);
    assert_eq!(sp.poe.graffiti.bytes, word(0x11).bytes);
}

#[test]
fn aggregation_rejects_broken_chain() {
    let kp = Keypair::new();
    let registry = Address::from_array([0x33; 20]);
    let instance = kp.address();
    let prover = Address::from_array([0x22; 20]);
    let p0 = Poe { parent_hash: word(1), block_hash: word(2), state_root: word(21), graffiti: word(0x11) };
    // A sibling in place of the chained block: its parent hash diverges.
    let p1 = Poe { parent_hash: word(9), block_hash: word(3), state_root: word(22), graffiti: word(0x11) };
    let p2 = Poe { parent_hash: word(3), block_hash: word(4), state_root: word(23), graffiti: word(0x11) };
    let poes = vec![p0, p1, p2];
    let pobs = vec![mk_pob(167000, prover), mk_pob(167000, prover), mk_pob(167000, prover)];
    match Poe::sign_multi(
        &poes,
        &pobs,
        U256::from_u64(1),
        &registry,
        &instance,
        &kp,
        U256::from_u64(201),
    ) {
        Err(ProveError::BlockHashMismatch { idx, cur, prev }) => {
            assert_eq!(idx, 1);
            assert_eq!(cur.parent_hash.bytes, word(9).bytes);
            assert_eq!(prev.block_hash.bytes, word(2).bytes);
        },
        _ => panic!("expected a block-hash mismatch at the substituted block"),
    }
}

#[test]
fn aggregation_of_one_equals_single_signature() {
    let kp = Keypair::new();
    let registry = Address::from_array([0x33; 20]);
    let instance = kp.address();
    let prover = Address::from_array([0x22; 20]);
    let p0 = mk_poe(1);
    let pob = mk_pob(167000, prover);
    let single = p0.sign(&pob, U256::from_u64(1), &registry, &instance, &kp, U256::from_u64(201));
    let poes = vec![p0];
    let pobs = vec![mk_pob(167000, prover)];
    let multi = Poe::sign_multi(
        &poes,
        &pobs,
        U256::from_u64(1),
        &registry,
        &instance,
        &kp,
        U256::from_u64(201),
    )
    .unwrap();
    assert_eq!(encode_signed_poe(&multi), encode_signed_poe(&single));
}

#[test]
fn aggregation_rejects_empty_span() {
    let kp = Keypair::new();
    let registry = Address::from_array([0x33; 20]);
    let instance = kp.address();
    let poes: Vec<Poe> = Vec::new();
    let pobs: Vec<Pob> = Vec::new();
    match Poe::sign_multi(
        &poes,
        &pobs,
        U256::from_u64(1),
        &registry,
        &instance,
        &kp,
        U256::from_u64(201),
    ) {
        Err(ProveError::MissingPoe) => {},
        _ => panic!("expected the empty span to be rejected"),
    }
}

#[test]
fn meta_hash_by_fork() {
    // Pre-fork metadata hashes the empty string.
    let none = meta_hash(&BlockMetaDataFork::Nothing);
    assert_eq!(none.bytes, alloy_primitives::keccak256([]).0);
    // Hekla and Ontake hash their encoded on-chain record.
    let encoded = vec![1u8, 2, 3, 4];
    let hekla = meta_hash(&BlockMetaDataFork::Hekla(encoded.clone()));
    assert_eq!(hekla.bytes, alloy_primitives::keccak256(&encoded).0);
    let ontake = meta_hash(&BlockMetaDataFork::Ontake(OntakeMeta {
        encoded: encoded.clone(),
        base_fee_config: BaseFeeConfig::zeroed(),
    }));
    assert_eq!(ontake.bytes, hekla.bytes);
}

#[test]
fn base_fee_config_by_fork() {
    let cfg = BaseFeeConfig {
        adjustment_quotient: 8,
        sharing_pctg: 75,
        gas_issuance_per_second: 5_000_000,
        min_gas_excess: 1_340_000_000,
        max_gas_issuance_per_block: 600_000_000,
    };
    let meta = BlockMetaDataFork::Ontake(OntakeMeta { encoded: Vec::new(), base_fee_config: cfg });
    assert_eq!(get_base_fee_config(&meta), cfg);
    // Every other fork reads zeros.
    assert_eq!(
        get_base_fee_config(&BlockMetaDataFork::Nothing),
        BaseFeeConfig::zeroed()
    );
}
