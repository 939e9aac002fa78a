//! Trie behaviour: map semantics, the content-determined root, and the
//! state-diff application of the executor.

use tee_prover::executor::{AccountChange, BlockExecutor, ExecutionError, ExecutionOutcome, MemDB,
    StorageChange};
use tee_prover::header::{Block, Header};
use tee_prover::keccak::keccak256;
use tee_prover::pob::{BaseFeeConfig, BlockHashMap, BlockMetaDataFork, ChainSpec, Pob, PobData,
    StorageTrieMap};
use tee_prover::state::{encode_account, encode_storage_value, decode_account, StateAccount};
use tee_prover::trie::StateTrie;
use tee_prover::words::{Address, B256, U256};

fn key(n: u8) -> B256 {
    B256::from_array([n; 32])
}

fn mk_header(number: u64, state_root: B256, parent_hash: B256) -> Header {
    Header {
        parent_hash,
        ommers_hash: B256::zero(),
        beneficiary: Address::zero(),
        state_root,
        transactions_root: B256::zero(),
        receipts_root: B256::zero(),
        logs_bloom: [0u8; 256],
        difficulty: U256::zero(),
        number,
        gas_limit: 30_000_000,
        gas_used: 0,
        timestamp: 1_700_000_000,
        extra_data: Vec::new(),
        mix_hash: B256::zero(),
        nonce: [0u8; 8],
        base_fee_per_gas: Some(7),
        withdrawals_root: None,
        blob_gas_used: None,
        excess_blob_gas: None,
        parent_beacon_block_root: None,
    }
}

fn mk_pob(state_trie: StateTrie, storage: StorageTrieMap, header: Header) -> Pob {
    let prev_root = state_trie.hash();
    let parent = mk_header(header.number - 1, prev_root, B256::zero());
    Pob {
        block: Block { header, transactions: Vec::new(), withdrawals: None },
        data: PobData {
            chain_id: 167000,
            prev_state_root: prev_root,
            block_hashes: BlockHashMap::new(),
            mpt_nodes: state_trie,
            storage_mpt_nodes: storage,
            codes: Vec::new(),
            l2_contract: None,
            l1_header: mk_header(1, B256::zero(), B256::zero()),
            l2_parent_header: parent,
            graffiti: B256::zero(),
            l1_contract: None,
            prover: Address::zero(),
            block_meta: BlockMetaDataFork::Nothing,
            base_fee_config: BaseFeeConfig::zeroed(),
        },
    }
}

#[test]
fn trie_get_insert_delete() {
    let mut t = StateTrie::new();
    assert!(t.get(&key(1)).is_none());
    t.insert(&key(1), vec![1, 2, 3]);
    t.insert(&key(2), vec![4]);
    assert_eq!(t.get(&key(1)).unwrap(), vec![1, 2, 3]);
    assert_eq!(t.get(&key(2)).unwrap(), vec![4]);
    t.insert(&key(1), vec![9]);
    assert_eq!(t.get(&key(1)).unwrap(), vec![9]);
    t.delete(&key(1));
    assert!(t.get(&key(1)).is_none());
    assert_eq!(t.get(&key(2)).unwrap(), vec![4]);
}

#[test]
fn trie_root_ignores_insertion_order() {
    let mut a = StateTrie::new();
    a.insert(&key(3), vec![3]);
    a.insert(&key(1), vec![1]);
    a.insert(&key(2), vec![2]);
    let mut b = StateTrie::new();
    b.insert(&key(1), vec![1]);
    b.insert(&key(2), vec![2]);
    b.insert(&key(3), vec![3]);
    assert_eq!(a.hash().bytes, b.hash().bytes);
}

#[test]
fn trie_root_tracks_contents() {
    let mut a = StateTrie::new();
    let empty_root = a.hash();
    a.insert(&key(1), vec![1]);
    let one_root = a.hash();
    assert_ne!(empty_root.bytes, one_root.bytes);
    a.delete(&key(1));
    assert_eq!(a.hash().bytes, empty_root.bytes);
}

#[test]
fn account_record_round_trip() {
    let acc = StateAccount {
        nonce: 7,
        balance: U256::from_u64(1_000_000),
        storage_root: key(9),
        code_hash: key(8),
    };
    let enc = encode_account(&acc);
    let back = decode_account(&enc).unwrap();
    assert_eq!(back, acc);
}

#[test]
fn account_record_rejects_padding() {
    let acc = StateAccount {
        nonce: 0,
        balance: U256::zero(),
        storage_root: key(1),
        code_hash: key(2),
    };
    let mut enc = encode_account(&acc);
    enc.push(0);
    assert!(decode_account(&enc).is_none());
}

/// An empty body is accepted exactly when the header's state root equals
/// the pre-state root.
#[test]
fn empty_block_accepts_iff_roots_match() {
    let trie = StateTrie::new();
    let root = trie.hash();
    let header = mk_header(5, root, B256::zero());
    let pob = mk_pob(trie, StorageTrieMap::new(), header);
    let executor = BlockExecutor::new(pob);
    let outcome = ExecutionOutcome { changes: Vec::new(), valid_transaction_indices: Vec::new() };
    let supported = vec![167000u64];
    let new_root = executor.execute(&supported, &outcome).unwrap();
    assert_eq!(new_root.bytes, root.bytes);

    let trie = StateTrie::new();
    let header = mk_header(5, key(7), B256::zero());
    let pob = mk_pob(trie, StorageTrieMap::new(), header);
    let executor = BlockExecutor::new(pob);
    let outcome = ExecutionOutcome { changes: Vec::new(), valid_transaction_indices: Vec::new() };
    match executor.execute(&supported, &outcome) {
        Err(ExecutionError::StateRootMismatch { remote, local }) => {
            assert_eq!(remote.bytes, key(7).bytes);
            assert_ne!(local.bytes, remote.bytes);
        },
        other => panic!("expected a state-root mismatch, got {:?}", other.is_ok()),
    }
}

#[test]
fn unknown_chain_id_is_rejected() {
    let trie = StateTrie::new();
    let root = trie.hash();
    let header = mk_header(5, root, B256::zero());
    let pob = mk_pob(trie, StorageTrieMap::new(), header);
    let executor = BlockExecutor::new(pob);
    let outcome = ExecutionOutcome { changes: Vec::new(), valid_transaction_indices: Vec::new() };
    let supported = vec![1u64];
    match executor.execute(&supported, &outcome) {
        Err(ExecutionError::UnsupportChainId { chain_id, supported }) => {
            assert_eq!(chain_id, 167000);
            assert_eq!(supported, vec![1u64]);
        },
        _ => panic!("expected an unsupported chain id"),
    }
}

#[test]
fn missing_transaction_is_rejected() {
    let trie = StateTrie::new();
    let root = trie.hash();
    let header = mk_header(5, root, B256::zero());
    let mut pob = mk_pob(trie, StorageTrieMap::new(), header);
    pob.block.transactions.push(vec![0x01]);
    pob.block.transactions.push(vec![0x02]);
    let executor = BlockExecutor::new(pob);
    let outcome = ExecutionOutcome {
        changes: Vec::new(),
        valid_transaction_indices: vec![0],
    };
    let supported = vec![167000u64];
    match executor.execute(&supported, &outcome) {
        Err(ExecutionError::NotAllTransactionExecuted { remote, local }) => {
            assert_eq!(remote, vec![0, 1]);
            assert_eq!(local, vec![0]);
        },
        _ => panic!("expected a transaction-count mismatch"),
    }
}

/// A diff that writes one slot produces exactly the post-trie built by
/// hand; a mutated witness slot shows up as a state-root mismatch.
#[test]
fn state_diff_and_root_mismatch() {
    let addr = Address::from_array([0xaa; 20]);
    let slot = U256::from_u64(1);
    let value = U256::from_u64(42);

    // The account's storage trie after the write, built by hand.
    let mut expected_storage = StateTrie::new();
    let slot_key = keccak256(&slot.be);
    expected_storage.insert(&slot_key, encode_storage_value(&value));
    let storage_root = expected_storage.hash();

    // The expected post-state trie.
    let account = StateAccount {
        nonce: 1,
        balance: U256::from_u64(100),
        storage_root,
        code_hash: B256::zero(),
    };
    let mut expected_state = StateTrie::new();
    let addr_key = keccak256(&addr.bytes);
    expected_state.insert(&addr_key, encode_account(&account));
    let expected_root = expected_state.hash();

    // The witness: empty pre-state with an empty storage trie on file.
    let mut storage = StorageTrieMap::new();
    storage.insert(&addr, StateTrie::new());
    let header = mk_header(5, expected_root, B256::zero());
    let pob = mk_pob(StateTrie::new(), storage, header);
    let executor = BlockExecutor::new(pob);
    let outcome = ExecutionOutcome {
        changes: vec![AccountChange {
            address: addr,
            status_empty: false,
            selfdestructed: false,
            nonce: 1,
            balance: U256::from_u64(100),
            code_hash: B256::zero(),
            storage: vec![StorageChange { slot, present_value: value }],
        }],
        valid_transaction_indices: Vec::new(),
    };
    let supported = vec![167000u64];
    let new_root = executor.execute(&supported, &outcome).unwrap();
    assert_eq!(new_root.bytes, expected_root.bytes);

    // Mutate the witness storage trie: the recomputed root diverges.
    let mut tampered = StorageTrieMap::new();
    let mut pre = StateTrie::new();
    pre.insert(&keccak256(&U256::from_u64(9).be), encode_storage_value(&U256::from_u64(1)));
    tampered.insert(&addr, pre);
    let header = mk_header(5, expected_root, B256::zero());
    let pob = mk_pob(StateTrie::new(), tampered, header);
    let executor = BlockExecutor::new(pob);
    let outcome = ExecutionOutcome {
        changes: vec![AccountChange {
            address: addr,
            status_empty: false,
            selfdestructed: false,
            nonce: 1,
            balance: U256::from_u64(100),
            code_hash: B256::zero(),
            storage: vec![StorageChange { slot, present_value: value }],
        }],
        valid_transaction_indices: Vec::new(),
    };
    match executor.execute(&supported, &outcome) {
        Err(ExecutionError::StateRootMismatch { remote, local }) => {
            assert_eq!(remote.bytes, expected_root.bytes);
            assert_ne!(local.bytes, remote.bytes);
        },
        _ => panic!("expected a state-root mismatch"),
    }
}

/// Zeroing a slot deletes it: the post storage trie holds no entry at the
/// slot's key.
#[test]
fn zeroed_slot_is_deleted() {
    let addr = Address::from_array([0xbb; 20]);
    let slot = U256::from_u64(3);
    let slot_key = keccak256(&slot.be);

    // Witness: the slot holds 5 before the block.
    let mut pre_storage = StateTrie::new();
    pre_storage.insert(&slot_key, encode_storage_value(&U256::from_u64(5)));
    let mut storage = StorageTrieMap::new();
    storage.insert(&addr, pre_storage);

    let header = mk_header(5, B256::zero(), B256::zero());
    let pob = mk_pob(StateTrie::new(), storage, header);
    let db = MemDB::new(pob);
    let outcome_changes = vec![AccountChange {
        address: addr,
        status_empty: false,
        selfdestructed: false,
        nonce: 0,
        balance: U256::zero(),
        code_hash: B256::zero(),
        storage: vec![StorageChange { slot, present_value: U256::zero() }],
    }];
    let new_trie = db.apply_changes(&outcome_changes).unwrap();

    // The post-state account's storage root is that of the empty trie.
    let addr_key = keccak256(&addr.bytes);
    let record = new_trie.get(&addr_key).unwrap();
    let account = tee_prover::state::decode_account(&record).unwrap();
    let empty_root = StateTrie::new().hash();
    assert_eq!(account.storage_root.bytes, empty_root.bytes);
}

#[test]
fn selfdestructed_account_is_removed() {
    let addr = Address::from_array([0xcc; 20]);
    let addr_key = keccak256(&addr.bytes);
    let mut state = StateTrie::new();
    let account = StateAccount {
        nonce: 1,
        balance: U256::from_u64(5),
        storage_root: StateTrie::new().hash(),
        code_hash: B256::zero(),
    };
    state.insert(&addr_key, encode_account(&account));
    let header = mk_header(5, B256::zero(), B256::zero());
    let pob = mk_pob(state, StorageTrieMap::new(), header);
    let db = MemDB::new(pob);
    let changes = vec![AccountChange {
        address: addr,
        status_empty: false,
        selfdestructed: true,
        nonce: 0,
        balance: U256::zero(),
        code_hash: B256::zero(),
        storage: Vec::new(),
    }];
    let new_trie = db.apply_changes(&changes).unwrap();
    assert!(new_trie.get(&addr_key).is_none());
}

/// A witness that lacks an account's storage trie is incomplete: both
/// the slot read and the diff application fail on it.
#[test]
fn missing_storage_trie_is_fatal() {
    let addr = Address::from_array([0xab; 20]);
    let addr_key = keccak256(&addr.bytes);
    let account = StateAccount {
        nonce: 1,
        balance: U256::from_u64(5),
        storage_root: StateTrie::new().hash(),
        code_hash: B256::zero(),
    };
    let mut state = StateTrie::new();
    state.insert(&addr_key, encode_account(&account));
    let header = mk_header(5, B256::zero(), B256::zero());
    // The storage map is empty: no trie for the account.
    let pob = mk_pob(state, StorageTrieMap::new(), header);
    let db = MemDB::new(pob);
    assert!(matches!(
        db.storage(&addr, &U256::from_u64(1)),
        Err(tee_prover::pob::ProviderError::MissingStorageTrie { .. })
    ));
    let changes = vec![AccountChange {
        address: addr,
        status_empty: false,
        selfdestructed: false,
        nonce: 2,
        balance: U256::from_u64(6),
        code_hash: B256::zero(),
        storage: Vec::new(),
    }];
    assert!(matches!(
        db.apply_changes(&changes),
        Err(ExecutionError::MissingStorageTrie { .. })
    ));
}

/// The database read side: accounts, slots, and code by hash.
#[test]
fn memdb_reads() {
    let addr = Address::from_array([0xdd; 20]);
    let addr_key = keccak256(&addr.bytes);
    let slot = U256::from_u64(2);
    let slot_key = keccak256(&slot.be);
    let code = vec![0x60u8, 0x00, 0x60, 0x00];
    let code_hash = keccak256(&code);

    let mut storage_trie = StateTrie::new();
    storage_trie.insert(&slot_key, encode_storage_value(&U256::from_u64(99)));
    let storage_root = storage_trie.hash();
    let mut storage = StorageTrieMap::new();
    storage.insert(&addr, storage_trie);

    let account = StateAccount {
        nonce: 3,
        balance: U256::from_u64(1000),
        storage_root,
        code_hash,
    };
    let mut state = StateTrie::new();
    state.insert(&addr_key, encode_account(&account));

    let header = mk_header(5, B256::zero(), B256::zero());
    let mut pob = mk_pob(state, storage, header);
    pob.data.codes.push(code.clone());
    let db = MemDB::new(pob);

    // Account projection.
    let info = db.basic(&addr).unwrap().unwrap();
    assert_eq!(info.nonce, 3);
    assert_eq!(info.balance.be, U256::from_u64(1000).be);
    assert_eq!(info.code_hash.bytes, code_hash.bytes);
    assert!(db.basic(&Address::from_array([0xee; 20])).unwrap().is_none());

    // Slot reads: a bound slot, and an absent one reading zero.
    let v = db.storage(&addr, &slot).unwrap();
    assert_eq!(v.be, U256::from_u64(99).be);
    let v = db.storage(&addr, &U256::from_u64(7)).unwrap();
    assert_eq!(v.be, U256::zero().be);

    // Code by hash; an unknown digest is a witness error.
    assert_eq!(db.code_by_hash(&code_hash).unwrap(), code);
    assert!(db.code_by_hash(&B256::from_array([9u8; 32])).is_err());
}

#[test]
fn block_hash_window() {
    let mut map = BlockHashMap::new();
    map.insert(100, key(1));
    let trie = StateTrie::new();
    let root = trie.hash();
    let header = mk_header(5, root, B256::zero());
    let mut pob = mk_pob(trie, StorageTrieMap::new(), header);
    pob.data.block_hashes = map;
    // Inside the recorded window: the recorded hash.
    assert_eq!(pob.block_hash(100).bytes, key(1).bytes);
    // Outside the window: the zero word.
    assert_eq!(pob.block_hash(99).bytes, [0u8; 32]);
}
