//! The proof-of-block witness: everything deterministic re-execution needs.
//! Keyed collections carry `Map` views; reads are proved against them,
//! including the zero result of an out-of-window `BLOCKHASH` lookup.

use vstd::prelude::*;
use crate::words::{B256, U256, Address, zero32};
use crate::keccak::{keccak_of, keccak256, keccak256_vec};
use crate::header::{Header, Block, header_hash};
use crate::trie::StateTrie;
use crate::state::{StateAccount, account_rlp, storage_value_rlp, decode_account,
    decode_storage_value};

use crate::assoc::{assoc_map, assoc_unique, lemma_assoc_props, lemma_assoc_push,
    lemma_assoc_update};
use crate::api::ProofInput;

verus! {

/// Ancestor block hashes by number.
pub struct BlockHashMap {
    items: Vec<(u64, B256)>,
}

impl View for BlockHashMap {
    type V = Map<u64, Seq<u8>>;

    open spec fn view(&self) -> Map<u64, Seq<u8>> {
        assoc_map(self.kv_seq())
    }
}

impl BlockHashMap {
    /// The stored bindings.
    pub closed spec fn kv_seq(self) -> Seq<(u64, Seq<u8>)> {
        self.items@.map_values(|p: (u64, B256)| (p.0, p.1@))
    }

    /// Each number is bound once.
    pub closed spec fn wf(self) -> bool {
        assoc_unique(self.kv_seq())
    }

    /// The empty map.
    pub fn new() -> (r: BlockHashMap)
        ensures
            r.wf(),
            r@ == Map::<u64, Seq<u8>>::empty(),
    {
        let r = BlockHashMap { items: Vec::new() };
        assert(r.kv_seq() =~= Seq::<(u64, Seq<u8>)>::empty());
        r
    }

    /// Bind a block number to its hash, replacing any previous binding.
    pub fn insert(&mut self, number: u64, hash: B256)
        requires
            old(self).wf(),
        ensures
            final(self).wf(),
            final(self)@ == old(self)@.insert(number, hash@),
    {
        let ghost s_old = self.kv_seq();
        let n = self.items.len();
        let mut i: usize = 0;
        while i < n
            invariant
                self.kv_seq() == s_old,
                s_old == old(self).kv_seq(),
                assoc_unique(s_old),
                n == self.items@.len(),
                i <= n,
                forall|j: int| 0 <= j < i ==> s_old[j].0 != number,
            decreases n - i,
        {
            if self.items[i].0 == number {
                self.items.remove(i);
                self.items.insert(i, (number, hash));
                proof {
                    assert(self.kv_seq() =~= s_old.update(i as int, (number, hash@)));
                    lemma_assoc_update(s_old, i as int, number, hash@);
                }
                return;
            }
            i = i + 1;
        }
        self.items.push((number, hash));
        proof {
            assert(self.kv_seq() =~= s_old.push((number, hash@)));
            lemma_assoc_push(s_old, number, hash@);
        }
    }

    /// Look a block number up.
    pub fn get(&self, number: u64) -> (r: Option<B256>)
        requires
            self.wf(),
        ensures
            match r {
                Some(h) => self@.contains_key(number) && h@ == self@[number],
                None => !self@.contains_key(number),
            },
    {
        proof {
            lemma_assoc_props(self.kv_seq());
        }
        let n = self.items.len();
        let mut i: usize = 0;
        while i < n
            invariant
                self.wf(),
                n == self.items@.len(),
                i <= n,
                forall|j: int| 0 <= j < i ==> self.kv_seq()[j].0 != number,
            decreases n - i,
        {
            if self.items[i].0 == number {
                assert(self.kv_seq()[i as int] == (number, self.items@[i as int].1@));
                proof {
                    lemma_assoc_props(self.kv_seq());
                }
                return Some(self.items[i].1);
            }
            i = i + 1;
        }
        proof {
            if self@.contains_key(number) {
                let j = choose|j: int|
                    0 <= j < self.kv_seq().len() && #[trigger] self.kv_seq()[j].0 == number;
                assert(false);
            }
        }
        None
    }
}

/// Per-account storage tries, keyed by address.
pub struct StorageTrieMap {
    items: Vec<(Address, StateTrie)>,
}

impl View for StorageTrieMap {
    type V = Map<Seq<u8>, Seq<(Seq<u8>, Seq<u8>)>>;

    open spec fn view(&self) -> Map<Seq<u8>, Seq<(Seq<u8>, Seq<u8>)>> {
        assoc_map(self.kv_seq())
    }
}

impl StorageTrieMap {
    /// The stored bindings: address bytes to the trie's bindings.
    pub closed spec fn kv_seq(self) -> Seq<(Seq<u8>, Seq<(Seq<u8>, Seq<u8>)>)> {
        self.items@.map_values(|p: (Address, StateTrie)| (p.0@, p.1.kv_seq()))
    }

    /// Addresses are bound once and every stored trie is well-formed.
    pub closed spec fn wf(self) -> bool {
        assoc_unique(self.kv_seq()) && (forall|i: int|
            0 <= i < self.items@.len() ==> (#[trigger] self.items@[i].1).wf())
    }

    /// The empty map.
    pub fn new() -> (r: StorageTrieMap)
        ensures
            r.wf(),
            r@ == Map::<Seq<u8>, Seq<(Seq<u8>, Seq<u8>)>>::empty(),
    {
        let r = StorageTrieMap { items: Vec::new() };
        assert(r.kv_seq() =~= Seq::<(Seq<u8>, Seq<(Seq<u8>, Seq<u8>)>)>::empty());
        r
    }

    /// Bind an address to its storage trie, replacing any previous binding.
    pub fn insert(&mut self, addr: &Address, trie: StateTrie)
        requires
            old(self).wf(),
            trie.wf(),
        ensures
            final(self).wf(),
            final(self)@ == old(self)@.insert(addr@, trie.kv_seq()),
    {
        let ghost s_old = self.kv_seq();
        let n = self.items.len();
        let mut i: usize = 0;
        while i < n
            invariant
                self.kv_seq() == s_old,
                s_old == old(self).kv_seq(),
                self.wf(),
                trie.wf(),
                n == self.items@.len(),
                i <= n,
                forall|j: int| 0 <= j < i ==> s_old[j].0 != addr@,
            decreases n - i,
        {
            if self.items[i].0.eq_bytes(addr) {
                self.items.remove(i);
                self.items.insert(i, (*addr, trie));
                proof {
                    assert(self.kv_seq() =~= s_old.update(
                        i as int,
                        (addr@, self.items@[i as int].1.kv_seq()),
                    ));
                    lemma_assoc_update(s_old, i as int, addr@, self.items@[i as int].1.kv_seq());
                }
                return;
            }
            i = i + 1;
        }
        self.items.push((*addr, trie));
        proof {
            let t = self.items@.last().1;
            assert(self.kv_seq() =~= s_old.push((addr@, t.kv_seq())));
            lemma_assoc_push(s_old, addr@, t.kv_seq());
        }
    }

    /// Borrow the storage trie of an address.
    pub fn get(&self, addr: &Address) -> (r: Option<&StateTrie>)
        requires
            self.wf(),
        ensures
            match r {
                Some(t) => self@.contains_key(addr@) && t.kv_seq() == self@[addr@] && t.wf(),
                None => !self@.contains_key(addr@),
            },
    {
        proof {
            lemma_assoc_props(self.kv_seq());
        }
        let n = self.items.len();
        let mut i: usize = 0;
        while i < n
            invariant
                self.wf(),
                n == self.items@.len(),
                i <= n,
                forall|j: int| 0 <= j < i ==> self.kv_seq()[j].0 != addr@,
            decreases n - i,
        {
            if self.items[i].0.eq_bytes(addr) {
                assert(self.kv_seq()[i as int].0 == addr@);
                proof {
                    lemma_assoc_props(self.kv_seq());
                }
                return Some(&self.items[i].1);
            }
            i = i + 1;
        }
        proof {
            if self@.contains_key(addr@) {
                let j = choose|j: int|
                    0 <= j < self.kv_seq().len() && #[trigger] self.kv_seq()[j].0 == addr@;
                assert(false);
            }
        }
        None
    }
}

/// The base-fee parameters the rollup consensus carries in its metadata.
#[derive(Clone, Copy, Debug, PartialEq, Eq)]
pub struct BaseFeeConfig {
    pub adjustment_quotient: u8,
    pub sharing_pctg: u8,
    pub gas_issuance_per_second: u32,
    pub min_gas_excess: u64,
    pub max_gas_issuance_per_block: u32,
}

impl BaseFeeConfig {
    /// The all-zero configuration used outside the Ontake fork.
    pub fn zeroed() -> (r: BaseFeeConfig)
        ensures
            r == (BaseFeeConfig {
                adjustment_quotient: 0u8,
                sharing_pctg: 0u8,
                gas_issuance_per_second: 0u32,
                min_gas_excess: 0u64,
                max_gas_issuance_per_block: 0u32,
            }),
    {
        BaseFeeConfig {
            adjustment_quotient: 0,
            sharing_pctg: 0,
            gas_issuance_per_second: 0,
            min_gas_excess: 0,
            max_gas_issuance_per_block: 0,
        }
    }
}

/// Ontake-fork metadata: its canonical ABI encoding, plus the base-fee
/// parameters the execution extension reads from it.
#[derive(Clone, Debug)]
pub struct OntakeMeta {
    /// The ABI encoding of the on-chain `BlockMetadataV2` record.
    pub encoded: Vec<u8>,
    pub base_fee_config: BaseFeeConfig,
}

/// Block metadata, tagged by the fork that produced it.  Pre-fork blocks
/// carry none; Hekla and Ontake blocks carry the ABI encoding of their
/// on-chain metadata record.
#[derive(Clone, Debug)]
pub enum BlockMetaDataFork {
    Nothing,
    Hekla(Vec<u8>),
    Ontake(OntakeMeta),
}

/// The hash bound into the signed message: keccak of the metadata's ABI
/// encoding, with the empty string for pre-fork blocks.
pub open spec fn meta_hash_spec(bm: BlockMetaDataFork) -> Seq<u8> {
    match bm {
        BlockMetaDataFork::Nothing => keccak_of(Seq::empty()),
        BlockMetaDataFork::Hekla(b) => keccak_of(b@),
        BlockMetaDataFork::Ontake(m) => keccak_of(m.encoded@),
    }
}

/// Compute the metadata hash.
pub fn meta_hash(bm: &BlockMetaDataFork) -> (r: B256)
    ensures
        r@ == meta_hash_spec(*bm),
        r@.len() == 32,
{
    match bm {
        BlockMetaDataFork::Nothing => {
            let empty: Vec<u8> = Vec::new();
            assert(empty@ =~= Seq::<u8>::empty());
            keccak256_vec(&empty)
        },
        BlockMetaDataFork::Hekla(b) => keccak256(b.as_slice()),
        BlockMetaDataFork::Ontake(m) => keccak256(m.encoded.as_slice()),
    }
}

/// The base-fee configuration a metadata record carries: Ontake's own
/// parameters, zeros for every other fork.
pub open spec fn base_fee_config_spec(bm: BlockMetaDataFork) -> BaseFeeConfig {
    match bm {
        BlockMetaDataFork::Ontake(m) => m.base_fee_config,
        _ => BaseFeeConfig {
            adjustment_quotient: 0u8,
            sharing_pctg: 0u8,
            gas_issuance_per_second: 0u32,
            min_gas_excess: 0u64,
            max_gas_issuance_per_block: 0u32,
        },
    }
}

/// Read the base-fee configuration out of a metadata record.
pub fn get_base_fee_config(bm: &BlockMetaDataFork) -> (r: BaseFeeConfig)
    ensures
        r == base_fee_config_spec(*bm),
{
    match bm {
        BlockMetaDataFork::Ontake(m) => m.base_fee_config,
        _ => BaseFeeConfig::zeroed(),
    }
}

/// The slice of the chain configuration the witness carries: the id and
/// the rollup contract addresses.
#[derive(Clone, Copy, Debug, PartialEq, Eq)]
pub struct ChainSpec {
    pub chain_id: u64,
    pub l1_contract: Option<Address>,
    pub l2_contract: Option<Address>,
}

/// The execution extension handed to the EVM driver.
#[derive(Clone, Debug)]
pub struct TaikoData {
    pub l2_contract: Address,
    pub l1_header: Header,
    pub parent_header: Header,
    pub base_fee_config: BaseFeeConfig,
}

/// The witness data beside the block itself.
pub struct PobData {
    pub chain_id: u64,
    /// The state root before the block.
    pub prev_state_root: B256,
    /// Hashes of the ancestors a `BLOCKHASH` lookup may reach.
    pub block_hashes: BlockHashMap,
    /// The pre-state account trie.
    pub mpt_nodes: StateTrie,
    /// The pre-state storage trie of each touched account.
    pub storage_mpt_nodes: StorageTrieMap,
    /// Every contract code executed code may load by hash.
    pub codes: Vec<Vec<u8>>,
    pub l2_contract: Option<Address>,
    pub l1_header: Header,
    pub l2_parent_header: Header,
    pub graffiti: B256,
    pub l1_contract: Option<Address>,
    pub prover: Address,
    pub block_meta: BlockMetaDataFork,
    pub base_fee_config: BaseFeeConfig,
}

/// A proof-of-block bundle: the block and the witness it executes against.
pub struct Pob {
    pub block: Block,
    pub data: PobData,
}

/// Why a witness read failed: the witness is incomplete or inconsistent.
#[derive(Clone, Debug, PartialEq, Eq)]
pub enum ProviderError {
    /// The trie value under the account key is not a canonical account
    /// record.
    AccountRlp { addr: Address },
    /// The trie value under the slot key is not a canonical scalar.
    SlotRlp { addr: Address, slot: U256 },
    /// The storage trie of the account does not hash to the root its
    /// account record claims.
    StorageRootMismatch { addr: Address, got: B256, want: B256 },
    /// No contract code is known under the digest.
    StateForHashNotFound { hash: B256 },
    /// The witness carries no storage trie for the account: the witness
    /// is incomplete.
    MissingStorageTrie { addr: Address },
    /// A storage read named an account the state trie does not hold.
    MissingAccount { addr: Address },
}

/// Whether the state map binds the address's key to the canonical record
/// of this account.
pub open spec fn has_account_record(
    state: Map<Seq<u8>, Seq<u8>>,
    addr: Seq<u8>,
    a: StateAccount,
) -> bool {
    state.contains_key(keccak_of(addr)) && state[keccak_of(addr)] == account_rlp(a)
}

/// The root digest of a storage trie's bindings.
pub open spec fn storage_trie_root(st: Seq<(Seq<u8>, Seq<u8>)>) -> Seq<u8> {
    keccak_of(crate::rlp::rlp_list(crate::trie::trie_payload(st)))
}

/// The ancestor-hash map a header sequence denotes.
pub open spec fn ancestor_hash_map(hs: Seq<Header>) -> Map<u64, Seq<u8>>
    decreases hs.len(),
{
    if hs.len() == 0 {
        Map::empty()
    } else {
        ancestor_hash_map(hs.drop_last()).insert(hs.last().number, header_hash(hs.last()))
    }
}

impl Pob {
    /// The witness collections are well-formed.
    pub open spec fn wf(self) -> bool {
        &&& self.data.block_hashes.wf()
        &&& self.data.mpt_nodes.wf()
        &&& self.data.storage_mpt_nodes.wf()
    }

    /// Project a proof input into the witness bundle: ancestor hashes are
    /// indexed by number (the parent header last), the tries and codes are
    /// carried over, and the metadata determines the base-fee parameters.
    pub fn from_input(input: ProofInput) -> (r: Pob)
        requires
            input.parent_state_trie.wf(),
            input.parent_storage.wf(),
        ensures
            r.wf(),
            r.block == input.l2_block,
            r.data.chain_id == input.chain_spec.chain_id,
            r.data.prev_state_root@ == input.parent_header.state_root@,
            r.data.block_hashes@ == ancestor_hash_map(input.ancestor_headers@).insert(
                input.parent_header.number,
                header_hash(input.parent_header),
            ),
            r.data.mpt_nodes == input.parent_state_trie,
            r.data.storage_mpt_nodes == input.parent_storage,
            r.data.codes == input.contracts,
            r.data.l1_header == input.taiko.l1_header,
            r.data.l2_parent_header == input.parent_header,
            r.data.l1_contract == input.chain_spec.l1_contract,
            r.data.l2_contract == input.chain_spec.l2_contract,
            r.data.graffiti == input.taiko.prover_data.graffiti,
            r.data.prover == input.taiko.prover_data.prover,
            r.data.block_meta == input.taiko.metadata,
            r.data.base_fee_config == base_fee_config_spec(input.taiko.metadata),
    {
        let mut block_hashes = BlockHashMap::new();
        let n = input.ancestor_headers.len();
        let mut i: usize = 0;
        while i < n
            invariant
                block_hashes.wf(),
                n == input.ancestor_headers@.len(),
                i <= n,
                block_hashes@ == ancestor_hash_map(input.ancestor_headers@.take(i as int)),
            decreases n - i,
        {
            let h = input.ancestor_headers[i].hash();
            block_hashes.insert(input.ancestor_headers[i].number, h);
            proof {
                let hs = input.ancestor_headers@;
                assert(hs.take(i + 1).drop_last() =~= hs.take(i as int));
                assert(hs.take(i + 1).last() == hs[i as int]);
            }
            i = i + 1;
        }
        assert(input.ancestor_headers@.take(n as int) =~= input.ancestor_headers@);
        let parent_hash = input.parent_header.hash();
        block_hashes.insert(input.parent_header.number, parent_hash);
        let base_fee_config = get_base_fee_config(&input.taiko.metadata);
        let data = PobData {
            chain_id: input.chain_spec.chain_id,
            prev_state_root: input.parent_header.state_root,
            block_hashes,
            mpt_nodes: input.parent_state_trie,
            storage_mpt_nodes: input.parent_storage,
            codes: input.contracts,
            l1_header: input.taiko.l1_header,
            l1_contract: input.chain_spec.l1_contract,
            l2_contract: input.chain_spec.l2_contract,
            l2_parent_header: input.parent_header,
            graffiti: input.taiko.prover_data.graffiti,
            prover: input.taiko.prover_data.prover,
            base_fee_config,
            block_meta: input.taiko.metadata,
        };
        Pob { block: input.l2_block, data }
    }

    pub fn chain_id(&self) -> (r: u64)
        ensures
            r == self.data.chain_id,
    {
        self.data.chain_id
    }

    /// The `BLOCKHASH` source: the recorded hash of the ancestor, or the
    /// zero word for any number outside the recorded window.
    pub fn block_hash(&self, number: u64) -> (r: B256)
        requires
            self.wf(),
        ensures
            self.data.block_hashes@.contains_key(number) ==> r@
                == self.data.block_hashes@[number],
            !self.data.block_hashes@.contains_key(number) ==> r@ == zero32(),
    {
        match self.data.block_hashes.get(number) {
            Some(h) => h,
            None => B256::zero(),
        }
    }

    /// The execution extension for this block.
    pub fn ext_data(&self) -> (r: TaikoData)
        ensures
            r.l2_contract@ == match self.data.l2_contract {
                Some(a) => a@,
                None => Seq::new(20, |i: int| 0u8),
            },
            crate::header::header_eq(r.l1_header, self.data.l1_header),
            crate::header::header_eq(r.parent_header, self.data.l2_parent_header),
            r.base_fee_config == self.data.base_fee_config,
    {
        let l2_contract = match &self.data.l2_contract {
            Some(a) => *a,
            None => Address::zero(),
        };
        TaikoData {
            l2_contract,
            l1_header: self.data.l1_header.duplicate(),
            parent_header: self.data.l2_parent_header.duplicate(),
            base_fee_config: self.data.base_fee_config,
        }
    }

    /// Read the account record of an address out of the state trie.
    pub fn get_acc(&self, addr: &Address) -> (r: Result<Option<StateAccount>, ProviderError>)
        requires
            self.wf(),
        ensures
            match r {
                Ok(Some(a)) => self.data.mpt_nodes@.contains_key(keccak_of(addr@))
                    && self.data.mpt_nodes@[keccak_of(addr@)] == account_rlp(a),
                Ok(None) => !self.data.mpt_nodes@.contains_key(keccak_of(addr@)),
                Err(e) => e == (ProviderError::AccountRlp { addr: *addr })
                    && self.data.mpt_nodes@.contains_key(keccak_of(addr@)) && (forall|
                    a: StateAccount,
                |
                    self.data.mpt_nodes@[keccak_of(addr@)] != #[trigger] account_rlp(a)),
            },
    {
        let key = keccak256(addr.bytes.as_slice());
        match self.data.mpt_nodes.get(&key) {
            Some(value) => match decode_account(value.as_slice()) {
                Some(a) => Ok(Some(a)),
                None => {
                    proof {
                        assert forall|a: StateAccount|
                            self.data.mpt_nodes@[keccak_of(addr@)] != #[trigger] account_rlp(
                                a,
                            ) by {
                            if value@ == account_rlp(a) {
                            }
                        }
                    }
                    Err(ProviderError::AccountRlp { addr: *addr })
                },
            },
            None => Ok(None),
        }
    }

    /// Read a storage slot out of the account's storage trie, after
    /// checking the trie against the root the account record claims.  A
    /// missing storage trie is a fatal witness error; an absent slot reads
    /// as `None`, which the database layer turns into zero.
    pub fn get_slot(&self, addr: &Address, root: &B256, slot: &U256) -> (r: Result<
        Option<U256>,
        ProviderError,
    >)
        requires
            self.wf(),
        ensures
            match r {
                Ok(v) => {
                    &&& self.data.storage_mpt_nodes@.contains_key(addr@)
                    &&& ({
                        let st = self.data.storage_mpt_nodes@[addr@];
                        &&& storage_trie_root(st) == root@
                        &&& match v {
                            Some(val) => crate::trie::map_of(st).contains_key(keccak_of(slot@))
                                && crate::trie::map_of(st)[keccak_of(slot@)] == storage_value_rlp(
                                val@,
                            ),
                            None => !crate::trie::map_of(st).contains_key(keccak_of(slot@)),
                        }
                    })
                },
                Err(ProviderError::MissingStorageTrie { addr: a }) => a == *addr
                    && !self.data.storage_mpt_nodes@.contains_key(addr@),
                Err(ProviderError::StorageRootMismatch { addr: a, got, want }) => {
                    &&& a == *addr
                    &&& want == *root
                    &&& self.data.storage_mpt_nodes@.contains_key(addr@)
                    &&& got@ == storage_trie_root(self.data.storage_mpt_nodes@[addr@])
                    &&& got@ != root@
                },
                Err(ProviderError::SlotRlp { addr: a, slot: s }) => {
                    &&& a == *addr
                    &&& s == *slot
                    &&& self.data.storage_mpt_nodes@.contains_key(addr@)
                    &&& ({
                        let st = self.data.storage_mpt_nodes@[addr@];
                        &&& storage_trie_root(st) == root@
                        &&& crate::trie::map_of(st).contains_key(keccak_of(slot@))
                        &&& (forall|val: U256|
                            crate::trie::map_of(st)[keccak_of(slot@)] != storage_value_rlp(
                                #[trigger] val@,
                            ))
                    })
                },
                Err(_) => false,
            },
    {
        let storage_trie = match self.data.storage_mpt_nodes.get(addr) {
            Some(t) => t,
            None => {
                return Err(ProviderError::MissingStorageTrie { addr: *addr });
            },
        };
        let storage_hash = storage_trie.hash();
        if !storage_hash.eq_bytes(root) {
            return Err(ProviderError::StorageRootMismatch {
                addr: *addr,
                got: storage_hash,
                want: *root,
            });
        }
        let slot_key = keccak256(slot.be.as_slice());
        match storage_trie.get(&slot_key) {
            Some(value) => match decode_storage_value(value.as_slice()) {
                Some(v) => Ok(Some(v)),
                None => {
                    proof {
                        let st = self.data.storage_mpt_nodes@[addr@];
                        assert forall|val: U256|
                            crate::trie::map_of(st)[keccak_of(slot@)] != storage_value_rlp(
                                #[trigger] val@,
                            ) by {
                            if value@ == storage_value_rlp(val@) {
                            }
                        }
                    }
                    Err(ProviderError::SlotRlp { addr: *addr, slot: *slot })
                },
            },
            None => Ok(None),
        }
    }

    pub fn state_trie(&self) -> (r: &StateTrie)
        ensures
            r == &self.data.mpt_nodes,
    {
        &self.data.mpt_nodes
    }

    pub fn contract_codes(&self) -> (r: &Vec<Vec<u8>>)
        ensures
            r == &self.data.codes,
    {
        &self.data.codes
    }
}

} // verus!
