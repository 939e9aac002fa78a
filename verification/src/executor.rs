//! The block executor's verified half: the in-memory state database over
//! the witness, the application of an execution's state diff to the trie,
//! and the checks that every transaction ran and that the post-state root
//! matches the block header.

use vstd::prelude::*;
use crate::words::{B256, U256, Address, zero32};
use crate::keccak::{keccak_of, keccak256, keccak256_vec};
use crate::trie::{StateTrie, map_of, root_of_map, lemma_root_of_map};
use crate::state::{StateAccount, account_rlp, storage_value_rlp, encode_account,
    encode_storage_value};
use crate::assoc::{assoc_map, assoc_unique, lemma_assoc_props, lemma_assoc_push,
    lemma_assoc_update};
use crate::pob::{Pob, ProviderError, has_account_record, storage_trie_root};
use crate::words::slice_to_vec;

verus! {

/// Why a block fails verification.
#[derive(Clone, Debug, PartialEq, Eq)]
pub enum ExecutionError {
    /// The chain id has no registered specification.
    UnsupportChainId { chain_id: u64, supported: Vec<u64> },
    /// The witness trie does not hash to the claimed pre-state root.
    PrevStateRootMismatch { remote: B256, local: B256 },
    /// The set of executed transaction indices is not the whole body.
    NotAllTransactionExecuted { remote: Vec<usize>, local: Vec<usize> },
    /// A touched account has no storage trie in the witness.
    MissingStorageTrie { addr: Address },
    /// The post-state trie does not hash to the header's state root.
    StateRootMismatch { remote: B256, local: B256 },
    /// A witness read failed while serving execution.
    Provider(ProviderError),
}

/// One storage slot write of an executed transaction.
#[derive(Clone, Copy, Debug, PartialEq, Eq)]
pub struct StorageChange {
    pub slot: U256,
    pub present_value: U256,
}

/// The post-execution state of one touched account.
#[derive(Clone, Debug)]
pub struct AccountChange {
    pub address: Address,
    /// The account ended empty and is skipped.
    pub status_empty: bool,
    /// The account self-destructed and its entry is deleted.
    pub selfdestructed: bool,
    pub nonce: u64,
    pub balance: U256,
    pub code_hash: B256,
    pub storage: Vec<StorageChange>,
}

/// What the EVM run reports back: the touched accounts and the indices of
/// the transactions that executed.
pub struct ExecutionOutcome {
    pub changes: Vec<AccountChange>,
    pub valid_transaction_indices: Vec<usize>,
}

/// A storage map after one sequence of slot writes: zero values delete the
/// slot, others bind it to the RLP of the value, each under the keccak of
/// the 32-byte slot index.
pub open spec fn apply_storage_changes(st: Map<Seq<u8>, Seq<u8>>, cs: Seq<StorageChange>) -> Map<
    Seq<u8>,
    Seq<u8>,
>
    decreases cs.len(),
{
    if cs.len() == 0 {
        st
    } else {
        let prev = apply_storage_changes(st, cs.drop_last());
        let c = cs.last();
        if c.present_value@ == zero32() {
            prev.remove(keccak_of(c.slot@))
        } else {
            prev.insert(keccak_of(c.slot@), storage_value_rlp(c.present_value@))
        }
    }
}

/// The RLP record of an account given as raw parts.
pub open spec fn account_rlp_parts(
    nonce: u64,
    balance: Seq<u8>,
    storage_root: Seq<u8>,
    code_hash: Seq<u8>,
) -> Seq<u8> {
    crate::rlp::rlp_list(
        crate::rlp::rlp_u64(nonce) + crate::rlp::rlp_u256(balance) + crate::rlp::rlp_str(
            storage_root,
        ) + crate::rlp::rlp_str(code_hash),
    )
}

/// A state map after one account's change: empty accounts are skipped,
/// self-destructed entries deleted, and every other account re-inserted
/// with its storage re-rooted from the witness trie.
pub open spec fn apply_account_change(
    state: Map<Seq<u8>, Seq<u8>>,
    storages: Map<Seq<u8>, Seq<(Seq<u8>, Seq<u8>)>>,
    c: AccountChange,
) -> Result<Map<Seq<u8>, Seq<u8>>, ExecutionError> {
    if c.status_empty {
        Ok(state)
    } else if c.selfdestructed {
        Ok(state.remove(keccak_of(c.address@)))
    } else if !storages.contains_key(c.address@) {
        Err(ExecutionError::MissingStorageTrie { addr: c.address })
    } else {
        let st0 = map_of(storages[c.address@]);
        let st1 = apply_storage_changes(st0, c.storage@);
        let root = root_of_map(st1);
        Ok(
            state.insert(
                keccak_of(c.address@),
                account_rlp_parts(c.nonce, c.balance@, root, c.code_hash@),
            ),
        )
    }
}

/// A state map after a whole change set, account by account; the first
/// missing storage trie aborts.
pub open spec fn apply_changes_spec(
    state: Map<Seq<u8>, Seq<u8>>,
    storages: Map<Seq<u8>, Seq<(Seq<u8>, Seq<u8>)>>,
    cs: Seq<AccountChange>,
) -> Result<Map<Seq<u8>, Seq<u8>>, ExecutionError>
    decreases cs.len(),
{
    if cs.len() == 0 {
        Ok(state)
    } else {
        match apply_changes_spec(state, storages, cs.drop_last()) {
            Ok(m) => apply_account_change(m, storages, cs.last()),
            Err(e) => Err(e),
        }
    }
}

/// Once a prefix of the change set fails, the whole set fails the same
/// way.
pub proof fn lemma_apply_err_persists(
    state: Map<Seq<u8>, Seq<u8>>,
    storages: Map<Seq<u8>, Seq<(Seq<u8>, Seq<u8>)>>,
    cs: Seq<AccountChange>,
    k: int,
)
    requires
        0 <= k <= cs.len(),
        apply_changes_spec(state, storages, cs.take(k)) is Err,
    ensures
        apply_changes_spec(state, storages, cs) == apply_changes_spec(state, storages, cs.take(k)),
    decreases cs.len() - k,
{
    if k < cs.len() {
        assert(cs.take(k + 1).drop_last() =~= cs.take(k));
        assert(apply_changes_spec(state, storages, cs.take(k + 1)) == apply_changes_spec(
            state,
            storages,
            cs.take(k),
        ));
        lemma_apply_err_persists(state, storages, cs, k + 1);
    } else {
        assert(cs.take(k) =~= cs);
    }
}

/// Every transaction of a body of `n` executed, in order.
pub open spec fn indices_complete(s: Seq<usize>, n: nat) -> bool {
    s.len() == n && (forall|i: int| 0 <= i < s.len() ==> s[i] == i)
}

/// Contract codes indexed by their keccak digest.
pub open spec fn code_map_spec(codes: Seq<Vec<u8>>) -> Map<Seq<u8>, Seq<u8>>
    decreases codes.len(),
{
    if codes.len() == 0 {
        Map::empty()
    } else {
        code_map_spec(codes.drop_last()).insert(keccak_of(codes.last()@), codes.last()@)
    }
}

/// Account state as the EVM reads it; the code itself is always fetched by
/// hash.
#[derive(Clone, Copy, Debug, PartialEq, Eq)]
pub struct AccountInfo {
    pub balance: U256,
    pub nonce: u64,
    pub code_hash: B256,
}

/// The in-memory state database over one witness: account and slot reads
/// through the tries, code by hash, ancestor hashes by number.
pub struct MemDB {
    pob: Pob,
    contracts: Vec<(B256, Vec<u8>)>,
}

impl MemDB {
    /// The code bindings.
    pub closed spec fn contracts_view(self) -> Map<Seq<u8>, Seq<u8>> {
        assoc_map(self.contracts@.map_values(|p: (B256, Vec<u8>)| (p.0@, p.1@)))
    }

    /// The witness this database serves.
    pub closed spec fn pob(self) -> Pob {
        self.pob
    }

    pub closed spec fn wf(self) -> bool {
        self.pob.wf() && assoc_unique(self.contracts@.map_values(|p: (B256, Vec<u8>)| (p.0@, p.1@)))
    }

    /// Ingest a witness: index every contract code blob by its digest.
    pub fn new(pob: Pob) -> (r: MemDB)
        requires
            pob.wf(),
        ensures
            r.wf(),
            r.pob() == pob,
            r.contracts_view() == code_map_spec(pob.data.codes@),
    {
        let mut contracts: Vec<(B256, Vec<u8>)> = Vec::new();
        let n = pob.data.codes.len();
        let mut i: usize = 0;
        while i < n
            invariant
                n == pob.data.codes@.len(),
                i <= n,
                assoc_unique(contracts@.map_values(|p: (B256, Vec<u8>)| (p.0@, p.1@))),
                assoc_map(contracts@.map_values(|p: (B256, Vec<u8>)| (p.0@, p.1@)))
                    == code_map_spec(pob.data.codes@.take(i as int)),
            decreases n - i,
        {
            let code = slice_to_vec(pob.data.codes[i].as_slice());
            let hash = keccak256_vec(&code);
            insert_code(&mut contracts, hash, code);
            proof {
                let cs = pob.data.codes@;
                assert(cs.take(i + 1).drop_last() =~= cs.take(i as int));
                assert(cs.take(i + 1).last() == cs[i as int]);
            }
            i = i + 1;
        }
        assert(pob.data.codes@.take(n as int) =~= pob.data.codes@);
        MemDB { pob, contracts }
    }

    /// Borrow the witness.
    pub fn witness(&self) -> (r: &Pob)
        ensures
            *r == self.pob(),
    {
        &self.pob
    }

    /// Give the witness back.
    pub fn into_pob(self) -> (r: Pob)
        ensures
            r == self.pob(),
    {
        self.pob
    }

    /// Look an account up: the trie record projected to what the EVM needs.
    pub fn basic(&self, address: &Address) -> (r: Result<Option<AccountInfo>, ProviderError>)
        requires
            self.wf(),
        ensures
            match r {
                Ok(Some(info)) => exists|a: StateAccount|
                    self.pob().data.mpt_nodes@.contains_key(keccak_of(address@))
                        && self.pob().data.mpt_nodes@[keccak_of(address@)] == account_rlp(a)
                        && info.balance == a.balance && info.nonce == a.nonce && info.code_hash
                        == a.code_hash,
                Ok(None) => !self.pob().data.mpt_nodes@.contains_key(keccak_of(address@)),
                Err(e) => e == (ProviderError::AccountRlp { addr: *address })
                    && self.pob().data.mpt_nodes@.contains_key(keccak_of(address@)) && (forall|
                    a: StateAccount,
                |
                    self.pob().data.mpt_nodes@[keccak_of(address@)] != #[trigger] account_rlp(a)),
            },
    {
        match self.pob.get_acc(address) {
            Ok(Some(a)) => {
                let info = AccountInfo {
                    balance: a.balance,
                    nonce: a.nonce,
                    code_hash: a.code_hash,
                };
                assert(self.pob().data.mpt_nodes@[keccak_of(address@)] == account_rlp(a)
                    && info.balance == a.balance && info.nonce == a.nonce && info.code_hash
                    == a.code_hash);
                Ok(Some(info))
            },
            Ok(None) => Ok(None),
            Err(e) => Err(e),
        }
    }

    /// The `BLOCKHASH` read: a recorded ancestor's hash, or zero outside
    /// the window.
    pub fn block_hash(&self, number: u64) -> (r: B256)
        requires
            self.wf(),
        ensures
            self.pob().data.block_hashes@.contains_key(number) ==> r@
                == self.pob().data.block_hashes@[number],
            !self.pob().data.block_hashes@.contains_key(number) ==> r@ == zero32(),
    {
        self.pob.block_hash(number)
    }

    /// Fetch a contract code by its digest; an unknown digest is a fatal
    /// witness error.
    pub fn code_by_hash(&self, code_hash: &B256) -> (r: Result<Vec<u8>, ProviderError>)
        requires
            self.wf(),
        ensures
            match r {
                Ok(c) => self.contracts_view().contains_key(code_hash@) && c@
                    == self.contracts_view()[code_hash@],
                Err(e) => !self.contracts_view().contains_key(code_hash@) && e == (
                ProviderError::StateForHashNotFound { hash: *code_hash }),
            },
    {
        let ghost s = self.contracts@.map_values(|p: (B256, Vec<u8>)| (p.0@, p.1@));
        proof {
            lemma_assoc_props(s);
        }
        let n = self.contracts.len();
        let mut i: usize = 0;
        while i < n
            invariant
                self.wf(),
                s == self.contracts@.map_values(|p: (B256, Vec<u8>)| (p.0@, p.1@)),
                n == self.contracts@.len(),
                i <= n,
                forall|j: int| 0 <= j < i ==> s[j].0 != code_hash@,
            decreases n - i,
        {
            if self.contracts[i].0.eq_bytes(code_hash) {
                assert(s[i as int].0 == code_hash@);
                proof {
                    lemma_assoc_props(s);
                }
                return Ok(slice_to_vec(self.contracts[i].1.as_slice()));
            }
            i = i + 1;
        }
        proof {
            if self.contracts_view().contains_key(code_hash@) {
                let j = choose|j: int| 0 <= j < s.len() && #[trigger] s[j].0 == code_hash@;
                assert(false);
            }
        }
        Err(ProviderError::StateForHashNotFound { hash: *code_hash })
    }

    /// Read a storage slot of an account: the account record names the
    /// storage root, the witness trie is checked against it, and an
    /// absent slot reads as zero.  A missing account or storage trie is a
    /// fatal witness error.
    pub fn storage(&self, address: &Address, slot: &U256) -> (r: Result<U256, ProviderError>)
        requires
            self.wf(),
        ensures
            match r {
                Ok(v) => exists|a: StateAccount|
                    {
                        &&& #[trigger] has_account_record(self.pob().data.mpt_nodes@, address@, a)
                        &&& self.pob().data.storage_mpt_nodes@.contains_key(address@)
                        &&& ({
                            let st = self.pob().data.storage_mpt_nodes@[address@];
                            &&& storage_trie_root(st) == a.storage_root@
                            &&& if map_of(st).contains_key(keccak_of(slot@)) {
                                map_of(st)[keccak_of(slot@)] == storage_value_rlp(v@)
                            } else {
                                v@ == zero32()
                            }
                        })
                    },
                Err(ProviderError::MissingAccount { addr }) => addr == *address
                    && !self.pob().data.mpt_nodes@.contains_key(keccak_of(address@)),
                Err(ProviderError::AccountRlp { addr }) => addr == *address
                    && self.pob().data.mpt_nodes@.contains_key(keccak_of(address@)) && (forall|
                    a: StateAccount,
                |
                    self.pob().data.mpt_nodes@[keccak_of(address@)] != #[trigger] account_rlp(a)),
                Err(ProviderError::MissingStorageTrie { addr }) => addr == *address
                    && !self.pob().data.storage_mpt_nodes@.contains_key(address@) && (exists|
                    a: StateAccount,
                |
                    #[trigger] has_account_record(self.pob().data.mpt_nodes@, address@, a)),
                Err(ProviderError::StorageRootMismatch { addr, got, want }) => {
                    &&& addr == *address
                    &&& self.pob().data.storage_mpt_nodes@.contains_key(address@)
                    &&& got@ == storage_trie_root(self.pob().data.storage_mpt_nodes@[address@])
                    &&& got@ != want@
                    &&& exists|a: StateAccount|
                        #[trigger] has_account_record(self.pob().data.mpt_nodes@, address@, a)
                            && want == a.storage_root
                },
                Err(ProviderError::SlotRlp { addr, slot: s }) => {
                    &&& addr == *address
                    &&& s == *slot
                    &&& self.pob().data.storage_mpt_nodes@.contains_key(address@)
                    &&& ({
                        let st = self.pob().data.storage_mpt_nodes@[address@];
                        map_of(st).contains_key(keccak_of(slot@)) && (forall|val: U256|
                            map_of(st)[keccak_of(slot@)] != storage_value_rlp(#[trigger] val@))
                    })
                },
                Err(_) => false,
            },
    {
        let acc = match self.pob.get_acc(address) {
            Ok(Some(a)) => a,
            Ok(None) => {
                return Err(ProviderError::MissingAccount { addr: *address });
            },
            Err(e) => {
                return Err(e);
            },
        };
        proof {
            assert(has_account_record(self.pob().data.mpt_nodes@, address@, acc));
        }
        match self.pob.get_slot(address, &acc.storage_root, slot) {
            Ok(Some(v)) => Ok(v),
            Ok(None) => Ok(U256::zero()),
            Err(e) => Err(e),
        }
    }

    /// Apply a change set to the pre-state trie: the witness trie is
    /// cloned, each touched account is deleted or re-inserted with its
    /// storage re-rooted, and the new trie is returned.
    pub fn apply_changes(&self, changes: &Vec<AccountChange>) -> (r: Result<
        StateTrie,
        ExecutionError,
    >)
        requires
            self.wf(),
        ensures
            match r {
                Ok(t) => {
                    &&& t.wf()
                    &&& apply_changes_spec(
                        self.pob().data.mpt_nodes@,
                        self.pob().data.storage_mpt_nodes@,
                        changes@,
                    ) == Ok::<_, ExecutionError>(t@)
                    &&& t.root_spec() == root_of_map(t@)
                },
                Err(e) => apply_changes_spec(
                    self.pob().data.mpt_nodes@,
                    self.pob().data.storage_mpt_nodes@,
                    changes@,
                ) == Err::<Map<Seq<u8>, Seq<u8>>, _>(e) && e matches (
                ExecutionError::MissingStorageTrie { addr: _ }),
            },
    {
        let ghost state0 = self.pob.data.mpt_nodes@;
        let ghost storages = self.pob.data.storage_mpt_nodes@;
        let mut state_trie = self.pob.data.mpt_nodes.duplicate();
        let n = changes.len();
        let mut i: usize = 0;
        while i < n
            invariant
                self.wf(),
                state0 == self.pob.data.mpt_nodes@,
                storages == self.pob.data.storage_mpt_nodes@,
                n == changes@.len(),
                i <= n,
                state_trie.wf(),
                apply_changes_spec(state0, storages, changes@.take(i as int)) == Ok::<
                    _,
                    ExecutionError,
                >(state_trie@),
            decreases n - i,
        {
            let c = &changes[i];
            proof {
                let cs = changes@;
                assert(cs.take(i + 1).drop_last() =~= cs.take(i as int));
                assert(cs.take(i + 1).last() == cs[i as int]);
            }
            if c.status_empty {
                i = i + 1;
                continue;
            }
            let addr_key = keccak256(c.address.bytes.as_slice());
            if c.selfdestructed {
                state_trie.delete(&addr_key);
                i = i + 1;
                continue;
            }
            let storage_trie = match self.pob.data.storage_mpt_nodes.get(&c.address) {
                Some(t) => t,
                None => {
                    proof {
                        assert(apply_changes_spec(state0, storages, changes@.take(i + 1))
                            == Err::<Map<Seq<u8>, Seq<u8>>, _>(
                            ExecutionError::MissingStorageTrie { addr: c.address },
                        ));
                        lemma_apply_err_persists(state0, storages, changes@, i + 1);
                    }
                    return Err(ExecutionError::MissingStorageTrie { addr: c.address });
                },
            };
            let mut storage_trie = storage_trie.duplicate();
            let ghost st0 = map_of(storages[c.address@]);
            assert(storage_trie@ == st0);
            let m = c.storage.len();
            let mut j: usize = 0;
            while j < m
                invariant
                    m == c.storage@.len(),
                    j <= m,
                    storage_trie.wf(),
                    storage_trie@ == apply_storage_changes(st0, c.storage@.take(j as int)),
                decreases m - j,
            {
                proof {
                    let ss = c.storage@;
                    assert(ss.take(j + 1).drop_last() =~= ss.take(j as int));
                    assert(ss.take(j + 1).last() == ss[j as int]);
                }
                let sc = &c.storage[j];
                let slot_key = keccak256(sc.slot.be.as_slice());
                if sc.present_value.is_zero() {
                    storage_trie.delete(&slot_key);
                } else {
                    let value = encode_storage_value(&sc.present_value);
                    storage_trie.insert(&slot_key, value);
                }
                j = j + 1;
            }
            assert(c.storage@.take(m as int) =~= c.storage@);
            let storage_root = storage_trie.hash();
            proof {
                lemma_root_of_map(storage_trie);
            }
            let account = StateAccount {
                nonce: c.nonce,
                balance: c.balance,
                storage_root,
                code_hash: c.code_hash,
            };
            let value = encode_account(&account);
            assert(value@ == account_rlp_parts(
                c.nonce,
                c.balance@,
                root_of_map(apply_storage_changes(st0, c.storage@)),
                c.code_hash@,
            ));
            state_trie.insert(&addr_key, value);
            i = i + 1;
        }
        assert(changes@.take(n as int) =~= changes@);
        proof {
            lemma_root_of_map(state_trie);
        }
        Ok(state_trie)
    }
}

/// State diff law: a storage write of zero deletes the slot, so after a
/// change set whose write at `k` zeroes a slot that no later change of the
/// same account writes again, the post-state storage map holds no entry
/// under that slot's key.
pub proof fn lemma_zeroed_slot_absent(
    st: Map<Seq<u8>, Seq<u8>>,
    cs: Seq<StorageChange>,
    k: int,
)
    requires
        0 <= k < cs.len(),
        cs[k].present_value@ == zero32(),
        forall|j: int| k < j < cs.len() ==> keccak_of(cs[j].slot@) != keccak_of(cs[k].slot@),
    ensures
        !apply_storage_changes(st, cs).contains_key(keccak_of(cs[k].slot@)),
    decreases cs.len(),
{
    if k == cs.len() - 1 {
        assert(apply_storage_changes(st, cs) == apply_storage_changes(st, cs.drop_last()).remove(
            keccak_of(cs[k].slot@),
        ));
    } else {
        let t = cs.drop_last();
        assert(t[k] == cs[k]);
        assert(forall|j: int| k < j < t.len() ==> t[j] == cs[j]);
        lemma_zeroed_slot_absent(st, t, k);
        assert(keccak_of(cs.last().slot@) != keccak_of(cs[k].slot@));
    }
}

/// Boundary law: with an empty body and an empty diff, the executor
/// accepts exactly when the block header's state root equals the
/// pre-state root the witness trie hashes to.
pub proof fn lemma_empty_body_accepts(
    input: crate::api::ProofInput,
    outcome: ExecutionOutcome,
    supported: Seq<u64>,
)
    requires
        input.l2_block.transactions@.len() == 0,
        outcome.changes@.len() == 0,
        outcome.valid_transaction_indices@.len() == 0,
        supported.contains(input.chain_spec.chain_id),
        input.parent_state_trie.wf(),
    ensures
        crate::prove::execution_accepts(input, outcome, supported) <==> (
        input.parent_state_trie.root_spec() == input.parent_header.state_root@
            && input.parent_state_trie.root_spec() == input.l2_block.header.state_root@),
{
    crate::trie::lemma_root_of_map(input.parent_state_trie);
    assert(apply_changes_spec(input.parent_state_trie@, input.parent_storage@, outcome.changes@)
        == Ok::<_, ExecutionError>(input.parent_state_trie@));
    assert(indices_complete(outcome.valid_transaction_indices@, 0));
    if crate::prove::execution_accepts(input, outcome, supported) {
        let m = choose|m: Map<Seq<u8>, Seq<u8>>|
            apply_changes_spec(input.parent_state_trie@, input.parent_storage@, outcome.changes@)
                == Ok::<_, ExecutionError>(m) && root_of_map(m)
                == input.l2_block.header.state_root@;
        assert(m == input.parent_state_trie@);
    }
}

/// The boundary law phrased over the executor's own contract terms: with
/// an empty body and an empty outcome, every check of `execute` except
/// the two root comparisons is satisfied, and the trie the diff yields is
/// the pre-state trie itself.
pub proof fn lemma_empty_body_executor(pob: Pob, outcome: ExecutionOutcome)
    requires
        pob.wf(),
        pob.block.transactions@.len() == 0,
        outcome.changes@.len() == 0,
        outcome.valid_transaction_indices@.len() == 0,
    ensures
        indices_complete(outcome.valid_transaction_indices@, pob.block.transactions@.len()),
        apply_changes_spec(pob.data.mpt_nodes@, pob.data.storage_mpt_nodes@, outcome.changes@)
            == Ok::<_, ExecutionError>(pob.data.mpt_nodes@),
        root_of_map(pob.data.mpt_nodes@) == pob.data.mpt_nodes.root_spec(),
{
    crate::trie::lemma_root_of_map(pob.data.mpt_nodes);
}

/// Insert a code binding, replacing any previous binding of the digest.
fn insert_code(contracts: &mut Vec<(B256, Vec<u8>)>, hash: B256, code: Vec<u8>)
    requires
        assoc_unique(old(contracts)@.map_values(|p: (B256, Vec<u8>)| (p.0@, p.1@))),
    ensures
        assoc_unique(final(contracts)@.map_values(|p: (B256, Vec<u8>)| (p.0@, p.1@))),
        assoc_map(final(contracts)@.map_values(|p: (B256, Vec<u8>)| (p.0@, p.1@))) == assoc_map(
            old(contracts)@.map_values(|p: (B256, Vec<u8>)| (p.0@, p.1@)),
        ).insert(hash@, code@),
{
    let ghost s_old = contracts@.map_values(|p: (B256, Vec<u8>)| (p.0@, p.1@));
    let n = contracts.len();
    let mut i: usize = 0;
    while i < n
        invariant
            contracts@.map_values(|p: (B256, Vec<u8>)| (p.0@, p.1@)) == s_old,
            s_old == old(contracts)@.map_values(|p: (B256, Vec<u8>)| (p.0@, p.1@)),
            assoc_unique(s_old),
            n == contracts@.len(),
            i <= n,
            forall|j: int| 0 <= j < i ==> s_old[j].0 != hash@,
        decreases n - i,
    {
        if contracts[i].0.eq_bytes(&hash) {
            contracts.remove(i);
            contracts.insert(i, (hash, code));
            proof {
                let s_new = contracts@.map_values(|p: (B256, Vec<u8>)| (p.0@, p.1@));
                assert(s_new =~= s_old.update(i as int, (hash@, s_new[i as int].1)));
                lemma_assoc_update(s_old, i as int, hash@, s_new[i as int].1);
            }
            return;
        }
        i = i + 1;
    }
    contracts.push((hash, code));
    proof {
        let s_new = contracts@.map_values(|p: (B256, Vec<u8>)| (p.0@, p.1@));
        assert(s_new =~= s_old.push((hash@, code@)));
        lemma_assoc_push(s_old, hash@, code@);
    }
}

/// Drives the verification of one block: ingest checks, diff application,
/// and the post-state root comparison.
pub struct BlockExecutor {
    pub db: MemDB,
}

impl BlockExecutor {
    /// The witness under execution.
    pub open spec fn pob(self) -> Pob {
        self.db.pob()
    }

    pub open spec fn wf(self) -> bool {
        self.db.wf()
    }

    /// Borrow the witness.
    pub fn witness(&self) -> (r: &Pob)
        ensures
            *r == self.pob(),
    {
        self.db.witness()
    }

    /// Give the witness back.
    pub fn into_witness(self) -> (r: Pob)
        ensures
            r == self.pob(),
    {
        self.db.into_pob()
    }

    /// Ingest a witness.
    pub fn new(pob: Pob) -> (r: BlockExecutor)
        requires
            pob.wf(),
        ensures
            r.wf(),
            r.pob() == pob,
    {
        BlockExecutor { db: MemDB::new(pob) }
    }

    /// Check one block against the witness and an EVM run's outcome.
    /// Accepts exactly when: the chain id is supported, the witness trie
    /// hashes to the claimed pre-state root, every transaction of the body
    /// executed, every touched account has its storage trie, and the trie
    /// after the diff hashes to the header's state root.  The checks run in
    /// that order and the first failure is returned.
    pub fn execute(&self, supported_chain_ids: &Vec<u64>, outcome: &ExecutionOutcome) -> (r:
        Result<B256, ExecutionError>)
        requires
            self.wf(),
        ensures
            match r {
                Ok(root) => {
                    &&& supported_chain_ids@.contains(self.pob().data.chain_id)
                    &&& self.pob().data.mpt_nodes.root_spec() == self.pob().data.prev_state_root@
                    &&& indices_complete(
                        outcome.valid_transaction_indices@,
                        self.pob().block.transactions@.len(),
                    )
                    &&& exists|m: Map<Seq<u8>, Seq<u8>>|
                        apply_changes_spec(
                            self.pob().data.mpt_nodes@,
                            self.pob().data.storage_mpt_nodes@,
                            outcome.changes@,
                        ) == Ok::<_, ExecutionError>(m) && root@ == root_of_map(m)
                    &&& root@ == self.pob().block.header.state_root@
                },
                Err(ExecutionError::UnsupportChainId { chain_id, supported }) => {
                    &&& chain_id == self.pob().data.chain_id
                    &&& supported@ == supported_chain_ids@
                    &&& !supported_chain_ids@.contains(self.pob().data.chain_id)
                },
                Err(ExecutionError::PrevStateRootMismatch { remote, local }) => {
                    &&& remote == self.pob().data.prev_state_root
                    &&& local@ == self.pob().data.mpt_nodes.root_spec()
                    &&& local@ != remote@
                },
                Err(ExecutionError::NotAllTransactionExecuted { remote, local }) => {
                    &&& indices_complete(remote@, self.pob().block.transactions@.len())
                    &&& local@ == outcome.valid_transaction_indices@
                    &&& !indices_complete(
                        outcome.valid_transaction_indices@,
                        self.pob().block.transactions@.len(),
                    )
                },
                Err(ExecutionError::MissingStorageTrie { addr }) => apply_changes_spec(
                    self.pob().data.mpt_nodes@,
                    self.pob().data.storage_mpt_nodes@,
                    outcome.changes@,
                ) == Err::<Map<Seq<u8>, Seq<u8>>, _>(
                    ExecutionError::MissingStorageTrie { addr },
                ),
                Err(ExecutionError::StateRootMismatch { remote, local }) => {
                    &&& remote == self.pob().block.header.state_root
                    &&& local@ != remote@
                    &&& exists|m: Map<Seq<u8>, Seq<u8>>|
                        apply_changes_spec(
                            self.pob().data.mpt_nodes@,
                            self.pob().data.storage_mpt_nodes@,
                            outcome.changes@,
                        ) == Ok::<_, ExecutionError>(m) && local@ == root_of_map(m)
                },
                Err(ExecutionError::Provider(_)) => false,
            },
    {
        let chain_id = self.db.pob.data.chain_id;
        if !contains_u64(supported_chain_ids, chain_id) {
            return Err(ExecutionError::UnsupportChainId {
                chain_id,
                supported: slice_to_vec_u64(supported_chain_ids),
            });
        }
        let pre_root = self.db.pob.data.mpt_nodes.hash();
        if !pre_root.eq_bytes(&self.db.pob.data.prev_state_root) {
            return Err(ExecutionError::PrevStateRootMismatch {
                remote: self.db.pob.data.prev_state_root,
                local: pre_root,
            });
        }
        let body_len = self.db.pob.block.transactions.len();
        if !indices_are_complete(&outcome.valid_transaction_indices, body_len) {
            let mut remote: Vec<usize> = Vec::new();
            let mut k: usize = 0;
            while k < body_len
                invariant
                    k <= body_len,
                    remote@.len() == k,
                    forall|i: int| 0 <= i < k ==> remote@[i] == i,
                decreases body_len - k,
            {
                remote.push(k);
                k = k + 1;
            }
            return Err(ExecutionError::NotAllTransactionExecuted {
                remote,
                local: slice_to_vec_usize(&outcome.valid_transaction_indices),
            });
        }
        let new_trie = match self.db.apply_changes(&outcome.changes) {
            Ok(t) => t,
            Err(e) => {
                return Err(e);
            },
        };
        let new_root = new_trie.hash();
        if !new_root.eq_bytes(&self.db.pob.block.header.state_root) {
            return Err(ExecutionError::StateRootMismatch {
                remote: self.db.pob.block.header.state_root,
                local: new_root,
            });
        }
        Ok(new_root)
    }
}

/// Whether a list of chain ids holds the given one.
fn contains_u64(list: &Vec<u64>, v: u64) -> (r: bool)
    ensures
        r == list@.contains(v),
{
    let n = list.len();
    let mut i: usize = 0;
    while i < n
        invariant
            n == list@.len(),
            i <= n,
            forall|j: int| 0 <= j < i ==> list@[j] != v,
        decreases n - i,
    {
        if list[i] == v {
            assert(list@.contains(v));
            return true;
        }
        i = i + 1;
    }
    assert(!list@.contains(v));
    false
}

/// Copy a `u64` list.
fn slice_to_vec_u64(list: &Vec<u64>) -> (r: Vec<u64>)
    ensures
        r@ == list@,
{
    let mut r: Vec<u64> = Vec::new();
    let n = list.len();
    let mut i: usize = 0;
    while i < n
        invariant
            n == list@.len(),
            i <= n,
            r@ == list@.take(i as int),
        decreases n - i,
    {
        r.push(list[i]);
        assert(r@ =~= list@.take(i + 1));
        i = i + 1;
    }
    assert(r@ =~= list@);
    r
}

/// Copy a `usize` list.
fn slice_to_vec_usize(list: &Vec<usize>) -> (r: Vec<usize>)
    ensures
        r@ == list@,
{
    let mut r: Vec<usize> = Vec::new();
    let n = list.len();
    let mut i: usize = 0;
    while i < n
        invariant
            n == list@.len(),
            i <= n,
            r@ == list@.take(i as int),
        decreases n - i,
    {
        r.push(list[i]);
        assert(r@ =~= list@.take(i + 1));
        i = i + 1;
    }
    assert(r@ =~= list@);
    r
}

/// Whether the executed indices are exactly `0 .. n`.
fn indices_are_complete(s: &Vec<usize>, n: usize) -> (r: bool)
    ensures
        r == indices_complete(s@, n as nat),
{
    if s.len() != n {
        return false;
    }
    let mut i: usize = 0;
    while i < n
        invariant
            s@.len() == n,
            i <= n,
            forall|j: int| 0 <= j < i ==> s@[j] == j,
        decreases n - i,
    {
        if s[i] != i {
            return false;
        }
        i = i + 1;
    }
    true
}

} // verus!
