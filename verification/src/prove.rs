//! The proving pipeline: witness in, signed proof of execution out, for
//! one block or a chained span, plus the packed response forms the
//! registry consumes.

use vstd::prelude::*;
use crate::words::{B256, U256, Address};
use crate::keccak::keccak_of;
use crate::header::header_hash;
use crate::trie::root_of_map;
use crate::executor::{BlockExecutor, ExecutionOutcome, ExecutionError, apply_changes_spec,
    indices_complete};
use crate::pob::{Pob, meta_hash_spec};
use crate::poe::{Poe, SignedPoe, signed_msg_spec, encode_signed_poe, signed_poe_abi};
use crate::keypair::{KeypairStore, ecdsa_sig_of, keypair_address};
use crate::api::{ProofInput, ProofResponse};
use crate::rlp::append_bytes;
use crate::state::copy_range;

verus! {

/// Why a proving request fails.
#[derive(Clone, Debug)]
pub enum ProveError {
    /// No registered identity: the attestation loop has not committed a
    /// key yet.
    ProverNotRegistered,
    /// An empty or mismatched span was handed to aggregation.
    MissingPoe,
    /// The span does not chain at `idx`: `cur`'s parent hash is not
    /// `prev`'s block hash.
    BlockHashMismatch { idx: usize, cur: Poe, prev: Poe },
    /// Block verification failed.
    Execution(ExecutionError),
}

/// Whether the executor accepts this input with this EVM outcome: the
/// chain id is known, the witness trie hashes to the parent's state root,
/// every transaction executed, and the diff-applied trie hashes to the
/// block header's state root.
pub open spec fn execution_accepts(
    input: ProofInput,
    outcome: ExecutionOutcome,
    supported: Seq<u64>,
) -> bool {
    &&& supported.contains(input.chain_spec.chain_id)
    &&& input.parent_state_trie.root_spec() == input.parent_header.state_root@
    &&& indices_complete(outcome.valid_transaction_indices@, input.l2_block.transactions@.len())
    &&& exists|m: Map<Seq<u8>, Seq<u8>>|
        apply_changes_spec(input.parent_state_trie@, input.parent_storage@, outcome.changes@)
            == Ok::<_, ExecutionError>(m) && root_of_map(m) == input.l2_block.header.state_root@
}

/// The proof of execution an accepted input denotes, stated field by
/// field over `p`.
pub open spec fn poe_of_input(p: Poe, input: ProofInput) -> bool {
    &&& p.parent_hash@ == header_hash(input.parent_header)
    &&& p.block_hash@ == header_hash(input.l2_block.header)
    &&& p.state_root == input.l2_block.header.state_root
    &&& p.graffiti == input.taiko.prover_data.graffiti
}

/// Prove one block: project the witness, check the execution, and sign
/// the resulting proof of execution with the committed identity.
pub fn prove(
    input: ProofInput,
    outcome: &ExecutionOutcome,
    supported_chain_ids: &Vec<u64>,
    prover_registry: &Address,
    kp: &KeypairStore,
    tee_type: U256,
) -> (r: Result<SignedPoe, ProveError>)
    requires
        input.parent_state_trie.wf(),
        input.parent_storage.wf(),
        kp.wf(),
    ensures
        match r {
            Ok(sp) => {
                &&& execution_accepts(input, *outcome, supported_chain_ids@)
                &&& kp.id_spec() is Some
                &&& poe_of_input(sp.poe, input)
                &&& Some(sp.id) == kp.id_spec()
                &&& sp.new_instance@ == keypair_address(kp.active_spec().sk_spec())
                &&& sp.tee_type == tee_type
                &&& sp.signature@ == ecdsa_sig_of(
                    kp.active_spec().sk_spec(),
                    keccak_of(
                        signed_msg_spec(
                            input.chain_spec.chain_id,
                            prover_registry@,
                            sp.poe,
                            keypair_address(kp.active_spec().sk_spec()),
                            input.taiko.prover_data.prover@,
                            meta_hash_spec(input.taiko.metadata),
                        ),
                    ),
                )
                &&& sp.signature@.len() == 65
            },
            Err(ProveError::ProverNotRegistered) => execution_accepts(
                input,
                *outcome,
                supported_chain_ids@,
            ) && kp.id_spec() is None,
            Err(ProveError::Execution(_)) => !execution_accepts(
                input,
                *outcome,
                supported_chain_ids@,
            ),
            Err(_) => false,
        },
{
    let pob = Pob::from_input(input);
    let executor = BlockExecutor::new(pob);
    match executor.execute(supported_chain_ids, outcome) {
        Ok(_) => (),
        Err(e) => {
            return Err(ProveError::Execution(e));
        },
    }
    let pob = executor.into_witness();
    let parent_hash = pob.data.l2_parent_header.hash();
    let block_hash = pob.block.hash();
    let poe = Poe {
        parent_hash,
        block_hash,
        state_root: pob.block.header.state_root,
        graffiti: pob.data.graffiti,
    };
    let (id, addr, keypair) = match kp.info() {
        Some(t) => t,
        None => {
            return Err(ProveError::ProverNotRegistered);
        },
    };
    Ok(poe.sign(&pob, id, prover_registry, &addr, &keypair, tee_type))
}

/// Prove a chained span of blocks: each witness is checked with its own
/// outcome, the per-block proofs must chain, and the aggregate is signed
/// under the last witness.
#[verifier::rlimit(60)]
#[verifier::loop_isolation(false)]
pub fn prove_multi_blocks(
    inputs: Vec<ProofInput>,
    outcomes: Vec<ExecutionOutcome>,
    supported_chain_ids: &Vec<u64>,
    prover_registry: &Address,
    kp: &KeypairStore,
    tee_type: U256,
) -> (r: Result<SignedPoe, ProveError>)
    requires
        inputs@.len() == outcomes@.len(),
        forall|i: int|
            0 <= i < inputs@.len() ==> (#[trigger] inputs@[i]).parent_state_trie.wf()
                && inputs@[i].parent_storage.wf(),
        kp.wf(),
    ensures
        match r {
            Ok(sp) => {
                &&& inputs@.len() > 0
                &&& forall|i: int|
                    0 <= i < inputs@.len() ==> execution_accepts(
                        #[trigger] inputs@[i],
                        outcomes@[i],
                        supported_chain_ids@,
                    )
                &&& forall|i: int|
                    1 <= i < inputs@.len() ==> header_hash(
                        (#[trigger] inputs@[i]).parent_header,
                    ) == header_hash(inputs@[i - 1].l2_block.header)
                &&& kp.id_spec() is Some
                &&& sp.poe.parent_hash@ == header_hash(inputs@[0].parent_header)
                &&& sp.poe.block_hash@ == header_hash(inputs@.last().l2_block.header)
                &&& sp.poe.state_root == inputs@.last().l2_block.header.state_root
                &&& sp.poe.graffiti == inputs@.last().taiko.prover_data.graffiti
                &&& Some(sp.id) == kp.id_spec()
                &&& sp.new_instance@ == keypair_address(kp.active_spec().sk_spec())
                &&& sp.tee_type == tee_type
                &&& sp.signature@.len() == 65
            },
            Err(ProveError::MissingPoe) => inputs@.len() == 0,
            Err(ProveError::ProverNotRegistered) => kp.id_spec() is None,
            Err(ProveError::BlockHashMismatch { idx, cur, prev }) => {
                &&& 1 <= idx < inputs@.len()
                &&& cur.parent_hash@ == header_hash(inputs@[idx as int].parent_header)
                &&& prev.block_hash@ == header_hash(inputs@[idx - 1].l2_block.header)
                &&& cur.parent_hash@ != prev.block_hash@
            },
            Err(ProveError::Execution(_)) => exists|i: int|
                0 <= i < inputs@.len() && !execution_accepts(
                    #[trigger] inputs@[i],
                    outcomes@[i],
                    supported_chain_ids@,
                ),
        },
{
    let ghost orig_inputs = inputs@;
    let ghost orig_outcomes = outcomes@;
    let mut pending = inputs;
    let mut pending_outcomes = outcomes;
    let mut poes: Vec<Poe> = Vec::new();
    let mut pobs: Vec<Pob> = Vec::new();
    let n = pending.len();
    let mut i: usize = 0;
    while i < n
        invariant
            n == orig_inputs.len(),
            orig_outcomes.len() == n,
            pending@ == orig_inputs.skip(i as int),
            pending_outcomes@ == orig_outcomes.skip(i as int),
            forall|k: int|
                0 <= k < orig_inputs.len() ==> (#[trigger] orig_inputs[k]).parent_state_trie.wf()
                    && orig_inputs[k].parent_storage.wf(),
            i <= n,
            poes@.len() == i,
            pobs@.len() == i,
            forall|k: int|
                0 <= k < i ==> execution_accepts(
                    #[trigger] orig_inputs[k],
                    orig_outcomes[k],
                    supported_chain_ids@,
                ),
            forall|k: int| 0 <= k < i ==> poe_of_input(#[trigger] poes@[k], orig_inputs[k]),
            forall|k: int|
                0 <= k < i ==> (#[trigger] pobs@[k]).data.chain_id
                    == orig_inputs[k].chain_spec.chain_id && pobs@[k].data.prover
                    == orig_inputs[k].taiko.prover_data.prover && pobs@[k].data.block_meta
                    == orig_inputs[k].taiko.metadata,
        decreases n - i,
    {
        let input = pending.remove(0);
        let outcome = pending_outcomes.remove(0);
        assert(input == orig_inputs[i as int]);
        assert(outcome == orig_outcomes[i as int]);
        proof {
            assert(orig_inputs.skip(i as int).skip(1) =~= orig_inputs.skip(i + 1));
            assert(orig_outcomes.skip(i as int).skip(1) =~= orig_outcomes.skip(i + 1));
        }
        let pob = Pob::from_input(input);
        let executor = BlockExecutor::new(pob);
        match executor.execute(supported_chain_ids, &outcome) {
            Ok(_) => (),
            Err(e) => {
                proof {
                    assert(!execution_accepts(
                        orig_inputs[i as int],
                        orig_outcomes[i as int],
                        supported_chain_ids@,
                    ));
                    assert(exists|k: int|
                        0 <= k < orig_inputs.len() && !execution_accepts(
                            #[trigger] orig_inputs[k],
                            orig_outcomes[k],
                            supported_chain_ids@,
                        ));
                }
                return Err(ProveError::Execution(e));
            },
        }
        let pob = executor.into_witness();
        let parent_hash = pob.data.l2_parent_header.hash();
        let block_hash = pob.block.hash();
        let poe = Poe {
            parent_hash,
            block_hash,
            state_root: pob.block.header.state_root,
            graffiti: pob.data.graffiti,
        };
        poes.push(poe);
        pobs.push(pob);
        i = i + 1;
    }
    if n == 0 {
        return Err(ProveError::MissingPoe);
    }
    let (id, addr, keypair) = match kp.info() {
        Some(t) => t,
        None => {
            return Err(ProveError::ProverNotRegistered);
        },
    };
    match Poe::sign_multi(&poes, &pobs, id, prover_registry, &addr, &keypair, tee_type) {
        Ok(sp) => {
            assert forall|k: int|
                1 <= k < orig_inputs.len() implies header_hash(
                (#[trigger] orig_inputs[k]).parent_header,
            ) == header_hash(orig_inputs[k - 1].l2_block.header) by {
                assert(poes@[k].parent_hash@ == poes@[k - 1].block_hash@);
            }
            Ok(sp)
        },
        Err(e) => Err(e),
    }
}

/// Determinism of proving: the signature uses an RFC 6979 nonce, so two
/// signed proofs produced from the same input under the same committed
/// identity agree byte for byte.  Both arguments are assumed to satisfy
/// what `prove` ensures of a success on this input.
pub proof fn lemma_prove_deterministic(
    sp1: SignedPoe,
    sp2: SignedPoe,
    input: ProofInput,
    prover_registry: Address,
    kp: KeypairStore,
    tee_type: U256,
)
    requires
        poe_of_input(sp1.poe, input),
        poe_of_input(sp2.poe, input),
        Some(sp1.id) == kp.id_spec(),
        Some(sp2.id) == kp.id_spec(),
        sp1.new_instance@ == keypair_address(kp.active_spec().sk_spec()),
        sp2.new_instance@ == keypair_address(kp.active_spec().sk_spec()),
        sp1.tee_type == tee_type,
        sp2.tee_type == tee_type,
        sp1.signature@ == ecdsa_sig_of(
            kp.active_spec().sk_spec(),
            keccak_of(
                signed_msg_spec(
                    input.chain_spec.chain_id,
                    prover_registry@,
                    sp1.poe,
                    keypair_address(kp.active_spec().sk_spec()),
                    input.taiko.prover_data.prover@,
                    meta_hash_spec(input.taiko.metadata),
                ),
            ),
        ),
        sp2.signature@ == ecdsa_sig_of(
            kp.active_spec().sk_spec(),
            keccak_of(
                signed_msg_spec(
                    input.chain_spec.chain_id,
                    prover_registry@,
                    sp2.poe,
                    keypair_address(kp.active_spec().sk_spec()),
                    input.taiko.prover_data.prover@,
                    meta_hash_spec(input.taiko.metadata),
                ),
            ),
        ),
    ensures
        sp1.poe.parent_hash@ == sp2.poe.parent_hash@,
        sp1.poe.block_hash@ == sp2.poe.block_hash@,
        sp1.poe.state_root == sp2.poe.state_root,
        sp1.poe.graffiti == sp2.poe.graffiti,
        sp1.id == sp2.id,
        sp1.new_instance@ == sp2.new_instance@,
        sp1.tee_type == sp2.tee_type,
        sp1.signature@ == sp2.signature@,
{
    assert(sp1.poe.parent_hash@ == sp2.poe.parent_hash@);
    assert(sp1.poe == sp2.poe) by {
        assert(sp1.poe.parent_hash.bytes =~= sp2.poe.parent_hash.bytes);
        assert(sp1.poe.block_hash.bytes =~= sp2.poe.block_hash.bytes);
    }
}

/// The 89-byte packed response form: the low four bytes of the instance
/// id, the signing address, and the 65-byte signature.
pub open spec fn packed_proof(sp: SignedPoe) -> Seq<u8> {
    sp.id@.skip(28) + sp.new_instance@ + sp.signature@
}

/// Pack a signed proof into the 89-byte response form.
pub fn pack_proof(sp: &SignedPoe) -> (r: Vec<u8>)
    requires
        sp.signature@.len() == 65,
    ensures
        r@ == packed_proof(*sp),
        r@.len() == 89,
        r@.subrange(0, 4) == sp.id@.subrange(28, 32),
        r@.subrange(4, 24) == sp.new_instance@,
        r@.subrange(24, 89) == sp.signature@,
{
    let mut out: Vec<u8> = Vec::new();
    let id_tail = copy_range(sp.id.be.as_slice(), 28, 4);
    append_bytes(&mut out, id_tail.as_slice());
    append_bytes(&mut out, sp.new_instance.bytes.as_slice());
    append_bytes(&mut out, sp.signature.as_slice());
    assert(out@ =~= packed_proof(*sp));
    assert(out@.subrange(0, 4) =~= sp.id@.subrange(28, 32));
    assert(out@.subrange(4, 24) =~= sp.new_instance@);
    assert(out@.subrange(24, 89) =~= sp.signature@);
    out
}

/// The proving front end: the identity store and the fixed parameters of
/// this deployment.
pub struct Prover {
    pub kp: KeypairStore,
    pub prover_registry: Address,
    pub tee_type: U256,
    pub worker_num: usize,
    pub supported_chain_ids: Vec<u64>,
}

impl Prover {
    pub open spec fn wf(self) -> bool {
        self.kp.wf()
    }

    pub fn new(
        kp: KeypairStore,
        prover_registry: Address,
        tee_type: U256,
        worker_num: usize,
        supported_chain_ids: Vec<u64>,
    ) -> (r: Prover)
        requires
            kp.wf(),
        ensures
            r.wf(),
            r.kp == kp,
            r.prover_registry == prover_registry,
            r.tee_type == tee_type,
            r.worker_num == worker_num,
            r.supported_chain_ids == supported_chain_ids,
    {
        Prover { kp, prover_registry, tee_type, worker_num, supported_chain_ids }
    }

    /// Prove one block and answer in the 89-byte packed form.
    pub fn prove(&self, input: ProofInput, outcome: &ExecutionOutcome) -> (r: Result<
        ProofResponse,
        ProveError,
    >)
        requires
            input.parent_state_trie.wf(),
            input.parent_storage.wf(),
            self.wf(),
        ensures
            match r {
                Ok(resp) => resp.version == 1 && exists|sp: SignedPoe|
                    {
                        &&& #[trigger] resp.data@ == packed_proof(sp)
                        &&& execution_accepts(input, *outcome, self.supported_chain_ids@)
                        &&& poe_of_input(sp.poe, input)
                        &&& Some(sp.id) == self.kp.id_spec()
                        &&& sp.new_instance@ == keypair_address(self.kp.active_spec().sk_spec())
                        &&& sp.signature@.len() == 65
                    },
                Err(ProveError::ProverNotRegistered) => execution_accepts(
                    input,
                    *outcome,
                    self.supported_chain_ids@,
                ) && self.kp.id_spec() is None,
                Err(ProveError::Execution(_)) => !execution_accepts(
                    input,
                    *outcome,
                    self.supported_chain_ids@,
                ),
                Err(_) => false,
            },
    {
        let sp = match prove(
            input,
            outcome,
            &self.supported_chain_ids,
            &self.prover_registry,
            &self.kp,
            self.tee_type,
        ) {
            Ok(sp) => sp,
            Err(e) => {
                return Err(e);
            },
        };
        let data = pack_proof(&sp);
        Ok(ProofResponse { version: 1, data })
    }

    /// Prove one block and answer with the full ABI wire form.
    pub fn gen_proof(&self, input: ProofInput, outcome: &ExecutionOutcome) -> (r: Result<
        ProofResponse,
        ProveError,
    >)
        requires
            input.parent_state_trie.wf(),
            input.parent_storage.wf(),
            self.wf(),
        ensures
            match r {
                Ok(resp) => resp.version == 1 && exists|sp: SignedPoe|
                    {
                        &&& #[trigger] resp.data@ == signed_poe_abi(sp)
                        &&& execution_accepts(input, *outcome, self.supported_chain_ids@)
                        &&& poe_of_input(sp.poe, input)
                        &&& Some(sp.id) == self.kp.id_spec()
                        &&& sp.new_instance@ == keypair_address(self.kp.active_spec().sk_spec())
                        &&& sp.signature@.len() == 65
                    },
                Err(ProveError::ProverNotRegistered) => execution_accepts(
                    input,
                    *outcome,
                    self.supported_chain_ids@,
                ) && self.kp.id_spec() is None,
                Err(ProveError::Execution(_)) => !execution_accepts(
                    input,
                    *outcome,
                    self.supported_chain_ids@,
                ),
                Err(_) => false,
            },
    {
        let sp = match prove(
            input,
            outcome,
            &self.supported_chain_ids,
            &self.prover_registry,
            &self.kp,
            self.tee_type,
        ) {
            Ok(sp) => sp,
            Err(e) => {
                return Err(e);
            },
        };
        let data = encode_signed_poe(&sp);
        Ok(ProofResponse { version: 1, data })
    }

    /// Prove a chained span and answer in the 89-byte packed form.
    pub fn prove_multi(&self, inputs: Vec<ProofInput>, outcomes: Vec<ExecutionOutcome>) -> (r:
        Result<ProofResponse, ProveError>)
        requires
            inputs@.len() == outcomes@.len(),
            forall|i: int|
                0 <= i < inputs@.len() ==> (#[trigger] inputs@[i]).parent_state_trie.wf()
                    && inputs@[i].parent_storage.wf(),
            self.wf(),
        ensures
            match r {
                Ok(resp) => resp.version == 1 && exists|sp: SignedPoe|
                    {
                        &&& #[trigger] resp.data@ == packed_proof(sp)
                        &&& inputs@.len() > 0
                        &&& sp.poe.parent_hash@ == header_hash(inputs@[0].parent_header)
                        &&& sp.poe.block_hash@ == header_hash(inputs@.last().l2_block.header)
                        &&& sp.signature@.len() == 65
                    },
                Err(ProveError::MissingPoe) => inputs@.len() == 0,
                Err(ProveError::ProverNotRegistered) => self.kp.id_spec() is None,
                Err(ProveError::BlockHashMismatch { idx, cur, prev }) => {
                    &&& 1 <= idx < inputs@.len()
                    &&& cur.parent_hash@ == header_hash(inputs@[idx as int].parent_header)
                    &&& prev.block_hash@ == header_hash(inputs@[idx - 1].l2_block.header)
                    &&& cur.parent_hash@ != prev.block_hash@
                },
                Err(ProveError::Execution(_)) => exists|i: int|
                    0 <= i < inputs@.len() && !execution_accepts(
                        #[trigger] inputs@[i],
                        outcomes@[i],
                        self.supported_chain_ids@,
                    ),
            },
    {
        let sp = match prove_multi_blocks(
            inputs,
            outcomes,
            &self.supported_chain_ids,
            &self.prover_registry,
            &self.kp,
            self.tee_type,
        ) {
            Ok(sp) => sp,
            Err(e) => {
                return Err(e);
            },
        };
        let data = pack_proof(&sp);
        Ok(ProofResponse { version: 1, data })
    }
}

} // verus!
