//! The proof of execution: the four-word state-transition summary, its
//! canonical signed message, the signed wire form, and multi-block
//! aggregation.

use vstd::prelude::*;
use crate::words::{B256, U256, Address, u64_to_be32, u64_of_word, slice_eq};
use crate::keccak::{keccak_of, keccak256_vec};
use crate::abi::{zero_pad, addr32, addr_word, u64_word, append_padded, append_word};
use crate::rlp::append_bytes;
use crate::state::copy_range;
use crate::keypair::{Keypair, ecdsa_sig_of};
use crate::pob::{Pob, meta_hash, meta_hash_spec};
use crate::prove::ProveError;

verus! {

/// The four-word summary of one state transition: starting from the
/// parent's post-state, executing the witnessed transactions produces
/// `block_hash` with post-state root `state_root`, tagged `graffiti`.
#[derive(Clone, Copy, Debug, PartialEq, Eq)]
pub struct Poe {
    pub parent_hash: B256,
    pub block_hash: B256,
    pub state_root: B256,
    pub graffiti: B256,
}

/// A proof of execution with the registry identity that vouches for it.
#[derive(Clone, Debug)]
pub struct SignedPoe {
    pub poe: Poe,
    pub id: U256,
    pub new_instance: Address,
    /// 65 bytes: `r ‖ s ‖ v`.
    pub signature: Vec<u8>,
    /// 1 tags Intel TDX; 201 tags the mock environment.
    pub tee_type: U256,
}

/// The ASCII bytes of the domain tag `VERIFY_PROOF`.
pub open spec fn verify_proof_tag() -> Seq<u8> {
    seq![0x56u8, 0x45u8, 0x52u8, 0x49u8, 0x46u8, 0x59u8, 0x5fu8, 0x50u8, 0x52u8, 0x4fu8, 0x4fu8,
        0x46u8]
}

/// The canonical signed message: the ABI tuple
/// `("VERIFY_PROOF", chain_id, registry, poe, new_instance, prover,
/// meta_hash)` without its leading tuple-offset word, so the bytes equal
/// the registry's own view of the message.  Ten head words (the tag offset
/// first), then the tag's length-prefixed tail.
pub open spec fn signed_msg_spec(
    chain_id: u64,
    registry: Seq<u8>,
    poe: Poe,
    new_instance: Seq<u8>,
    prover: Seq<u8>,
    meta_hash_word: Seq<u8>,
) -> Seq<u8> {
    u64_to_be32(320) + u64_to_be32(chain_id) + addr32(registry) + poe.parent_hash@
        + poe.block_hash@ + poe.state_root@ + poe.graffiti@ + addr32(new_instance) + addr32(prover)
        + meta_hash_word + u64_to_be32(12) + zero_pad(verify_proof_tag())
}

/// The ABI wire form of a signed proof, as a standalone dynamic value:
/// offset word, eight head words, then the signature tail.
pub open spec fn signed_poe_abi(sp: SignedPoe) -> Seq<u8> {
    u64_to_be32(32) + sp.poe.parent_hash@ + sp.poe.block_hash@ + sp.poe.state_root@
        + sp.poe.graffiti@ + sp.id@ + addr32(sp.new_instance@) + u64_to_be32(256) + sp.tee_type@
        + u64_to_be32(sp.signature@.len() as u64) + zero_pad(sp.signature@)
}

impl Poe {
    /// Build the canonical signed message for this proof under the given
    /// witness, registry, and signing address.
    pub fn signed_msg(&self, pob: &Pob, prover_registry: &Address, new_instance: &Address) -> (r:
        Vec<u8>)
        ensures
            r@ == signed_msg_spec(
                pob.data.chain_id,
                prover_registry@,
                *self,
                new_instance@,
                pob.data.prover@,
                meta_hash_spec(pob.data.block_meta),
            ),
    {
        let meta = meta_hash(&pob.data.block_meta);
        let mut out: Vec<u8> = Vec::new();
        let w = u64_word(320);
        append_word(&mut out, &w);
        let w = u64_word(pob.data.chain_id);
        append_word(&mut out, &w);
        let w = addr_word(prover_registry);
        append_word(&mut out, &w);
        append_word(&mut out, &self.parent_hash);
        append_word(&mut out, &self.block_hash);
        append_word(&mut out, &self.state_root);
        append_word(&mut out, &self.graffiti);
        let w = addr_word(new_instance);
        append_word(&mut out, &w);
        let w = addr_word(&pob.data.prover);
        append_word(&mut out, &w);
        append_word(&mut out, &meta);
        let w = u64_word(12);
        append_word(&mut out, &w);
        let tag = verify_proof_tag_bytes();
        append_padded(&mut out, tag.as_slice());
        assert(out@ =~= signed_msg_spec(
            pob.data.chain_id,
            prover_registry@,
            *self,
            new_instance@,
            pob.data.prover@,
            meta_hash_spec(pob.data.block_meta),
        ));
        out
    }

    /// Sign this proof: a recoverable ECDSA signature over the keccak of
    /// the canonical message, wrapped with the registry identity.
    pub fn sign(
        self,
        pob: &Pob,
        id: U256,
        prover_registry: &Address,
        new_instance: &Address,
        kp: &Keypair,
        tee_type: U256,
    ) -> (r: SignedPoe)
        requires
            kp.wf(),
        ensures
            r.poe == self,
            r.id == id,
            r.new_instance == *new_instance,
            r.tee_type == tee_type,
            r.signature@ == ecdsa_sig_of(
                kp.sk_spec(),
                keccak_of(
                    signed_msg_spec(
                        pob.data.chain_id,
                        prover_registry@,
                        self,
                        new_instance@,
                        pob.data.prover@,
                        meta_hash_spec(pob.data.block_meta),
                    ),
                ),
            ),
            r.signature@.len() == 65,
            r.signature@[64] <= 3,
    {
        let msg = self.signed_msg(pob, prover_registry, new_instance);
        let digest = keccak256_vec(&msg);
        let sig = kp.sign_digest_ecdsa(&digest);
        SignedPoe { poe: self, id, new_instance: *new_instance, signature: sig, tee_type }
    }

    /// Aggregate and sign a chained span of proofs.  The proofs must pair
    /// with their witnesses and chain: each parent hash is the previous
    /// block hash.  The aggregate takes the first proof's parent hash and
    /// the last proof's other fields, and is signed under the last
    /// witness's chain id, prover, and metadata.
    pub fn sign_multi(
        poes: &Vec<Poe>,
        pobs: &Vec<Pob>,
        id: U256,
        prover_registry: &Address,
        new_instance: &Address,
        kp: &Keypair,
        tee_type: U256,
    ) -> (r: Result<SignedPoe, ProveError>)
        requires
            kp.wf(),
        ensures
            match r {
                Ok(sp) => {
                    &&& poes@.len() == pobs@.len()
                    &&& poes@.len() > 0
                    &&& forall|i: int|
                        1 <= i < poes@.len() ==> (#[trigger] poes@[i]).parent_hash@ == poes@[i
                            - 1].block_hash@
                    &&& sp.poe.parent_hash == poes@[0].parent_hash
                    &&& sp.poe.block_hash == poes@.last().block_hash
                    &&& sp.poe.state_root == poes@.last().state_root
                    &&& sp.poe.graffiti == poes@.last().graffiti
                    &&& sp.id == id
                    &&& sp.new_instance == *new_instance
                    &&& sp.tee_type == tee_type
                    &&& sp.signature@ == ecdsa_sig_of(
                        kp.sk_spec(),
                        keccak_of(
                            signed_msg_spec(
                                pobs@.last().data.chain_id,
                                prover_registry@,
                                sp.poe,
                                new_instance@,
                                pobs@.last().data.prover@,
                                meta_hash_spec(pobs@.last().data.block_meta),
                            ),
                        ),
                    )
                    &&& sp.signature@.len() == 65
                    &&& sp.signature@[64] <= 3
                },
                Err(ProveError::MissingPoe) => poes@.len() != pobs@.len() || poes@.len() == 0,
                Err(ProveError::BlockHashMismatch { idx, cur, prev }) => {
                    &&& poes@.len() == pobs@.len()
                    &&& 1 <= idx < poes@.len()
                    &&& cur == poes@[idx as int]
                    &&& prev == poes@[idx - 1]
                    &&& cur.parent_hash@ != prev.block_hash@
                    &&& forall|j: int|
                        1 <= j < idx ==> (#[trigger] poes@[j]).parent_hash@ == poes@[j
                            - 1].block_hash@
                },
                Err(_) => false,
            },
    {
        let n = poes.len();
        if n != pobs.len() || n == 0 {
            return Err(ProveError::MissingPoe);
        }
        let mut idx: usize = 1;
        while idx < n
            invariant
                n == poes@.len(),
                n == pobs@.len(),
                1 <= idx <= n,
                forall|j: int|
                    1 <= j < idx ==> (#[trigger] poes@[j]).parent_hash@ == poes@[j
                        - 1].block_hash@,
            decreases n - idx,
        {
            if !poes[idx].parent_hash.eq_bytes(&poes[idx - 1].block_hash) {
                return Err(ProveError::BlockHashMismatch {
                    idx,
                    cur: poes[idx],
                    prev: poes[idx - 1],
                });
            }
            idx = idx + 1;
        }
        let last = &poes[n - 1];
        let aggregated = Poe {
            parent_hash: poes[0].parent_hash,
            block_hash: last.block_hash,
            state_root: last.state_root,
            graffiti: last.graffiti,
        };
        let last_pob = &pobs[n - 1];
        Ok(aggregated.sign(last_pob, id, prover_registry, new_instance, kp, tee_type))
    }
}

/// Signed-message determinism: the canonical message depends only on the
/// chain id, registry, proof, addresses, and metadata hash, so two
/// witnesses that agree on those yield byte-identical messages and
/// digests, whatever else they carry.
pub proof fn lemma_signed_msg_deterministic(
    p1: Pob,
    p2: Pob,
    poe: Poe,
    registry: Seq<u8>,
    new_instance: Seq<u8>,
)
    requires
        p1.data.chain_id == p2.data.chain_id,
        p1.data.prover@ == p2.data.prover@,
        meta_hash_spec(p1.data.block_meta) == meta_hash_spec(p2.data.block_meta),
    ensures
        signed_msg_spec(
            p1.data.chain_id,
            registry,
            poe,
            new_instance,
            p1.data.prover@,
            meta_hash_spec(p1.data.block_meta),
        ) == signed_msg_spec(
            p2.data.chain_id,
            registry,
            poe,
            new_instance,
            p2.data.prover@,
            meta_hash_spec(p2.data.block_meta),
        ),
        keccak_of(
            signed_msg_spec(
                p1.data.chain_id,
                registry,
                poe,
                new_instance,
                p1.data.prover@,
                meta_hash_spec(p1.data.block_meta),
            ),
        ) == keccak_of(
            signed_msg_spec(
                p2.data.chain_id,
                registry,
                poe,
                new_instance,
                p2.data.prover@,
                meta_hash_spec(p2.data.block_meta),
            ),
        ),
{
}

/// The domain tag as bytes.
fn verify_proof_tag_bytes() -> (r: Vec<u8>)
    ensures
        r@ == verify_proof_tag(),
{
    let mut r: Vec<u8> = Vec::new();
    r.push(0x56);
    r.push(0x45);
    r.push(0x52);
    r.push(0x49);
    r.push(0x46);
    r.push(0x59);
    r.push(0x5f);
    r.push(0x50);
    r.push(0x52);
    r.push(0x4f);
    r.push(0x4f);
    r.push(0x46);
    assert(r@ =~= verify_proof_tag());
    r
}

/// Encode a signed proof into its ABI wire form.
pub fn encode_signed_poe(sp: &SignedPoe) -> (r: Vec<u8>)
    ensures
        r@ == signed_poe_abi(*sp),
{
    let mut out: Vec<u8> = Vec::new();
    let w = u64_word(32);
    append_word(&mut out, &w);
    append_word(&mut out, &sp.poe.parent_hash);
    append_word(&mut out, &sp.poe.block_hash);
    append_word(&mut out, &sp.poe.state_root);
    append_word(&mut out, &sp.poe.graffiti);
    append_bytes(&mut out, sp.id.be.as_slice());
    let w = addr_word(&sp.new_instance);
    append_word(&mut out, &w);
    let w = u64_word(256);
    append_word(&mut out, &w);
    append_bytes(&mut out, sp.tee_type.be.as_slice());
    let w = u64_word(sp.signature.len() as u64);
    append_word(&mut out, &w);
    append_padded(&mut out, sp.signature.as_slice());
    assert(out@ =~= signed_poe_abi(*sp));
    out
}

/// Read the 32-byte word at `pos`.
fn read_word(data: &[u8], pos: usize) -> (r: B256)
    requires
        pos + 32 <= data@.len(),
    ensures
        r@ == data@.subrange(pos as int, pos + 32),
{
    let mut bytes = [0u8; 32];
    let total = data.len();
    let mut i: usize = 0;
    while i < 32
        invariant
            pos + 32 <= data@.len(),
            total == data@.len(),
            i <= 32,
            forall|j: int| 0 <= j < i ==> bytes@[j] == data@[pos + j],
        decreases 32 - i,
    {
        bytes[i] = data[pos + i];
        i = i + 1;
    }
    let r = B256 { bytes };
    assert(r@ =~= data@.subrange(pos as int, pos + 32));
    r
}

/// What the fixed offsets of the wire form hold when the bytes are a
/// canonical encoding.
proof fn lemma_canonical_layout(data: Seq<u8>, x: SignedPoe)
    requires
        data == signed_poe_abi(x),
    ensures
        data.len() == 320 + zero_pad(x.signature@).len(),
        data.len() >= 320 + x.signature@.len(),
        data.subrange(32, 64) == x.poe.parent_hash@,
        data.subrange(64, 96) == x.poe.block_hash@,
        data.subrange(96, 128) == x.poe.state_root@,
        data.subrange(128, 160) == x.poe.graffiti@,
        data.subrange(160, 192) == x.id@,
        data.subrange(192, 224) == addr32(x.new_instance@),
        data.subrange(256, 288) == x.tee_type@,
        data.subrange(288, 320) == u64_to_be32(x.signature@.len() as u64),
        data.subrange(320, 320 + x.signature@.len() as int) == x.signature@,
{
    assert(zero_pad(x.signature@).len() >= x.signature@.len());
    assert forall|j: int| 0 <= j < 32 implies data[32 + j] == x.poe.parent_hash@[j] by {}
    assert(data.subrange(32, 64) =~= x.poe.parent_hash@);
    assert forall|j: int| 0 <= j < 32 implies data[64 + j] == x.poe.block_hash@[j] by {}
    assert(data.subrange(64, 96) =~= x.poe.block_hash@);
    assert forall|j: int| 0 <= j < 32 implies data[96 + j] == x.poe.state_root@[j] by {}
    assert(data.subrange(96, 128) =~= x.poe.state_root@);
    assert forall|j: int| 0 <= j < 32 implies data[128 + j] == x.poe.graffiti@[j] by {}
    assert(data.subrange(128, 160) =~= x.poe.graffiti@);
    assert forall|j: int| 0 <= j < 32 implies data[160 + j] == x.id@[j] by {}
    assert(data.subrange(160, 192) =~= x.id@);
    assert forall|j: int| 0 <= j < 32 implies data[192 + j] == addr32(x.new_instance@)[j] by {}
    assert(data.subrange(192, 224) =~= addr32(x.new_instance@));
    assert forall|j: int| 0 <= j < 32 implies data[256 + j] == x.tee_type@[j] by {}
    assert(data.subrange(256, 288) =~= x.tee_type@);
    assert forall|j: int| 0 <= j < 32 implies #[trigger] data[288 + j] == u64_to_be32(
        x.signature@.len() as u64,
    )[j] by {}
    assert(data.subrange(288, 320) =~= u64_to_be32(x.signature@.len() as u64));
    assert forall|j: int| 0 <= j < x.signature@.len() implies data[320 + j]
        == x.signature@[j] by {
        assert(zero_pad(x.signature@)[j] == x.signature@[j]);
    }
    assert(data.subrange(320, 320 + x.signature@.len() as int) =~= x.signature@);
}

/// Decode a signed proof from its ABI wire form.  The fields are read at
/// their fixed offsets and the record is re-encoded: the result is
/// returned exactly when the bytes are the canonical encoding of some
/// signed proof, and is then that proof.
pub fn decode_signed_poe(data: &[u8]) -> (r: Option<SignedPoe>)
    ensures
        match r {
            Some(sp) => data@ == signed_poe_abi(sp) && sp.signature@.len() <= data@.len(),
            None => true,
        },
        (exists|x: SignedPoe| data@ == #[trigger] signed_poe_abi(x) && x.signature@.len()
            <= usize::MAX) ==> r is Some,
{
    let total = data.len();
    if total < 320 {
        proof {
            if exists|x: SignedPoe| data@ == #[trigger] signed_poe_abi(x) && x.signature@.len()
                <= usize::MAX {
                let x = choose|x: SignedPoe|
                    data@ == #[trigger] signed_poe_abi(x) && x.signature@.len() <= usize::MAX;
                lemma_canonical_layout(data@, x);
            }
        }
        return None;
    }
    let parent_hash = read_word(data, 32);
    let block_hash = read_word(data, 64);
    let state_root = read_word(data, 96);
    let graffiti = read_word(data, 128);
    let id = U256 { be: read_word(data, 160).bytes };
    let instance_word = read_word(data, 192);
    let mut instance = [0u8; 20];
    let mut i: usize = 0;
    while i < 20
        invariant
            i <= 20,
            forall|j: int| 0 <= j < i ==> instance@[j] == instance_word@[12 + j],
        decreases 20 - i,
    {
        instance[i] = instance_word.bytes[12 + i];
        i = i + 1;
    }
    let tee_type = U256 { be: read_word(data, 256).bytes };
    let len_word = read_word(data, 288);
    let sig_len_u64 = match u64_of_word(len_word.bytes.as_slice()) {
        Some(v) => v,
        None => {
            proof {
                if exists|x: SignedPoe| data@ == #[trigger] signed_poe_abi(x)
                    && x.signature@.len() <= usize::MAX {
                    let x = choose|x: SignedPoe|
                        data@ == #[trigger] signed_poe_abi(x) && x.signature@.len() <= usize::MAX;
                    lemma_canonical_layout(data@, x);
                    assert(len_word@ == u64_to_be32(x.signature@.len() as u64));
                }
            }
            return None;
        },
    };
    if sig_len_u64 > (usize::MAX as u64) {
        proof {
            if exists|x: SignedPoe| data@ == #[trigger] signed_poe_abi(x) && x.signature@.len()
                <= usize::MAX {
                let x = choose|x: SignedPoe|
                    data@ == #[trigger] signed_poe_abi(x) && x.signature@.len() <= usize::MAX;
                lemma_canonical_layout(data@, x);
                lemma_u64_to_be32_injective(sig_len_u64, x.signature@.len() as u64);
            }
        }
        return None;
    }
    let sig_len = sig_len_u64 as usize;
    if sig_len > total - 320 {
        proof {
            if exists|x: SignedPoe| data@ == #[trigger] signed_poe_abi(x) && x.signature@.len()
                <= usize::MAX {
                let x = choose|x: SignedPoe|
                    data@ == #[trigger] signed_poe_abi(x) && x.signature@.len() <= usize::MAX;
                lemma_canonical_layout(data@, x);
                lemma_u64_to_be32_injective(sig_len_u64, x.signature@.len() as u64);
            }
        }
        return None;
    }
    let signature = copy_range(data, 320, sig_len);
    let sp = SignedPoe {
        poe: Poe { parent_hash, block_hash, state_root, graffiti },
        id,
        new_instance: Address { bytes: instance },
        signature,
        tee_type,
    };
    let canonical = encode_signed_poe(&sp);
    if slice_eq(canonical.as_slice(), data) {
        Some(sp)
    } else {
        proof {
            if exists|x: SignedPoe| data@ == #[trigger] signed_poe_abi(x) && x.signature@.len()
                <= usize::MAX {
                let x = choose|x: SignedPoe|
                    data@ == #[trigger] signed_poe_abi(x) && x.signature@.len() <= usize::MAX;
                lemma_canonical_layout(data@, x);
                lemma_u64_to_be32_injective(sig_len_u64, x.signature@.len() as u64);
                assert(sp.poe.parent_hash@ == x.poe.parent_hash@);
                assert(sp.poe.block_hash@ == x.poe.block_hash@);
                assert(sp.poe.state_root@ == x.poe.state_root@);
                assert(sp.poe.graffiti@ == x.poe.graffiti@);
                assert(sp.id@ == x.id@);
                assert(sp.tee_type@ == x.tee_type@);
                assert(sp.new_instance@ =~= x.new_instance@) by {
                    assert forall|j: int| 0 <= j < 20 implies sp.new_instance@[j]
                        == x.new_instance@[j] by {
                        assert(sp.new_instance@[j] == instance_word@[12 + j]);
                        assert(instance_word@[12 + j] == addr32(x.new_instance@)[12 + j]);
                    }
                }
                assert(sp.signature@ == x.signature@);
                assert(signed_poe_abi(sp) == signed_poe_abi(x));
                assert(canonical@ == data@);
            }
        }
        None
    }
}

/// The ABI wire form determines every field: two signed proofs with the
/// same encoding agree everywhere, so a successful decode names the one
/// value that encodes to its input.
pub proof fn lemma_signed_poe_abi_injective(a: SignedPoe, b: SignedPoe)
    requires
        signed_poe_abi(a) == signed_poe_abi(b),
        a.signature@.len() <= usize::MAX,
        b.signature@.len() <= usize::MAX,
    ensures
        a.poe.parent_hash@ == b.poe.parent_hash@,
        a.poe.block_hash@ == b.poe.block_hash@,
        a.poe.state_root@ == b.poe.state_root@,
        a.poe.graffiti@ == b.poe.graffiti@,
        a.id@ == b.id@,
        a.new_instance@ == b.new_instance@,
        a.tee_type@ == b.tee_type@,
        a.signature@ == b.signature@,
{
    let ea = signed_poe_abi(a);
    let eb = signed_poe_abi(b);
    assert forall|j: int| 0 <= j < 32 implies a.poe.parent_hash@[j] == b.poe.parent_hash@[j] by {
        assert(ea[32 + j] == a.poe.parent_hash@[j]);
        assert(eb[32 + j] == b.poe.parent_hash@[j]);
    }
    assert(a.poe.parent_hash@ =~= b.poe.parent_hash@);
    assert forall|j: int| 0 <= j < 32 implies a.poe.block_hash@[j] == b.poe.block_hash@[j] by {
        assert(ea[64 + j] == a.poe.block_hash@[j]);
        assert(eb[64 + j] == b.poe.block_hash@[j]);
    }
    assert(a.poe.block_hash@ =~= b.poe.block_hash@);
    assert forall|j: int| 0 <= j < 32 implies a.poe.state_root@[j] == b.poe.state_root@[j] by {
        assert(ea[96 + j] == a.poe.state_root@[j]);
        assert(eb[96 + j] == b.poe.state_root@[j]);
    }
    assert(a.poe.state_root@ =~= b.poe.state_root@);
    assert forall|j: int| 0 <= j < 32 implies a.poe.graffiti@[j] == b.poe.graffiti@[j] by {
        assert(ea[128 + j] == a.poe.graffiti@[j]);
        assert(eb[128 + j] == b.poe.graffiti@[j]);
    }
    assert(a.poe.graffiti@ =~= b.poe.graffiti@);
    assert forall|j: int| 0 <= j < 32 implies a.id@[j] == b.id@[j] by {
        assert(ea[160 + j] == a.id@[j]);
        assert(eb[160 + j] == b.id@[j]);
    }
    assert(a.id@ =~= b.id@);
    assert forall|j: int| 0 <= j < 20 implies a.new_instance@[j] == b.new_instance@[j] by {
        assert(ea[192 + 12 + j] == addr32(a.new_instance@)[12 + j]);
        assert(eb[192 + 12 + j] == addr32(b.new_instance@)[12 + j]);
    }
    assert(a.new_instance@ =~= b.new_instance@);
    assert forall|j: int| 0 <= j < 32 implies a.tee_type@[j] == b.tee_type@[j] by {
        assert(ea[256 + j] == a.tee_type@[j]);
        assert(eb[256 + j] == b.tee_type@[j]);
    }
    assert(a.tee_type@ =~= b.tee_type@);
    assert(a.signature@.len() == b.signature@.len()) by {
        assert forall|j: int| 0 <= j < 32 implies #[trigger] u64_to_be32(
            a.signature@.len() as u64,
        )[j] == u64_to_be32(b.signature@.len() as u64)[j] by {
            assert(ea[288 + j] == u64_to_be32(a.signature@.len() as u64)[j]);
            assert(eb[288 + j] == u64_to_be32(b.signature@.len() as u64)[j]);
        }
        assert(u64_to_be32(a.signature@.len() as u64) =~= u64_to_be32(b.signature@.len() as u64));
        lemma_u64_to_be32_injective(a.signature@.len() as u64, b.signature@.len() as u64);
    }
    assert forall|j: int| 0 <= j < a.signature@.len() implies a.signature@[j] == b.signature@[j] by {
        assert(ea[320 + j] == zero_pad(a.signature@)[j]);
        assert(eb[320 + j] == zero_pad(b.signature@)[j]);
    }
    assert(a.signature@ =~= b.signature@);
}

/// A `u64` is recoverable from its 32-byte word.
proof fn lemma_u64_to_be32_injective(x: u64, y: u64)
    requires
        u64_to_be32(x) == u64_to_be32(y),
    ensures
        x == y,
{
    assert forall|j: int| 0 <= j < 8 implies crate::words::u64_be_byte(x, j)
        == crate::words::u64_be_byte(y, j) by {
        assert(u64_to_be32(x)[24 + j] == crate::words::u64_be_byte(x, j));
        assert(u64_to_be32(y)[24 + j] == crate::words::u64_be_byte(y, j));
    }
    assert(crate::words::u64_be_byte(x, 0) == crate::words::u64_be_byte(y, 0) && crate::words::u64_be_byte(x, 1) == crate::words::u64_be_byte(y, 1) && crate::words::u64_be_byte(x, 2) == crate::words::u64_be_byte(y, 2) && crate::words::u64_be_byte(x, 3) == crate::words::u64_be_byte(y, 3) && crate::words::u64_be_byte(x, 4) == crate::words::u64_be_byte(y, 4) && crate::words::u64_be_byte(x, 5) == crate::words::u64_be_byte(y, 5) && crate::words::u64_be_byte(x, 6) == crate::words::u64_be_byte(y, 6) && crate::words::u64_be_byte(x, 7) == crate::words::u64_be_byte(y, 7));
    assert(((x >> 56u64) & 0xff) as u8 == ((y >> 56u64) & 0xff) as u8);
    assert(((x >> 48u64) & 0xff) as u8 == ((y >> 48u64) & 0xff) as u8);
    assert(((x >> 40u64) & 0xff) as u8 == ((y >> 40u64) & 0xff) as u8);
    assert(((x >> 32u64) & 0xff) as u8 == ((y >> 32u64) & 0xff) as u8);
    assert(((x >> 24u64) & 0xff) as u8 == ((y >> 24u64) & 0xff) as u8);
    assert(((x >> 16u64) & 0xff) as u8 == ((y >> 16u64) & 0xff) as u8);
    assert(((x >> 8u64) & 0xff) as u8 == ((y >> 8u64) & 0xff) as u8);
    assert(((x >> 0u64) & 0xff) as u8 == ((y >> 0u64) & 0xff) as u8);
    assert((((x >> 56u64) & 0xff) as u8 == ((y >> 56u64) & 0xff) as u8 && ((x >> 48u64) & 0xff)
        as u8 == ((y >> 48u64) & 0xff) as u8 && ((x >> 40u64) & 0xff) as u8 == ((y >> 40u64)
        & 0xff) as u8 && ((x >> 32u64) & 0xff) as u8 == ((y >> 32u64) & 0xff) as u8 && ((x
        >> 24u64) & 0xff) as u8 == ((y >> 24u64) & 0xff) as u8 && ((x >> 16u64) & 0xff) as u8 == ((
    y >> 16u64) & 0xff) as u8 && ((x >> 8u64) & 0xff) as u8 == ((y >> 8u64) & 0xff) as u8 && ((x
        >> 0u64) & 0xff) as u8 == ((y >> 0u64) & 0xff) as u8) ==> x == y) by (bit_vector);
}

} // verus!
