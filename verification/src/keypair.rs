//! The process identity: a secp256k1 keypair, its Ethereum address, and
//! the staged rotation that publishes a new key only once the registry has
//! acknowledged it.

use vstd::prelude::*;
use vstd::pervasive::unreached;
use crate::words::{B256, U256, Address};
use crate::keccak::{keccak_of, keccak256_vec};
use crate::state::copy_range;

verus! {

/// The public key derived from a secret scalar, in uncompressed 65-byte
/// serialization; a function of the secret bytes alone.
pub uninterp spec fn pubkey_of(sk: Seq<u8>) -> Seq<u8>;

/// Whether 32 bytes are a valid secret scalar; a function of the bytes
/// alone.
pub uninterp spec fn sk_valid(sk: Seq<u8>) -> bool;

/// The 65-byte recoverable ECDSA signature (`r ‖ s ‖ v`) of a digest under
/// a secret key.  The nonce is the RFC 6979 one, so the signature is a
/// function of the key and digest alone.
pub uninterp spec fn ecdsa_sig_of(sk: Seq<u8>, digest: Seq<u8>) -> Seq<u8>;

/// Relies on `secp256k1::generate_keypair`: a fresh secret scalar, always
/// valid, with `PublicKey::from_secret_key` of it serialized uncompressed
/// to 65 bytes.  The scalar is random; nothing else is assumed of it.
#[verifier::external_body]
fn secp_generate() -> (r: ([u8; 32], [u8; 65]))
    ensures
        sk_valid(r.0@),
        r.1@ == pubkey_of(r.0@),
{
    let (sk, pk) = secp256k1::generate_keypair(&mut secp256k1::rand::rng());
    (sk.secret_bytes(), pk.serialize_uncompressed())
}

/// Relies on `secp256k1::SecretKey::from_secret_bytes` (accepts exactly
/// the valid scalars), `RecoverableSignature::sign_ecdsa_recoverable`
/// (RFC 6979 deterministic nonce), and `serialize_compact`: 64 bytes
/// `r ‖ s` and a recovery id in `0 ..= 3`, returned with the id as the
/// 65th byte.
#[verifier::external_body]
fn secp_sign(sk: &[u8; 32], digest: &[u8; 32]) -> (r: Option<Vec<u8>>)
    ensures
        r is Some <==> sk_valid(sk@),
        r matches Some(sig) ==> sig@ == ecdsa_sig_of(sk@, digest@) && sig@.len() == 65
            && sig@[64] <= 3,
{
    let key = match secp256k1::SecretKey::from_secret_bytes(*sk) {
        Ok(k) => k,
        Err(_) => {
            return None;
        },
    };
    let msg = secp256k1::Message::from_digest(*digest);
    let s = secp256k1::ecdsa::RecoverableSignature::sign_ecdsa_recoverable(msg, &key);
    let (recid, rs) = s.serialize_compact();
    let mut sig = rs.to_vec();
    sig.push(recid.to_u8());
    Some(sig)
}

/// The Ethereum address of an uncompressed public key: the last 20 bytes
/// of the keccak of its 64 coordinate bytes.
pub open spec fn eth_address_of(pk: Seq<u8>) -> Seq<u8> {
    keccak_of(pk.skip(1)).skip(12)
}

/// The address a secret key answers for.
pub open spec fn keypair_address(sk: Seq<u8>) -> Seq<u8> {
    eth_address_of(pubkey_of(sk))
}

/// A secp256k1 identity key.
#[derive(Clone, Copy, Debug)]
pub struct Keypair {
    sk: [u8; 32],
    pk: [u8; 65],
}

impl Keypair {
    /// The key material is consistent: a valid scalar and its public key.
    pub closed spec fn wf(self) -> bool {
        sk_valid(self.sk@) && self.pk@ == pubkey_of(self.sk@)
    }

    /// The secret scalar.
    pub closed spec fn sk_spec(self) -> Seq<u8> {
        self.sk@
    }

    /// Generate a fresh key.
    pub fn new() -> (r: Keypair)
        ensures
            r.wf(),
    {
        let (sk, pk) = secp_generate();
        Keypair { sk, pk }
    }

    /// The secret key bytes.
    pub fn secret_key(&self) -> (r: [u8; 32])
        ensures
            r@ == self.sk_spec(),
    {
        self.sk
    }

    /// The uncompressed public key.
    pub fn public_key(&self) -> (r: [u8; 65])
        ensures
            self.wf() ==> r@ == pubkey_of(self.sk_spec()),
    {
        self.pk
    }

    /// The Ethereum address of the key.
    pub fn address(&self) -> (r: Address)
        requires
            self.wf(),
        ensures
            r@ == keypair_address(self.sk_spec()),
    {
        let coords = copy_range(self.pk.as_slice(), 1, 64);
        assert(coords@ =~= self.pk@.skip(1));
        let digest = keccak256_vec(&coords);
        let mut bytes = [0u8; 20];
        let mut i: usize = 0;
        while i < 20
            invariant
                i <= 20,
                digest@.len() == 32,
                forall|j: int| 0 <= j < i ==> bytes@[j] == digest@[12 + j],
            decreases 20 - i,
        {
            bytes[i] = digest.bytes[12 + i];
            i = i + 1;
        }
        let r = Address { bytes };
        assert(r@ =~= digest@.skip(12));
        r
    }

    /// Sign a 32-byte digest, recoverably: `r ‖ s ‖ v` with the recovery
    /// id `v` in `0 ..= 3` as the trailing byte.
    pub fn sign_digest_ecdsa(&self, digest: &B256) -> (r: Vec<u8>)
        requires
            self.wf(),
        ensures
            r@ == ecdsa_sig_of(self.sk_spec(), digest@),
            r@.len() == 65,
            r@[64] <= 3,
    {
        match secp_sign(&self.sk, &digest.bytes) {
            Some(sig) => sig,
            None => unreached(),
        }
    }
}

/// The shared prover identity: the active key, and the registry instance
/// id once a registration has committed.  `info` answers only from one
/// consistent snapshot; a rotation changes nothing until it commits.
pub struct KeypairStore {
    active: Keypair,
    id: Option<U256>,
}

impl KeypairStore {
    pub closed spec fn wf(self) -> bool {
        self.active.wf()
    }

    /// The active key.
    pub closed spec fn active_spec(self) -> Keypair {
        self.active
    }

    /// The committed instance id, if any.
    pub closed spec fn id_spec(self) -> Option<U256> {
        self.id
    }

    /// A fresh, uncommitted identity.
    pub fn new() -> (r: KeypairStore)
        ensures
            r.wf(),
            r.id_spec() is None,
    {
        KeypairStore { active: Keypair::new(), id: None }
    }

    /// The registered identity: `None` until a registration has committed,
    /// else the id, address and key of the one active snapshot.
    pub fn info(&self) -> (r: Option<(U256, Address, Keypair)>)
        requires
            self.wf(),
        ensures
            r is Some <==> self.id_spec() is Some,
            r matches Some((id, addr, kp)) ==> Some(id) == self.id_spec() && kp
                == self.active_spec() && addr@ == keypair_address(kp.sk_spec()) && kp.wf(),
    {
        match &self.id {
            Some(id) => Some((*id, self.active.address(), self.active)),
            None => None,
        }
    }

    /// One consistent copy of the identity snapshot, for readers that
    /// outlive the lock they read under.
    pub fn snapshot(&self) -> (r: KeypairStore)
        ensures
            r.active_spec() == self.active_spec(),
            r.id_spec() == self.id_spec(),
            r.wf() == self.wf(),
    {
        KeypairStore { active: self.active, id: self.id }
    }

    /// Stage a rotation: a fresh key that signs and reports but does not
    /// replace the active identity until `commit`.  Dropping the handle
    /// leaves the store unchanged.
    pub fn rotate(&self) -> (r: KeypairRotate)
        ensures
            r.kp.wf(),
    {
        KeypairRotate { kp: Keypair::new() }
    }
}

/// A staged rotation: the next identity key, not yet published.
pub struct KeypairRotate {
    pub kp: Keypair,
}

impl KeypairRotate {
    /// The address of the staged key.
    pub fn address(&self) -> (r: Address)
        requires
            self.kp.wf(),
        ensures
            r@ == keypair_address(self.kp.sk_spec()),
    {
        self.kp.address()
    }

    /// Atomically publish the staged key under its registry id: the id,
    /// address and secret replace the active snapshot together.
    pub fn commit(self, store: &mut KeypairStore, id: U256)
        requires
            self.kp.wf(),
        ensures
            final(store).wf(),
            final(store).active_spec() == self.kp,
            final(store).id_spec() == Some(id),
    {
        store.active = self.kp;
        store.id = Some(id);
    }
}

} // verus!
