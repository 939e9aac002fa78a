//! Identity behaviour: address derivation, signature recovery, rotation
//! atomicity, and the unregistered-prover error.

use secp256k1::ecdsa::{RecoverableSignature, RecoveryId};
use secp256k1::Message;
use tee_prover::keypair::{Keypair, KeypairStore};
use tee_prover::words::{B256, U256};

#[test]
fn address_is_keccak_of_pubkey() {
    let kp = Keypair::new();
    let pk = kp.public_key();
    let digest = alloy_primitives::keccak256(&pk[1..]);
    let addr = kp.address();
    assert_eq!(&addr.bytes[..], &digest[12..]);
}

#[test]
fn signature_recovers_to_signer() {
    let kp = Keypair::new();
    let digest = [0x5au8; 32];
    let sig = kp.sign_digest_ecdsa(&B256::from_array(digest));
    assert_eq!(sig.len(), 65);
    let recid = RecoveryId::try_from(sig[64] as i32).unwrap();
    let mut rs = [0u8; 64];
    rs.copy_from_slice(&sig[..64]);
    let recoverable = RecoverableSignature::from_compact(&rs, recid).unwrap();
    let recovered = recoverable.recover_ecdsa(Message::from_digest(digest)).unwrap();
    assert_eq!(recovered.serialize_uncompressed(), kp.public_key());
}

#[test]
fn signing_is_deterministic() {
    let kp = Keypair::new();
    let digest = B256::from_array([0x77u8; 32]);
    let a = kp.sign_digest_ecdsa(&digest);
    let b = kp.sign_digest_ecdsa(&digest);
    assert_eq!(a, b);
}

#[test]
fn rotation_commits_atomically() {
    let mut store = KeypairStore::new();
    // Uncommitted: no registered identity.
    assert!(store.info().is_none());

    // A dropped rotation changes nothing.
    let staged = store.rotate();
    drop(staged);
    assert!(store.info().is_none());

    // A committed rotation publishes id, address and key together.
    let staged = store.rotate();
    let staged_addr = staged.address();
    staged.commit(&mut store, U256::from_u64(7));
    let (id, addr, kp) = store.info().unwrap();
    assert_eq!(id.be, U256::from_u64(7).be);
    assert_eq!(addr.bytes, staged_addr.bytes);
    assert_eq!(kp.address().bytes, staged_addr.bytes);

    // A second rotation left uncommitted leaves the snapshot in place.
    let _unused = store.rotate();
    let (id2, addr2, _) = store.info().unwrap();
    assert_eq!(id2.be, id.be);
    assert_eq!(addr2.bytes, addr.bytes);
}
