//! Block headers on plain values, with the canonical RLP encoding whose
//! keccak digest is the block hash.  Optional trailing fields follow the
//! fork rules: each is encoded exactly when present.

use vstd::prelude::*;
use crate::words::{B256, U256, Address};
use crate::keccak::{keccak_of, keccak256_vec};
use crate::rlp::{rlp_str, rlp_u64, rlp_u256, rlp_list, append_rlp_str, append_rlp_u64,
    append_rlp_u256, wrap_rlp_list};

verus! {

/// An execution-layer block header.
#[derive(Clone, Debug, PartialEq, Eq)]
pub struct Header {
    pub parent_hash: B256,
    pub ommers_hash: B256,
    pub beneficiary: Address,
    pub state_root: B256,
    pub transactions_root: B256,
    pub receipts_root: B256,
    pub logs_bloom: [u8; 256],
    pub difficulty: U256,
    pub number: u64,
    pub gas_limit: u64,
    pub gas_used: u64,
    pub timestamp: u64,
    pub extra_data: Vec<u8>,
    pub mix_hash: B256,
    pub nonce: [u8; 8],
    pub base_fee_per_gas: Option<u64>,
    pub withdrawals_root: Option<B256>,
    pub blob_gas_used: Option<u64>,
    pub excess_blob_gas: Option<u64>,
    pub parent_beacon_block_root: Option<B256>,
}

/// The RLP payload of a header: the fifteen fixed fields, then each
/// optional field that is present, in protocol order.
pub open spec fn header_payload(h: Header) -> Seq<u8> {
    let fixed = rlp_str(h.parent_hash@) + rlp_str(h.ommers_hash@) + rlp_str(h.beneficiary@)
        + rlp_str(h.state_root@) + rlp_str(h.transactions_root@) + rlp_str(h.receipts_root@)
        + rlp_str(h.logs_bloom@) + rlp_u256(h.difficulty@) + rlp_u64(h.number) + rlp_u64(
        h.gas_limit,
    ) + rlp_u64(h.gas_used) + rlp_u64(h.timestamp) + rlp_str(h.extra_data@) + rlp_str(h.mix_hash@)
        + rlp_str(h.nonce@);
    let t1 = match h.base_fee_per_gas {
        Some(v) => rlp_u64(v),
        None => Seq::empty(),
    };
    let t2 = match h.withdrawals_root {
        Some(w) => rlp_str(w@),
        None => Seq::empty(),
    };
    let t3 = match h.blob_gas_used {
        Some(v) => rlp_u64(v),
        None => Seq::empty(),
    };
    let t4 = match h.excess_blob_gas {
        Some(v) => rlp_u64(v),
        None => Seq::empty(),
    };
    let t5 = match h.parent_beacon_block_root {
        Some(w) => rlp_str(w@),
        None => Seq::empty(),
    };
    fixed + t1 + t2 + t3 + t4 + t5
}

/// The canonical RLP of a header.
pub open spec fn header_rlp(h: Header) -> Seq<u8> {
    rlp_list(header_payload(h))
}

/// The block hash: keccak of the canonical header RLP.
pub open spec fn header_hash(h: Header) -> Seq<u8> {
    keccak_of(header_rlp(h))
}

/// Field-for-field sameness of two headers, byte contents compared by
/// view: what a copy preserves, and all the block hash depends on.
pub open spec fn header_eq(a: Header, b: Header) -> bool {
    &&& a.parent_hash == b.parent_hash
    &&& a.ommers_hash == b.ommers_hash
    &&& a.beneficiary == b.beneficiary
    &&& a.state_root == b.state_root
    &&& a.transactions_root == b.transactions_root
    &&& a.receipts_root == b.receipts_root
    &&& a.logs_bloom == b.logs_bloom
    &&& a.difficulty == b.difficulty
    &&& a.number == b.number
    &&& a.gas_limit == b.gas_limit
    &&& a.gas_used == b.gas_used
    &&& a.timestamp == b.timestamp
    &&& a.extra_data@ == b.extra_data@
    &&& a.mix_hash == b.mix_hash
    &&& a.nonce == b.nonce
    &&& a.base_fee_per_gas == b.base_fee_per_gas
    &&& a.withdrawals_root == b.withdrawals_root
    &&& a.blob_gas_used == b.blob_gas_used
    &&& a.excess_blob_gas == b.excess_blob_gas
    &&& a.parent_beacon_block_root == b.parent_beacon_block_root
}

/// Same fields, same hash.
pub proof fn lemma_header_eq_hash(a: Header, b: Header)
    requires
        header_eq(a, b),
    ensures
        header_hash(a) == header_hash(b),
{
    assert(header_payload(a) == header_payload(b));
}

impl Header {
    /// An identical copy.
    pub fn duplicate(&self) -> (r: Header)
        ensures
            header_eq(r, *self),
            header_hash(r) == header_hash(*self),
    {
        let r = Header {
            parent_hash: self.parent_hash,
            ommers_hash: self.ommers_hash,
            beneficiary: self.beneficiary,
            state_root: self.state_root,
            transactions_root: self.transactions_root,
            receipts_root: self.receipts_root,
            logs_bloom: self.logs_bloom,
            difficulty: self.difficulty,
            number: self.number,
            gas_limit: self.gas_limit,
            gas_used: self.gas_used,
            timestamp: self.timestamp,
            extra_data: crate::words::slice_to_vec(self.extra_data.as_slice()),
            mix_hash: self.mix_hash,
            nonce: self.nonce,
            base_fee_per_gas: self.base_fee_per_gas,
            withdrawals_root: self.withdrawals_root,
            blob_gas_used: self.blob_gas_used,
            excess_blob_gas: self.excess_blob_gas,
            parent_beacon_block_root: self.parent_beacon_block_root,
        };
        proof {
            lemma_header_eq_hash(r, *self);
        }
        r
    }

    /// Compute the block hash.
    pub fn hash(&self) -> (r: B256)
        ensures
            r@ == header_hash(*self),
            r@.len() == 32,
    {
        let mut p: Vec<u8> = Vec::new();
        append_rlp_str(&mut p, self.parent_hash.bytes.as_slice());
        append_rlp_str(&mut p, self.ommers_hash.bytes.as_slice());
        append_rlp_str(&mut p, self.beneficiary.bytes.as_slice());
        append_rlp_str(&mut p, self.state_root.bytes.as_slice());
        append_rlp_str(&mut p, self.transactions_root.bytes.as_slice());
        append_rlp_str(&mut p, self.receipts_root.bytes.as_slice());
        append_rlp_str(&mut p, self.logs_bloom.as_slice());
        append_rlp_u256(&mut p, self.difficulty.be.as_slice());
        append_rlp_u64(&mut p, self.number);
        append_rlp_u64(&mut p, self.gas_limit);
        append_rlp_u64(&mut p, self.gas_used);
        append_rlp_u64(&mut p, self.timestamp);
        append_rlp_str(&mut p, self.extra_data.as_slice());
        append_rlp_str(&mut p, self.mix_hash.bytes.as_slice());
        append_rlp_str(&mut p, self.nonce.as_slice());
        match &self.base_fee_per_gas {
            Some(v) => append_rlp_u64(&mut p, *v),
            None => (),
        }
        match &self.withdrawals_root {
            Some(w) => append_rlp_str(&mut p, w.bytes.as_slice()),
            None => (),
        }
        match &self.blob_gas_used {
            Some(v) => append_rlp_u64(&mut p, *v),
            None => (),
        }
        match &self.excess_blob_gas {
            Some(v) => append_rlp_u64(&mut p, *v),
            None => (),
        }
        match &self.parent_beacon_block_root {
            Some(w) => append_rlp_str(&mut p, w.bytes.as_slice()),
            None => (),
        }
        assert(p@ =~= header_payload(*self));
        let framed = wrap_rlp_list(p);
        keccak256_vec(&framed)
    }
}

/// A block: the header and the raw transactions of the body, each kept in
/// its encoded wire form, plus optional withdrawals.
#[derive(Clone, Debug, PartialEq, Eq)]
pub struct Block {
    pub header: Header,
    pub transactions: Vec<Vec<u8>>,
    pub withdrawals: Option<Vec<Vec<u8>>>,
}

impl Block {
    /// The block hash is the hash of the header.
    pub fn hash(&self) -> (r: B256)
        ensures
            r@ == header_hash(self.header),
            r@.len() == 32,
    {
        self.header.hash()
    }

    /// The number of transactions in the body.
    pub fn body_len(&self) -> (r: usize)
        ensures
            r == self.transactions@.len(),
    {
        self.transactions.len()
    }
}

} // verus!
