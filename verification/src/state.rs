//! Accounts as the state trie stores them: the four-field RLP record under
//! the keccak of the address, and the RLP form of storage slot values.

use vstd::prelude::*;
use crate::words::{B256, U256, slice_eq};
use crate::rlp::{
    rlp_u64, rlp_u256, rlp_str, rlp_list, append_rlp_u64, append_rlp_u256, append_rlp_str,
    wrap_rlp_list, pad_be, be_strip, u64_be8, lemma_be_strip_minimal, lemma_be_strip_of_padded,
    lemma_short_str_at, read_short_str, u64_from_be_bytes,
};

verus! {

/// The per-account record of the state trie.
#[derive(Clone, Copy, Debug, PartialEq, Eq)]
pub struct StateAccount {
    pub nonce: u64,
    pub balance: U256,
    pub storage_root: B256,
    pub code_hash: B256,
}

/// The canonical RLP of an account record.
pub open spec fn account_rlp(a: StateAccount) -> Seq<u8> {
    rlp_list(rlp_u64(a.nonce) + rlp_u256(a.balance@) + rlp_str(a.storage_root@) + rlp_str(
        a.code_hash@,
    ))
}

/// The canonical RLP of a storage slot value: the minimal scalar form.
pub open spec fn storage_value_rlp(v: Seq<u8>) -> Seq<u8> {
    rlp_u256(v)
}

/// Copy `data[start .. start + len]` out.
pub fn copy_range(data: &[u8], start: usize, len: usize) -> (r: Vec<u8>)
    requires
        start + len <= data@.len(),
    ensures
        r@ == data@.subrange(start as int, start + len),
{
    let total = data.len();
    let mut r: Vec<u8> = Vec::new();
    let mut i: usize = 0;
    while i < len
        invariant
            start + len <= data@.len(),
            total == data@.len(),
            i <= len,
            r@ == data@.subrange(start as int, start + i),
        decreases len - i,
    {
        r.push(data[start + i]);
        assert(r@ =~= data@.subrange(start as int, start + i + 1));
        i = i + 1;
    }
    r
}

/// A 32-byte word from at most 32 big-endian bytes, left-padded with zeros.
fn word_from_be(bytes: &[u8]) -> (r: [u8; 32])
    requires
        bytes@.len() <= 32,
    ensures
        r@ == pad_be(bytes@, 32),
{
    let mut be = [0u8; 32];
    let n = bytes.len();
    let mut i: usize = 0;
    while i < n
        invariant
            n == bytes@.len() <= 32,
            i <= n,
            forall|j: int| 0 <= j < 32 - n ==> be@[j] == 0u8,
            forall|j: int| 32 - n <= j < 32 - n + i ==> be@[j] == bytes@[j - (32 - n)],
            forall|j: int| 32 - n + i <= j < 32 ==> be@[j] == 0u8,
        decreases n - i,
    {
        be[32 - n + i] = bytes[i];
        i = i + 1;
    }
    assert(be@ =~= pad_be(bytes@, 32));
    be
}

/// Encode an account record.
pub fn encode_account(a: &StateAccount) -> (r: Vec<u8>)
    ensures
        r@ == account_rlp(*a),
{
    let mut p: Vec<u8> = Vec::new();
    append_rlp_u64(&mut p, a.nonce);
    append_rlp_u256(&mut p, a.balance.be.as_slice());
    append_rlp_str(&mut p, a.storage_root.bytes.as_slice());
    append_rlp_str(&mut p, a.code_hash.bytes.as_slice());
    assert(p@ =~= rlp_u64(a.nonce) + rlp_u256(a.balance@) + rlp_str(a.storage_root@) + rlp_str(
        a.code_hash@,
    ));
    wrap_rlp_list(p)
}

/// The four RLP pieces of an account record, in order.
pub open spec fn account_payload(a: StateAccount) -> Seq<u8> {
    rlp_u64(a.nonce) + rlp_u256(a.balance@) + rlp_str(a.storage_root@) + rlp_str(a.code_hash@)
}

/// An account record always takes the one-length-byte long list form: the
/// payload runs from 68 to 108 bytes.
proof fn lemma_account_rlp_shape(a: StateAccount)
    ensures
        68 <= account_payload(a).len() <= 108,
        account_rlp(a) == seq![0xf8u8, account_payload(a).len() as u8] + account_payload(a),
{
    let p = account_payload(a);
    lemma_be_strip_minimal(u64_be8(a.nonce));
    lemma_be_strip_minimal(a.balance@);
    assert(1 <= rlp_u64(a.nonce).len() <= 9);
    assert(1 <= rlp_u256(a.balance@).len() <= 33);
    assert(rlp_str(a.storage_root@).len() == 33);
    assert(rlp_str(a.code_hash@).len() == 33);
    let v = p.len() as u64;
    assert(68 <= v <= 108);
    assert(v >= 68 && v <= 108 ==> ((v >> 56u64) & 0xff == 0 && (v >> 48u64) & 0xff == 0 && (v
        >> 40u64) & 0xff == 0 && (v >> 32u64) & 0xff == 0 && (v >> 24u64) & 0xff == 0 && (v
        >> 16u64) & 0xff == 0 && (v >> 8u64) & 0xff == 0 && (v >> 0u64) & 0xff == v))
        by (bit_vector);
    assert(forall|j: int| 0 <= j < 7 ==> u64_be8(v)[j] == 0u8);
    assert(u64_be8(v)[7] == v as u8);
    crate::rlp::lemma_be_strip_at(u64_be8(v), 7);
    assert(be_strip(u64_be8(v)) =~= seq![v as u8]);
    assert(account_rlp(a) =~= seq![0xf8u8, p.len() as u8] + p);
}

/// The embedded pieces of a canonical account record, each with its
/// offset: what the decoder's walk meets.
proof fn lemma_account_layout(data: Seq<u8>, a: StateAccount)
    requires
        data == account_rlp(a),
    ensures
        data.len() == 2 + account_payload(a).len(),
        data[0] == 0xf8,
        data[1] == account_payload(a).len() as u8,
        68 <= account_payload(a).len() <= 108,
        data.subrange(2, 2 + rlp_u64(a.nonce).len() as int) == rlp_u64(a.nonce),
        data.subrange(
            2 + rlp_u64(a.nonce).len() as int,
            2 + rlp_u64(a.nonce).len() as int + rlp_u256(a.balance@).len() as int,
        ) == rlp_u256(a.balance@),
        data.subrange(
            2 + rlp_u64(a.nonce).len() as int + rlp_u256(a.balance@).len() as int,
            2 + rlp_u64(a.nonce).len() as int + rlp_u256(a.balance@).len() as int + 33,
        ) == rlp_str(a.storage_root@),
        data.subrange(
            2 + rlp_u64(a.nonce).len() as int + rlp_u256(a.balance@).len() as int + 33,
            2 + rlp_u64(a.nonce).len() as int + rlp_u256(a.balance@).len() as int + 66,
        ) == rlp_str(a.code_hash@),
        2 + rlp_u64(a.nonce).len() + rlp_u256(a.balance@).len() + 66 == data.len(),
{
    lemma_account_rlp_shape(a);
    let p1 = rlp_u64(a.nonce);
    let p2 = rlp_u256(a.balance@);
    let p3 = rlp_str(a.storage_root@);
    let p4 = rlp_str(a.code_hash@);
    assert(p3.len() == 33 && p4.len() == 33);
    let o1: int = 2;
    let o2 = o1 + p1.len();
    let o3 = o2 + p2.len();
    let o4 = o3 + 33;
    assert forall|j: int| 0 <= j < p1.len() implies data[o1 + j] == p1[j] by {}
    assert(data.subrange(o1, o2 as int) =~= p1);
    assert forall|j: int| 0 <= j < p2.len() implies data[o2 + j] == p2[j] by {}
    assert(data.subrange(o2 as int, o3 as int) =~= p2);
    assert forall|j: int| 0 <= j < 33 implies data[o3 + j] == p3[j] by {}
    assert(data.subrange(o3 as int, o4 as int) =~= p3);
    assert forall|j: int| 0 <= j < 33 implies data[o4 + j] == p4[j] by {}
    assert(data.subrange(o4 as int, o4 + 33) =~= p4);
}

/// Decode an account record.  The four fields are read structurally and
/// the record is re-encoded: the result is returned exactly when the
/// bytes are the canonical encoding of some record, and is then that
/// record.
#[verifier::rlimit(80)]
pub fn decode_account(data: &[u8]) -> (r: Option<StateAccount>)
    ensures
        match r {
            Some(a) => data@ == account_rlp(a),
            None => true,
        },
        (exists|a: StateAccount| data@ == #[trigger] account_rlp(a)) ==> r is Some,
{
    let ghost canonical_input: bool = exists|a: StateAccount| data@ == #[trigger] account_rlp(a);
    let ghost wa = choose|a: StateAccount| data@ == #[trigger] account_rlp(a);
    proof {
        if canonical_input {
            lemma_account_layout(data@, wa);
        }
    }
    let total = data.len();
    if total < 2 || data[0] != 0xf8 {
        return None;
    }
    let plen = data[1] as usize;
    if 2 + plen != total {
        return None;
    }
    let it1 = match read_short_str(data, 2) {
        Some(it) => it,
        None => {
            proof {
                if canonical_input {
                    lemma_short_str_at(data@, 2, be_strip(u64_be8(wa.nonce)));
                    lemma_be_strip_minimal(u64_be8(wa.nonce));
                }
            }
            return None;
        },
    };
    proof {
        if canonical_input {
            lemma_short_str_at(data@, 2, be_strip(u64_be8(wa.nonce)));
            lemma_be_strip_minimal(u64_be8(wa.nonce));
        }
    }
    if it1.len > 8 {
        return None;
    }
    let nonce_bytes = copy_range(data, it1.start, it1.len);
    let nonce = u64_from_be_bytes(nonce_bytes.as_slice());
    let it2 = match read_short_str(data, it1.next) {
        Some(it) => it,
        None => {
            proof {
                if canonical_input {
                    lemma_short_str_at(data@, it1.next as int, be_strip(wa.balance@));
                    lemma_be_strip_minimal(wa.balance@);
                }
            }
            return None;
        },
    };
    proof {
        if canonical_input {
            lemma_short_str_at(data@, it1.next as int, be_strip(wa.balance@));
            lemma_be_strip_minimal(wa.balance@);
        }
    }
    if it2.len > 32 {
        return None;
    }
    let balance_bytes = copy_range(data, it2.start, it2.len);
    let balance = U256 { be: word_from_be(balance_bytes.as_slice()) };
    let it3 = match read_short_str(data, it2.next) {
        Some(it) => it,
        None => {
            proof {
                if canonical_input {
                    lemma_short_str_at(data@, it2.next as int, wa.storage_root@);
                }
            }
            return None;
        },
    };
    proof {
        if canonical_input {
            lemma_short_str_at(data@, it2.next as int, wa.storage_root@);
        }
    }
    if it3.len != 32 {
        return None;
    }
    let root_bytes = copy_range(data, it3.start, it3.len);
    let it4 = match read_short_str(data, it3.next) {
        Some(it) => it,
        None => {
            proof {
                if canonical_input {
                    lemma_short_str_at(data@, it3.next as int, wa.code_hash@);
                }
            }
            return None;
        },
    };
    proof {
        if canonical_input {
            lemma_short_str_at(data@, it3.next as int, wa.code_hash@);
        }
    }
    if it4.len != 32 || it4.next != total {
        return None;
    }
    let code_bytes = copy_range(data, it4.start, it4.len);
    let account = StateAccount {
        nonce,
        balance,
        storage_root: B256 { bytes: word_from_be(root_bytes.as_slice()) },
        code_hash: B256 { bytes: word_from_be(code_bytes.as_slice()) },
    };
    let canonical = encode_account(&account);
    if slice_eq(canonical.as_slice(), data) {
        Some(account)
    } else {
        proof {
            if canonical_input {
                lemma_re_encode_matches(data@, wa, account, nonce_bytes@, balance_bytes@,
                    root_bytes@, code_bytes@);
            }
        }
        None
    }
}

/// When the input is a canonical record and the decoder's walk extracted
/// its four pieces, re-encoding reproduces the input.
proof fn lemma_re_encode_matches(
    data: Seq<u8>,
    a: StateAccount,
    b: StateAccount,
    nonce_bytes: Seq<u8>,
    balance_bytes: Seq<u8>,
    root_bytes: Seq<u8>,
    code_bytes: Seq<u8>,
)
    requires
        data == account_rlp(a),
        nonce_bytes == be_strip(u64_be8(a.nonce)),
        balance_bytes == be_strip(a.balance@),
        root_bytes == a.storage_root@,
        code_bytes == a.code_hash@,
        u64_be8(b.nonce) == pad_be(nonce_bytes, 8),
        b.balance@ == pad_be(balance_bytes, 32),
        b.storage_root@ == pad_be(root_bytes, 32),
        b.code_hash@ == pad_be(code_bytes, 32),
    ensures
        account_rlp(b) == data,
{
    lemma_be_strip_minimal(u64_be8(a.nonce));
    lemma_be_strip_of_padded(nonce_bytes, 8);
    assert(be_strip(u64_be8(b.nonce)) == nonce_bytes);
    lemma_be_strip_minimal(a.balance@);
    lemma_be_strip_of_padded(balance_bytes, 32);
    assert(be_strip(b.balance@) == balance_bytes);
    assert(b.storage_root@ =~= a.storage_root@);
    assert(b.code_hash@ =~= a.code_hash@);
    assert(rlp_u64(b.nonce) == rlp_u64(a.nonce));
    assert(rlp_u256(b.balance@) == rlp_u256(a.balance@));
}

/// Encode a storage slot value.
pub fn encode_storage_value(v: &U256) -> (r: Vec<u8>)
    ensures
        r@ == storage_value_rlp(v@),
{
    let mut p: Vec<u8> = Vec::new();
    append_rlp_u256(&mut p, v.be.as_slice());
    assert(p@ =~= rlp_u256(v@));
    p
}

/// Decode a storage slot value.  Returned exactly when the bytes are the
/// canonical minimal scalar form of some value, and then that value.
pub fn decode_storage_value(data: &[u8]) -> (r: Option<U256>)
    ensures
        match r {
            Some(v) => data@ == storage_value_rlp(v@),
            None => true,
        },
        (exists|v: U256| data@ == storage_value_rlp(#[trigger] v@)) ==> r is Some,
{
    let ghost canonical_input: bool = exists|v: U256| data@ == storage_value_rlp(#[trigger] v@);
    let ghost wv = choose|v: U256| data@ == storage_value_rlp(#[trigger] v@);
    proof {
        if canonical_input {
            lemma_be_strip_minimal(wv.be@);
            assert(data@.subrange(0, rlp_str(be_strip(wv.be@)).len() as int) =~= data@);
            lemma_short_str_at(data@, 0, be_strip(wv.be@));
        }
    }
    let it = match read_short_str(data, 0) {
        Some(it) => it,
        None => {
            return None;
        },
    };
    if it.len > 32 || it.next != data.len() {
        return None;
    }
    let bytes = copy_range(data, it.start, it.len);
    let value = U256 { be: word_from_be(bytes.as_slice()) };
    let canonical = encode_storage_value(&value);
    if slice_eq(canonical.as_slice(), data) {
        Some(value)
    } else {
        proof {
            if canonical_input {
                let stripped = be_strip(wv.be@);
                assert(bytes@ == stripped);
                lemma_be_strip_of_padded(stripped, 32);
                assert(be_strip(value.be@) == stripped);
                assert(storage_value_rlp(value@) == data@);
            }
        }
        None
    }
}

} // verus!
