//! Contract ABI building blocks for the byte strings this library signs
//! and ships: 32-byte words, left-padded addresses, and zero-padded
//! dynamic tails.

use vstd::prelude::*;
use crate::words::{B256, U256, Address, u64_to_be32};
use crate::rlp::append_bytes;

verus! {

/// A byte string zero-padded up to a multiple of 32.
pub open spec fn zero_pad(data: Seq<u8>) -> Seq<u8> {
    data + Seq::new(((32 - data.len() % 32) % 32) as nat, |i: int| 0u8)
}

/// A 20-byte address left-padded to a 32-byte word.
pub open spec fn addr32(a: Seq<u8>) -> Seq<u8> {
    Seq::new(32, |i: int| if i < 12 { 0u8 } else { a[i - 12] })
}

/// Pad an address into a word.
pub fn addr_word(a: &Address) -> (r: B256)
    ensures
        r@ == addr32(a@),
{
    let mut bytes = [0u8; 32];
    let mut i: usize = 0;
    while i < 20
        invariant
            i <= 20,
            forall|j: int| 0 <= j < 12 ==> bytes@[j] == 0u8,
            forall|j: int| 12 <= j < 12 + i ==> bytes@[j] == a@[j - 12],
            forall|j: int| 12 + i <= j < 32 ==> bytes@[j] == 0u8,
        decreases 20 - i,
    {
        bytes[12 + i] = a.bytes[i];
        i = i + 1;
    }
    let r = B256 { bytes };
    assert(r@ =~= addr32(a@));
    r
}

/// A `u64` as a 32-byte word.
pub fn u64_word(v: u64) -> (r: B256)
    ensures
        r@ == u64_to_be32(v),
{
    let u = U256::from_u64(v);
    B256 { bytes: u.be }
}

/// Append a dynamic tail: the bytes, zero-padded to a word boundary.
pub fn append_padded(out: &mut Vec<u8>, data: &[u8])
    ensures
        final(out)@ == old(out)@ + zero_pad(data@),
{
    append_bytes(out, data);
    let pad: usize = (32 - data.len() % 32) % 32;
    let ghost mid = out@;
    let mut k: usize = 0;
    while k < pad
        invariant
            k <= pad,
            out@ == mid + Seq::new(k as nat, |j: int| 0u8),
        decreases pad - k,
    {
        out.push(0u8);
        assert(out@ =~= mid + Seq::new((k + 1) as nat, |j: int| 0u8));
        k = k + 1;
    }
    assert(out@ =~= old(out)@ + zero_pad(data@));
}

/// Append a 32-byte word.
pub fn append_word(out: &mut Vec<u8>, w: &B256)
    ensures
        final(out)@ == old(out)@ + w@,
{
    append_bytes(out, w.bytes.as_slice());
}

} // verus!
