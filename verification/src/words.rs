//! Fixed-width byte words: 32-byte hashes, 20-byte addresses, and the
//! big-endian 256-bit integers carried through proofs and registry calls.

use vstd::prelude::*;

verus! {

/// A 32-byte word: a keccak digest, a state root, a graffiti tag, or one
/// ABI word.
#[derive(Clone, Copy, Debug, PartialEq, Eq, Hash)]
pub struct B256 {
    pub bytes: [u8; 32],
}

/// A 20-byte Ethereum address.
#[derive(Clone, Copy, Debug, PartialEq, Eq, Hash)]
pub struct Address {
    pub bytes: [u8; 20],
}

/// A 256-bit unsigned integer in big-endian byte order: instance ids and
/// TEE type tags as the registry contract sees them.
#[derive(Clone, Copy, Debug, PartialEq, Eq, Hash)]
pub struct U256 {
    pub be: [u8; 32],
}

impl View for B256 {
    type V = Seq<u8>;

    open spec fn view(&self) -> Seq<u8> {
        self.bytes@
    }
}

impl View for Address {
    type V = Seq<u8>;

    open spec fn view(&self) -> Seq<u8> {
        self.bytes@
    }
}

impl View for U256 {
    type V = Seq<u8>;

    open spec fn view(&self) -> Seq<u8> {
        self.be@
    }
}

/// 32 zero bytes: the miss value of a `BLOCKHASH` lookup and the default
/// word of absent fields.
pub open spec fn zero32() -> Seq<u8> {
    Seq::new(32, |i: int| 0u8)
}

/// Big-endian byte `i` (0-based from the most significant end) of a `u64`
/// widened to 8 bytes.
pub open spec fn u64_be_byte(v: u64, i: int) -> u8 {
    ((v >> (((7 - i) * 8) as u64)) & 0xff) as u8
}

/// A `u64` widened to a 32-byte big-endian word.
pub open spec fn u64_to_be32(v: u64) -> Seq<u8> {
    Seq::new(32, |i: int| if i < 24 { 0u8 } else { u64_be_byte(v, i - 24) })
}

/// Copy a byte slice into a fresh vector.
pub fn slice_to_vec(a: &[u8]) -> (r: Vec<u8>)
    ensures
        r@ == a@,
{
    let mut r: Vec<u8> = Vec::new();
    let n = a.len();
    let mut i: usize = 0;
    while i < n
        invariant
            n == a@.len(),
            i <= n,
            r@ == a@.take(i as int),
        decreases n - i,
    {
        r.push(a[i]);
        assert(r@ =~= a@.take(i + 1));
        i = i + 1;
    }
    assert(r@ =~= a@);
    r
}

/// Compare two equal-length byte slices for equality of contents.
pub fn slice_eq(a: &[u8], b: &[u8]) -> (r: bool)
    ensures
        r == (a@ == b@),
{
    if a.len() != b.len() {
        assert(a@ != b@) by {
            assert(a@.len() != b@.len());
        }
        return false;
    }
    let n = a.len();
    let mut i: usize = 0;
    while i < n
        invariant
            n == a@.len(),
            n == b@.len(),
            i <= n,
            forall|j: int| 0 <= j < i ==> a@[j] == b@[j],
        decreases n - i,
    {
        if a[i] != b[i] {
            return false;
        }
        i = i + 1;
    }
    assert(a@ =~= b@);
    true
}

impl B256 {
    /// The all-zero word.
    pub fn zero() -> (r: B256)
        ensures
            r@ == zero32(),
    {
        let r = B256 { bytes: [0u8; 32] };
        assert(r@ =~= zero32());
        r
    }

    pub fn from_array(bytes: [u8; 32]) -> (r: B256)
        ensures
            r@ == bytes@,
    {
        B256 { bytes }
    }

    /// Equality of the 32 bytes, usable from verified code.
    pub fn eq_bytes(&self, other: &B256) -> (r: bool)
        ensures
            r == (self@ == other@),
    {
        slice_eq(self.bytes.as_slice(), other.bytes.as_slice())
    }

    pub fn to_vec(&self) -> (r: Vec<u8>)
        ensures
            r@ == self@,
    {
        slice_to_vec(self.bytes.as_slice())
    }
}

impl Address {
    /// The all-zero address, the default of unset contract fields.
    pub fn zero() -> (r: Address)
        ensures
            r@ == Seq::new(20, |i: int| 0u8),
    {
        let r = Address { bytes: [0u8; 20] };
        assert(r@ =~= Seq::new(20, |i: int| 0u8));
        r
    }

    pub fn from_array(bytes: [u8; 20]) -> (r: Address)
        ensures
            r@ == bytes@,
    {
        Address { bytes }
    }

    pub fn eq_bytes(&self, other: &Address) -> (r: bool)
        ensures
            r == (self@ == other@),
    {
        slice_eq(self.bytes.as_slice(), other.bytes.as_slice())
    }

    pub fn to_vec(&self) -> (r: Vec<u8>)
        ensures
            r@ == self@,
    {
        slice_to_vec(self.bytes.as_slice())
    }
}

impl U256 {
    /// The integer zero.
    pub fn zero() -> (r: U256)
        ensures
            r@ == zero32(),
    {
        let r = U256 { be: [0u8; 32] };
        assert(r@ =~= zero32());
        r
    }

    pub fn from_array(be: [u8; 32]) -> (r: U256)
        ensures
            r@ == be@,
    {
        U256 { be }
    }

    /// Widen a `u64` into the low (last) 8 bytes of the word.
    pub fn from_u64(v: u64) -> (r: U256)
        ensures
            r@ == u64_to_be32(v),
    {
        let mut be = [0u8; 32];
        let mut i: usize = 0;
        while i < 8
            invariant
                i <= 8,

                forall|j: int| 0 <= j < 24 ==> be@[j] == 0u8,

                forall|j: int| 24 <= j < 24 + i ==> be@[j] == u64_be_byte(v, j - 24),

                forall|j: int| 24 + i <= j < 32 ==> be@[j] == 0u8,
            decreases 8 - i,
        {
            let shift: u64 = ((7 - i) * 8) as u64;
            be[24 + i] = ((v >> shift) & 0xff) as u8;
            i = i + 1;
        }
        let r = U256 { be };
        assert(r@ =~= u64_to_be32(v));
        r
    }

    /// Whether the integer is zero.
    pub fn is_zero(&self) -> (r: bool)
        ensures
            r == (self@ == zero32()),
    {
        let z = U256::zero();
        self.eq_bytes(&z)
    }

    pub fn eq_bytes(&self, other: &U256) -> (r: bool)
        ensures
            r == (self@ == other@),
    {
        slice_eq(self.be.as_slice(), other.be.as_slice())
    }

    pub fn to_vec(&self) -> (r: Vec<u8>)
        ensures
            r@ == self@,
    {
        slice_to_vec(self.be.as_slice())
    }
}

/// Read a `u64` out of a 32-byte big-endian word; `None` when the value
/// does not fit.
pub fn u64_of_word(w: &[u8]) -> (r: Option<u64>)
    requires
        w@.len() == 32,
    ensures
        match r {
            Some(v) => w@ == u64_to_be32(v),
            None => forall|v: u64| w@ != u64_to_be32(v),
        },
{
    let mut i: usize = 0;
    while i < 24
        invariant
            w@.len() == 32,
            i <= 24,
            forall|j: int| 0 <= j < i ==> w@[j] == 0u8,
        decreases 24 - i,
    {
        if w[i] != 0 {
            proof {
                assert forall|v: u64| w@ != u64_to_be32(v) by {
                    assert(u64_to_be32(v)[i as int] == 0u8);
                }
            }
            return None;
        }
        i = i + 1;
    }
    let b0 = w[24] as u64;
    let b1 = w[25] as u64;
    let b2 = w[26] as u64;
    let b3 = w[27] as u64;
    let b4 = w[28] as u64;
    let b5 = w[29] as u64;
    let b6 = w[30] as u64;
    let b7 = w[31] as u64;
    let v: u64 = (b0 << 56u64) | (b1 << 48u64) | (b2 << 40u64) | (b3 << 32u64) | (b4 << 24u64) | (
    b5 << 16u64) | (b6 << 8u64) | b7;
    proof {
        assert(b0 <= 0xff && b1 <= 0xff && b2 <= 0xff && b3 <= 0xff && b4 <= 0xff && b5 <= 0xff
            && b6 <= 0xff && b7 <= 0xff);
        assert(b0 <= 0xff && b1 <= 0xff && b2 <= 0xff && b3 <= 0xff && b4 <= 0xff && b5 <= 0xff
            && b6 <= 0xff && b7 <= 0xff ==> {
            let x = (b0 << 56u64) | (b1 << 48u64) | (b2 << 40u64) | (b3 << 32u64) | (b4 << 24u64)
                | (b5 << 16u64) | (b6 << 8u64) | b7;
            ((x >> 56u64) & 0xff == b0 && (x >> 48u64) & 0xff == b1 && (x >> 40u64) & 0xff == b2
                && (x >> 32u64) & 0xff == b3 && (x >> 24u64) & 0xff == b4 && (x >> 16u64) & 0xff
                == b5 && (x >> 8u64) & 0xff == b6 && (x >> 0u64) & 0xff == b7)
        }) by (bit_vector);
        assert(u64_be_byte(v, 0) == w@[24] && u64_be_byte(v, 1) == w@[25] && u64_be_byte(v, 2)
            == w@[26] && u64_be_byte(v, 3) == w@[27] && u64_be_byte(v, 4) == w@[28] && u64_be_byte(
            v,
            5,
        ) == w@[29] && u64_be_byte(v, 6) == w@[30] && u64_be_byte(v, 7) == w@[31]);
        assert(w@ =~= u64_to_be32(v));
    }
    Some(v)
}

} // verus!
