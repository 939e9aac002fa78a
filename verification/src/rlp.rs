//! RLP, the recursive length prefix encoding under every trie value and
//! block-header hash.  Encoders are proved against spec-level encodings;
//! parsers extract spans and leave canonicity to a re-encode comparison at
//! the call site.

use vstd::prelude::*;
use crate::words::u64_be_byte;

verus! {

/// A `u64` as its full 8 big-endian bytes.
pub open spec fn u64_be8(v: u64) -> Seq<u8> {
    Seq::new(8, |i: int| u64_be_byte(v, i))
}

/// A big-endian byte string with its leading zero bytes removed: the
/// minimal integer form RLP demands.
pub open spec fn be_strip(s: Seq<u8>) -> Seq<u8>
    decreases s.len(),
{
    if s.len() == 0 {
        s
    } else if s[0] == 0 {
        be_strip(s.skip(1))
    } else {
        s
    }
}

/// RLP of a byte string.
pub open spec fn rlp_str(data: Seq<u8>) -> Seq<u8> {
    if data.len() == 1 && data[0] < 0x80 {
        data
    } else if data.len() < 56 {
        seq![(0x80 + data.len()) as u8] + data
    } else {
        let lenb = be_strip(u64_be8(data.len() as u64));
        seq![(0xb7 + lenb.len()) as u8] + lenb + data
    }
}

/// RLP list framing around an already-encoded payload.
pub open spec fn rlp_list(payload: Seq<u8>) -> Seq<u8> {
    if payload.len() < 56 {
        seq![(0xc0 + payload.len()) as u8] + payload
    } else {
        let lenb = be_strip(u64_be8(payload.len() as u64));
        seq![(0xf7 + lenb.len()) as u8] + lenb + payload
    }
}

/// RLP of a `u64` scalar: the minimal big-endian form as a string.
pub open spec fn rlp_u64(v: u64) -> Seq<u8> {
    rlp_str(be_strip(u64_be8(v)))
}

/// RLP of a 256-bit scalar given as 32 big-endian bytes.
pub open spec fn rlp_u256(be: Seq<u8>) -> Seq<u8> {
    rlp_str(be_strip(be))
}

/// A byte string left-padded with zeros to width `n`.
pub open spec fn pad_be(s: Seq<u8>, n: nat) -> Seq<u8> {
    Seq::new(n, |i: int| if i < n - s.len() { 0u8 } else { s[i - (n - s.len())] })
}

/// A stripped string is no longer than its input and never starts with a
/// zero byte.
pub proof fn lemma_be_strip_minimal(s: Seq<u8>)
    ensures
        be_strip(s).len() <= s.len(),
        be_strip(s).len() > 0 ==> be_strip(s)[0] != 0,
    decreases s.len(),
{
    if s.len() == 0 {
    } else if s[0] == 0 {
        lemma_be_strip_minimal(s.skip(1));
    } else {
    }
}

/// Padding a minimal string with zeros and stripping again gives it back.
pub proof fn lemma_be_strip_of_padded(s: Seq<u8>, n: nat)
    requires
        s.len() <= n,
        s.len() == 0 || s[0] != 0,
    ensures
        be_strip(pad_be(s, n)) == s,
{
    let p = pad_be(s, n);
    let k = n - s.len();
    assert(forall|j: int| 0 <= j < k ==> p[j] == 0);
    if s.len() > 0 {
        assert(p[k as int] == s[0]);
    }
    lemma_be_strip_at(p, k as int);
    assert(p.skip(k as int) =~= s);
}

/// Stripping a big-endian string whose first `k` bytes are zero drops
/// exactly those `k` bytes.
pub proof fn lemma_be_strip_at(s: Seq<u8>, k: int)
    requires
        0 <= k <= s.len(),
        forall|j: int| 0 <= j < k ==> s[j] == 0,
        k == s.len() || s[k] != 0,
    ensures
        be_strip(s) == s.skip(k),
    decreases k,
{
    if k == 0 {
        if s.len() == 0 {
            assert(be_strip(s) =~= s.skip(0));
        } else {
            assert(s[0] != 0);
            assert(be_strip(s) =~= s.skip(0));
        }
    } else {
        assert(s[0] == 0);
        lemma_be_strip_at(s.skip(1), k - 1);
        assert(s.skip(1).skip(k - 1) =~= s.skip(k));
    }
}

/// Append a slice to a vector.
pub fn append_bytes(out: &mut Vec<u8>, data: &[u8])
    ensures
        final(out)@ == old(out)@ + data@,
{
    let n = data.len();
    let mut i: usize = 0;
    while i < n
        invariant
            n == data@.len(),
            i <= n,
            out@ == old(out)@ + data@.take(i as int),
        decreases n - i,
    {
        out.push(data[i]);
        assert(out@ =~= old(out)@ + data@.take(i + 1));
        i = i + 1;
    }
    assert(out@ =~= old(out)@ + data@);
}

/// The minimal big-endian bytes of a `u64`; empty for zero.
pub fn min_be_u64(v: u64) -> (r: Vec<u8>)
    ensures
        r@ == be_strip(u64_be8(v)),
        r@.len() <= 8,
        r@.len() == 0 ==> v == 0,
{
    let mut be = [0u8; 8];
    let mut i: usize = 0;
    while i < 8
        invariant
            i <= 8,
            forall|j: int| 0 <= j < i ==> be@[j] == u64_be_byte(v, j),
        decreases 8 - i,
    {
        let shift: u64 = ((7 - i) * 8) as u64;
        be[i] = ((v >> shift) & 0xff) as u8;
        i = i + 1;
    }
    assert(be@ =~= u64_be8(v));
    let mut k: usize = 0;
    while k < 8 && be[k] == 0
        invariant
            k <= 8,
            be@ == u64_be8(v),
            forall|j: int| 0 <= j < k ==> be@[j] == 0,
        decreases 8 - k,
    {
        k = k + 1;
    }
    proof {
        lemma_be_strip_at(be@, k as int);
        if k == 8 {
            assert(forall|x: u64| #[trigger] (x & 0xff) <= 0xff) by (bit_vector);
            assert(u64_be_byte(v, 0) == 0 && u64_be_byte(v, 1) == 0 && u64_be_byte(v, 2) == 0
                && u64_be_byte(v, 3) == 0 && u64_be_byte(v, 4) == 0 && u64_be_byte(v, 5) == 0
                && u64_be_byte(v, 6) == 0 && u64_be_byte(v, 7) == 0);
            assert((v >> 56u64) & 0xff == 0 && (v >> 48u64) & 0xff == 0 && (v >> 40u64) & 0xff == 0
                && (v >> 32u64) & 0xff == 0 && (v >> 24u64) & 0xff == 0 && (v >> 16u64) & 0xff == 0
                && (v >> 8u64) & 0xff == 0 && (v >> 0u64) & 0xff == 0);
            assert(((v >> 56u64) & 0xff == 0 && (v >> 48u64) & 0xff == 0 && (v >> 40u64) & 0xff
                == 0 && (v >> 32u64) & 0xff == 0 && (v >> 24u64) & 0xff == 0 && (v >> 16u64) & 0xff
                == 0 && (v >> 8u64) & 0xff == 0 && (v >> 0u64) & 0xff == 0) ==> v == 0)
                by (bit_vector);
        }
    }
    let mut r: Vec<u8> = Vec::new();
    let mut i2: usize = k;
    while i2 < 8
        invariant
            k <= i2 <= 8,
            be@ == u64_be8(v),
            r@ == be@.skip(k as int).take(i2 - k),
        decreases 8 - i2,
    {
        r.push(be[i2]);
        assert(r@ =~= be@.skip(k as int).take(i2 + 1 - k));
        i2 = i2 + 1;
    }
    assert(r@ =~= be@.skip(k as int));
    r
}

/// Append the RLP of a byte string.
pub fn append_rlp_str(out: &mut Vec<u8>, data: &[u8])
    ensures
        final(out)@ == old(out)@ + rlp_str(data@),
{
    if data.len() == 1 && data[0] < 0x80 {
        out.push(data[0]);
        assert(out@ =~= old(out)@ + rlp_str(data@));
    } else if data.len() < 56 {
        out.push(0x80 + data.len() as u8);
        append_bytes(out, data);
        assert(out@ =~= old(out)@ + rlp_str(data@));
    } else {
        let lenb = min_be_u64(data.len() as u64);
        assert(lenb@.len() >= 1);
        out.push(0xb7 + lenb.len() as u8);
        append_bytes(out, lenb.as_slice());
        append_bytes(out, data);
        assert(out@ =~= old(out)@ + rlp_str(data@));
    }
}

/// Frame an encoded payload as an RLP list.
pub fn wrap_rlp_list(payload: Vec<u8>) -> (r: Vec<u8>)
    ensures
        r@ == rlp_list(payload@),
{
    let mut out: Vec<u8> = Vec::new();
    if payload.len() < 56 {
        out.push(0xc0 + payload.len() as u8);
        append_bytes(&mut out, payload.as_slice());
        assert(out@ =~= rlp_list(payload@));
    } else {
        let lenb = min_be_u64(payload.len() as u64);
        assert(lenb@.len() >= 1);
        out.push(0xf7 + lenb.len() as u8);
        append_bytes(&mut out, lenb.as_slice());
        append_bytes(&mut out, payload.as_slice());
        assert(out@ =~= rlp_list(payload@));
    }
    out
}

/// Append the RLP of a `u64` scalar.
pub fn append_rlp_u64(out: &mut Vec<u8>, v: u64)
    ensures
        final(out)@ == old(out)@ + rlp_u64(v),
{
    let be = min_be_u64(v);
    append_rlp_str(out, be.as_slice());
}

/// Append the RLP of a 256-bit scalar held as 32 big-endian bytes.
pub fn append_rlp_u256(out: &mut Vec<u8>, be: &[u8])
    requires
        be@.len() == 32,
    ensures
        final(out)@ == old(out)@ + rlp_u256(be@),
{
    let mut k: usize = 0;
    while k < 32 && be[k] == 0
        invariant
            k <= 32,
            be@.len() == 32,
            forall|j: int| 0 <= j < k ==> be@[j] == 0,
        decreases 32 - k,
    {
        k = k + 1;
    }
    proof {
        lemma_be_strip_at(be@, k as int);
    }
    let mut stripped: Vec<u8> = Vec::new();
    let mut i: usize = k;
    while i < 32
        invariant
            k <= i <= 32,
            be@.len() == 32,
            stripped@ == be@.skip(k as int).take(i - k),
        decreases 32 - i,
    {
        stripped.push(be[i]);
        assert(stripped@ =~= be@.skip(k as int).take(i + 1 - k));
        i = i + 1;
    }
    assert(stripped@ =~= be@.skip(k as int));
    append_rlp_str(out, stripped.as_slice());
}

/// A parsed string item: the content span and the position after it.
pub struct RlpSpan {
    pub start: usize,
    pub len: usize,
    pub next: usize,
}

/// Read a short-form RLP string item at `pos`: a naked byte below 0x80,
/// or a `0x80 + len` header with the content following.  Succeeds exactly
/// when such an item fits, and the span is pinned by the header byte.
pub fn read_short_str(data: &[u8], pos: usize) -> (r: Option<RlpSpan>)
    requires
        pos <= data@.len(),
    ensures
        match r {
            Some(sp) => {
                &&& pos < data@.len()
                &&& sp.start + sp.len == sp.next
                &&& sp.next <= data@.len()
                &&& if data@[pos as int] < 0x80 {
                    sp.start == pos && sp.len == 1
                } else {
                    &&& data@[pos as int] <= 0xb7
                    &&& sp.start == pos + 1
                    &&& sp.len == data@[pos as int] - 0x80
                }
            },
            None => pos >= data@.len() || data@[pos as int] > 0xb7 || (data@[pos as int] >= 0x80
                && pos + 1 + (data@[pos as int] - 0x80) > data@.len()),
        },
{
    let total = data.len();
    if pos >= total {
        return None;
    }
    let b0 = data[pos];
    if b0 < 0x80 {
        Some(RlpSpan { start: pos, len: 1, next: pos + 1 })
    } else if b0 <= 0xb7 {
        let len = (b0 - 0x80) as usize;
        if total - pos - 1 < len {
            return None;
        }
        Some(RlpSpan { start: pos + 1, len, next: pos + 1 + len })
    } else {
        None
    }
}

/// What a short-form string item looks like in place: the header byte and
/// the content bytes of `rlp_str(s)` embedded at `pos`.
pub proof fn lemma_short_str_at(data: Seq<u8>, pos: int, s: Seq<u8>)
    requires
        0 <= pos,
        s.len() < 56,
        pos + rlp_str(s).len() <= data.len(),
        data.subrange(pos, pos + rlp_str(s).len() as int) == rlp_str(s),
    ensures
        pos < data.len(),
        (s.len() == 1 && s[0] < 0x80) ==> data[pos] == s[0] && data[pos] < 0x80 && rlp_str(
            s,
        ).len() == 1,
        !(s.len() == 1 && s[0] < 0x80) ==> data[pos] == 0x80 + s.len() && 0x80 <= data[pos]
            <= 0xb7 && rlp_str(s).len() == 1 + s.len() && data.subrange(
            pos + 1,
            pos + 1 + s.len() as int,
        ) == s,
{
    let e = rlp_str(s);
    assert(forall|j: int| 0 <= j < e.len() ==> data[pos + j] == e[j]) by {
        assert(forall|j: int|
            0 <= j < e.len() ==> data.subrange(pos, pos + e.len() as int)[j] == e[j]);
    }
    if s.len() == 1 && s[0] < 0x80 {
        assert(data[pos] == e[0]);
    } else {
        assert(data[pos] == e[0]);
        assert(e[0] == 0x80 + s.len());
        assert(data.subrange(pos + 1, pos + 1 + s.len() as int) =~= s) by {
            assert(forall|j: int| 0 <= j < s.len() ==> e[1 + j] == s[j]);
        }
    }
}

/// Recover the `u64` whose 8-byte big-endian form is the given bytes,
/// left-padded with zeros.
pub fn u64_from_be_bytes(bytes: &[u8]) -> (r: u64)
    requires
        bytes@.len() <= 8,
    ensures
        u64_be8(r) == pad_be(bytes@, 8),
{
    let mut be = [0u8; 8];
    let n = bytes.len();
    let mut i: usize = 0;
    while i < n
        invariant
            n == bytes@.len() <= 8,
            i <= n,
            forall|j: int| 0 <= j < 8 - n ==> be@[j] == 0u8,
            forall|j: int| 8 - n <= j < 8 - n + i ==> be@[j] == bytes@[j - (8 - n)],
            forall|j: int| 8 - n + i <= j < 8 ==> be@[j] == 0u8,
        decreases n - i,
    {
        be[8 - n + i] = bytes[i];
        i = i + 1;
    }
    assert(be@ =~= pad_be(bytes@, 8));
    let b0 = be[0] as u64;
    let b1 = be[1] as u64;
    let b2 = be[2] as u64;
    let b3 = be[3] as u64;
    let b4 = be[4] as u64;
    let b5 = be[5] as u64;
    let b6 = be[6] as u64;
    let b7 = be[7] as u64;
    let v: u64 = (b0 << 56u64) | (b1 << 48u64) | (b2 << 40u64) | (b3 << 32u64) | (b4 << 24u64) | (
    b5 << 16u64) | (b6 << 8u64) | b7;
    proof {
        assert(b0 <= 0xff && b1 <= 0xff && b2 <= 0xff && b3 <= 0xff && b4 <= 0xff && b5 <= 0xff
            && b6 <= 0xff && b7 <= 0xff);
        assert(b0 <= 0xff && b1 <= 0xff && b2 <= 0xff && b3 <= 0xff && b4 <= 0xff && b5 <= 0xff
            && b6 <= 0xff && b7 <= 0xff ==> {
            let x = (b0 << 56u64) | (b1 << 48u64) | (b2 << 40u64) | (b3 << 32u64) | (b4 << 24u64)
                | (b5 << 16u64) | (b6 << 8u64) | b7;
            ((x >> 56u64) & 0xff == b0 && (x >> 48u64) & 0xff == b1 && (x >> 40u64) & 0xff == b2
                && (x >> 32u64) & 0xff == b3 && (x >> 24u64) & 0xff == b4 && (x >> 16u64) & 0xff
                == b5 && (x >> 8u64) & 0xff == b6 && (x >> 0u64) & 0xff == b7)
        }) by (bit_vector);
        assert(u64_be_byte(v, 0) == be@[0] && u64_be_byte(v, 1) == be@[1] && u64_be_byte(v, 2)
            == be@[2] && u64_be_byte(v, 3) == be@[3] && u64_be_byte(v, 4) == be@[4] && u64_be_byte(
            v,
            5,
        ) == be@[5] && u64_be_byte(v, 6) == be@[6] && u64_be_byte(v, 7) == be@[7]);
        assert(u64_be8(v) =~= be@);
    }
    v
}

} // verus!
