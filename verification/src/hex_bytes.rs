//! Byte strings that read and print as `0x`-prefixed hex.  The hex codec is
//! small enough to state exactly, so it is implemented and proved here.

use vstd::prelude::*;
use crate::words::slice_to_vec;

verus! {

/// Is `c` an ASCII hex digit?
pub open spec fn is_hex_digit(c: u8) -> bool {
    (0x30 <= c && c <= 0x39) || (0x61 <= c && c <= 0x66) || (0x41 <= c && c <= 0x46)
}

/// The value of an ASCII hex digit.
pub open spec fn hex_val(c: u8) -> u8 {
    if 0x30 <= c && c <= 0x39 {
        (c - 0x30) as u8
    } else if 0x61 <= c && c <= 0x66 {
        (c - 0x61 + 10) as u8
    } else {
        (c - 0x41 + 10) as u8
    }
}

/// The lowercase ASCII digit of a value below 16.
pub open spec fn hex_char(v: u8) -> u8 {
    if v < 10 {
        (0x30 + v) as u8
    } else {
        (0x61 + v - 10) as u8
    }
}

/// Byte `i` spelled by the hex digit pair at positions `2i`, `2i + 1`.
pub open spec fn hex_pair_val(s: Seq<u8>, i: int) -> u8 {
    (hex_val(s[2 * i]) * 16 + hex_val(s[2 * i + 1])) as u8
}

/// The hex body of an input: the bytes after an optional `0x` prefix.
pub open spec fn hex_body(s: Seq<u8>) -> Seq<u8> {
    if s.len() >= 2 && s[0] == 0x30 && s[1] == 0x78 {
        s.skip(2)
    } else {
        s
    }
}

/// Why a hex string failed to decode.
#[derive(Clone, Copy, Debug, PartialEq, Eq)]
pub enum HexError {
    /// The digit count after the optional `0x` prefix is odd.
    OddLength,
    /// The first non-hex-digit byte, and its position in the body.
    InvalidHexCharacter { c: u8, index: usize },
}

/// A byte string with a hex wire form.
#[derive(Clone, Debug, PartialEq, Eq, Hash)]
pub struct HexBytes(pub Vec<u8>);

impl View for HexBytes {
    type V = Seq<u8>;

    open spec fn view(&self) -> Seq<u8> {
        self.0@
    }
}

impl HexBytes {
    /// The empty byte string.
    pub fn new() -> (r: HexBytes)
        ensures
            r@ == Seq::<u8>::empty(),
    {
        let r = HexBytes(Vec::new());
        assert(r@ =~= Seq::<u8>::empty());
        r
    }

    pub fn from_vec(data: Vec<u8>) -> (r: HexBytes)
        ensures
            r@ == data@,
    {
        HexBytes(data)
    }

    pub fn into_vec(self) -> (r: Vec<u8>)
        ensures
            r@ == self@,
    {
        self.0
    }

    pub fn as_bytes(&self) -> (r: &[u8])
        ensures
            r@ == self@,
    {
        self.0.as_slice()
    }

    /// The bytes read as UTF-8 text, invalid sequences replaced.
    pub fn to_utf8(&self) -> (r: String)
        ensures
            r@ == utf8_lossy_of(self@),
    {
        utf8_lossy(self.0.as_slice())
    }

    /// Decode a hex string, tolerating a `0x` prefix.  Succeeds exactly on
    /// an even count of hex digits; the first offending byte is reported
    /// otherwise.
    pub fn from_hex(data: &[u8]) -> (r: Result<HexBytes, HexError>)
        ensures
            ({
                let body = hex_body(data@);
                match r {
                    Ok(h) => {
                        &&& body.len() % 2 == 0
                        &&& forall|j: int| 0 <= j < body.len() ==> is_hex_digit(body[j])
                        &&& h@.len() == body.len() / 2
                        &&& forall|i: int| 0 <= i < h@.len() ==> h@[i] == hex_pair_val(body, i)
                    },
                    Err(HexError::OddLength) => body.len() % 2 != 0,
                    Err(HexError::InvalidHexCharacter { c, index }) => {
                        &&& body.len() % 2 == 0
                        &&& index < body.len()
                        &&& !is_hex_digit(body[index as int])
                        &&& c == body[index as int]
                        &&& forall|j: int| 0 <= j < index ==> is_hex_digit(body[j])
                    },
                }
            }),
    {
        let skip: usize = if data.len() >= 2 && data[0] == 0x30 && data[1] == 0x78 {
            2
        } else {
            0
        };
        let ghost body = hex_body(data@);
        assert(body =~= data@.skip(skip as int));
        let n = data.len() - skip;
        if n % 2 != 0 {
            return Err(HexError::OddLength);
        }
        let mut out: Vec<u8> = Vec::new();
        let mut i: usize = 0;
        while i < n
            invariant
                body == hex_body(data@),
                body == data@.skip(skip as int),
                skip + n == data@.len(),
                data@.len() <= usize::MAX,
                n % 2 == 0,
                i % 2 == 0,
                i <= n,
                n == body.len(),
                out@.len() == i / 2,
                forall|j: int| 0 <= j < i ==> is_hex_digit(body[j]),
                forall|k: int| 0 <= k < out@.len() ==> out@[k] == hex_pair_val(body, k),
            decreases n - i,
        {
            let hi = data[skip + i];
            let lo = data[skip + i + 1];
            assert(body[i as int] == hi && body[i + 1] == lo);
            if !hex_digit(hi) {
                return Err(HexError::InvalidHexCharacter { c: hi, index: i });
            }
            if !hex_digit(lo) {
                return Err(HexError::InvalidHexCharacter { c: lo, index: i + 1 });
            }
            out.push(hex_digit_val(hi) * 16 + hex_digit_val(lo));
            i = i + 2;
        }
        Ok(HexBytes(out))
    }

    /// The `0x`-prefixed lowercase hex spelling, as ASCII bytes.
    pub fn to_hex(&self) -> (r: Vec<u8>)
        ensures
            r@.len() == 2 + 2 * self@.len(),
            r@[0] == 0x30u8,
            r@[1] == 0x78u8,
            forall|i: int|
                0 <= i < self@.len() ==> r@[2 + 2 * i] == hex_char(self@[i] / 16) && r@[2 + 2 * i
                    + 1] == hex_char(self@[i] % 16),
    {
        let mut r: Vec<u8> = Vec::new();
        r.push(0x30);
        r.push(0x78);
        let n = self.0.len();
        let mut i: usize = 0;
        while i < n
            invariant
                n == self@.len(),
                i <= n,
                r@.len() == 2 + 2 * i,
                r@[0] == 0x30u8,
                r@[1] == 0x78u8,
                forall|j: int|
                    0 <= j < i ==> r@[2 + 2 * j] == hex_char(self@[j] / 16) && r@[2 + 2 * j + 1]
                        == hex_char(self@[j] % 16),
            decreases n - i,
        {
            let b = self.0[i];
            r.push(hex_char_byte(b / 16));
            r.push(hex_char_byte(b % 16));
            i = i + 1;
        }
        r
    }
}

/// Exec test matching `is_hex_digit`.
fn hex_digit(c: u8) -> (r: bool)
    ensures
        r == is_hex_digit(c),
{
    (0x30 <= c && c <= 0x39) || (0x61 <= c && c <= 0x66) || (0x41 <= c && c <= 0x46)
}

/// Exec value matching `hex_val`.
fn hex_digit_val(c: u8) -> (r: u8)
    requires
        is_hex_digit(c),
    ensures
        r == hex_val(c),
        r < 16,
{
    if 0x30 <= c && c <= 0x39 {
        c - 0x30
    } else if 0x61 <= c && c <= 0x66 {
        c - 0x61 + 10
    } else {
        c - 0x41 + 10
    }
}

/// Exec digit matching `hex_char`.
fn hex_char_byte(v: u8) -> (r: u8)
    requires
        v < 16,
    ensures
        r == hex_char(v),
{
    if v < 10 {
        0x30 + v
    } else {
        0x61 + v - 10
    }
}

/// The text `String::from_utf8_lossy` reads out of a byte string; a
/// function of the bytes alone.
pub uninterp spec fn utf8_lossy_of(data: Seq<u8>) -> Seq<char>;

/// Relies on `String::from_utf8_lossy`: UTF-8 decoding with replacement,
/// depending on the input bytes alone.
#[verifier::external_body]
fn utf8_lossy(data: &[u8]) -> (r: String)
    ensures
        r@ == utf8_lossy_of(data@),
{
    String::from_utf8_lossy(data).into_owned()
}

} // verus!
