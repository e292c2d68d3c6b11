//! CompactSize: Bitcoin's variable-width unsigned integer encoding.
//!
//! A prefix byte selects the width: values up to 0xFC stand alone in one
//! byte; 0xFD, 0xFE and 0xFF announce a 2-, 4- or 8-byte little-endian
//! payload. Encoding always picks the shortest form; decoding accepts any
//! form, canonical or not.

use vstd::prelude::*;
use vstd::bytes::{
    spec_u16_from_le_bytes, spec_u16_to_le_bytes, spec_u32_from_le_bytes, spec_u32_to_le_bytes,
    spec_u64_from_le_bytes, spec_u64_to_le_bytes, lemma_auto_spec_u16_to_from_le_bytes,
    lemma_auto_spec_u32_to_from_le_bytes, lemma_auto_spec_u64_to_from_le_bytes, u16_from_le_bytes,
    u16_to_le_bytes, u32_from_le_bytes, u32_to_le_bytes, u64_from_le_bytes, u64_to_le_bytes,
};
use vstd::slice::slice_subrange;

use crate::error::BitcoinError;

verus! {

/// A variable-length unsigned 64-bit integer (Bitcoin CompactSize).
#[derive(Debug, PartialEq, Eq, Clone, Structural)]
pub struct CompactSize {
    pub value: u64,
}

/// The canonical (shortest-form) CompactSize encoding of a value.
pub open spec fn varint_enc(v: u64) -> Seq<u8> {
    if v <= 0xFC {
        seq![v as u8]
    } else if v <= 0xFFFF {
        seq![0xFDu8] + spec_u16_to_le_bytes(v as u16)
    } else if v <= 0xFFFFFFFF {
        seq![0xFEu8] + spec_u32_to_le_bytes(v as u32)
    } else {
        seq![0xFFu8] + spec_u64_to_le_bytes(v)
    }
}

/// Total width in bytes of a CompactSize whose first byte is `first`.
pub open spec fn varint_width(first: u8) -> nat {
    if first == 0xFD {
        3
    } else if first == 0xFE {
        5
    } else if first == 0xFF {
        9
    } else {
        1
    }
}

/// Whether a complete CompactSize stands at the head of `s`.
pub open spec fn varint_ok(s: Seq<u8>) -> bool {
    s.len() >= 1 && s.len() >= varint_width(s[0])
}

/// Number of bytes the CompactSize at the head of `s` occupies.
pub open spec fn varint_len(s: Seq<u8>) -> nat
    recommends
        varint_ok(s),
{
    varint_width(s[0])
}

/// The value of the CompactSize at the head of `s`, canonical or not.
pub open spec fn varint_val(s: Seq<u8>) -> u64
    recommends
        varint_ok(s),
{
    if s[0] == 0xFD {
        spec_u16_from_le_bytes(s.subrange(1, 3)) as u64
    } else if s[0] == 0xFE {
        spec_u32_from_le_bytes(s.subrange(1, 5)) as u64
    } else if s[0] == 0xFF {
        spec_u64_from_le_bytes(s.subrange(1, 9))
    } else {
        s[0] as u64
    }
}

/// A canonical encoding is always accepted by the decoder and gives back
/// exactly the value it was made from, consuming its whole length.
pub proof fn lemma_varint_round_trip(v: u64)
    ensures
        varint_ok(varint_enc(v)),
        varint_len(varint_enc(v)) == varint_enc(v).len(),
        varint_val(varint_enc(v)) == v,
{
    lemma_auto_spec_u16_to_from_le_bytes();
    lemma_auto_spec_u32_to_from_le_bytes();
    lemma_auto_spec_u64_to_from_le_bytes();
    let s = varint_enc(v);
    if v <= 0xFC {
    } else if v <= 0xFFFF {
        assert(s.subrange(1, 3) =~= spec_u16_to_le_bytes(v as u16));
    } else if v <= 0xFFFFFFFF {
        assert(s.subrange(1, 5) =~= spec_u32_to_le_bytes(v as u32));
    } else {
        assert(s.subrange(1, 9) =~= spec_u64_to_le_bytes(v));
    }
}

/// A canonical encoding followed by any trailing bytes still decodes to
/// its value, consuming exactly the encoding's own length.
pub proof fn lemma_varint_dec_prefix(v: u64, rest: Seq<u8>)
    ensures
        varint_ok(varint_enc(v) + rest),
        varint_len(varint_enc(v) + rest) == varint_enc(v).len(),
        varint_val(varint_enc(v) + rest) == v,
{
    lemma_auto_spec_u16_to_from_le_bytes();
    lemma_auto_spec_u32_to_from_le_bytes();
    lemma_auto_spec_u64_to_from_le_bytes();
    let e = varint_enc(v);
    let s = e + rest;
    assert(s[0] == e[0]);
    if v <= 0xFC {
    } else if v <= 0xFFFF {
        assert(s.subrange(1, 3) =~= spec_u16_to_le_bytes(v as u16));
    } else if v <= 0xFFFFFFFF {
        assert(s.subrange(1, 5) =~= spec_u32_to_le_bytes(v as u32));
    } else {
        assert(s.subrange(1, 9) =~= spec_u64_to_le_bytes(v));
    }
}

impl CompactSize {
    /// Wraps a value; any 64-bit value is representable.
    pub fn new(value: u64) -> (r: Self)
        ensures
            r.value == value,
    {
        CompactSize { value }
    }

    /// Encodes the value in its canonical, shortest form.
    pub fn to_bytes(&self) -> (r: Vec<u8>)
        ensures
            r@ == varint_enc(self.value),
    {
        let v = self.value;
        if v <= 0xFC {
            let r: Vec<u8> = vec![v as u8];
            proof {
                assert(r@ =~= varint_enc(v));
            }
            r
        } else if v <= 0xFFFF {
            let mut r: Vec<u8> = vec![0xFDu8];
            let mut tail = u16_to_le_bytes(v as u16);
            r.append(&mut tail);
            proof {
                assert(r@ =~= varint_enc(v));
            }
            r
        } else if v <= 0xFFFFFFFF {
            let mut r: Vec<u8> = vec![0xFEu8];
            let mut tail = u32_to_le_bytes(v as u32);
            r.append(&mut tail);
            proof {
                assert(r@ =~= varint_enc(v));
            }
            r
        } else {
            let mut r: Vec<u8> = vec![0xFFu8];
            let mut tail = u64_to_le_bytes(v);
            r.append(&mut tail);
            proof {
                assert(r@ =~= varint_enc(v));
            }
            r
        }
    }

    /// Decodes the CompactSize at the head of `bytes`, returning the value
    /// and how many bytes it consumed. Fails exactly when the buffer holds
    /// fewer bytes than the prefix byte demands (or is empty).
    pub fn from_bytes(bytes: &[u8]) -> (r: Result<(Self, usize), BitcoinError>)
        ensures
            match r {
                Ok(p) => {
                    &&& varint_ok(bytes@)
                    &&& p.0.value == varint_val(bytes@)
                    &&& p.1 == varint_len(bytes@)
                },
                Err(e) => {
                    &&& !varint_ok(bytes@)
                    &&& e == BitcoinError::InsufficientBytes
                },
            },
    {
        let n = bytes.len();
        if n == 0 {
            return Err(BitcoinError::InsufficientBytes);
        }
        let first = bytes[0];
        if first == 0xFD {
            if n < 3 {
                return Err(BitcoinError::InsufficientBytes);
            }
            let v = u16_from_le_bytes(slice_subrange(bytes, 1, 3)) as u64;
            Ok((CompactSize { value: v }, 3))
        } else if first == 0xFE {
            if n < 5 {
                return Err(BitcoinError::InsufficientBytes);
            }
            let v = u32_from_le_bytes(slice_subrange(bytes, 1, 5)) as u64;
            Ok((CompactSize { value: v }, 5))
        } else if first == 0xFF {
            if n < 9 {
                return Err(BitcoinError::InsufficientBytes);
            }
            let v = u64_from_le_bytes(slice_subrange(bytes, 1, 9));
            Ok((CompactSize { value: v }, 9))
        } else {
            Ok((CompactSize { value: first as u64 }, 1))
        }
    }
}

} // verus!
