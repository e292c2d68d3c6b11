//! Txid: a fixed 32-byte transaction identifier with a hex text form.

use vstd::prelude::*;

use crate::error::BitcoinError;
use crate::hextext::{bytes_of_hex, hex_decode, hex_encode, hex_of, hex_valid, lemma_hex_round_trip};

verus! {

/// A 32-byte transaction identifier. Opaque bytes, compared byte-wise; its
/// text form is 64 lowercase hex characters, byte 0 first.
#[derive(Debug, PartialEq, Eq, Clone)]
pub struct Txid(pub [u8; 32]);

impl Txid {
    /// Renders the 32 bytes as their 64-character lowercase hex form.
    pub fn to_hex(&self) -> (r: String)
        ensures
            r@ == hex_of(self.0@),
            r@.len() == 64,
    {
        proof {
            lemma_hex_round_trip(self.0@);
        }
        hex_encode(self.0.as_slice())
    }

    /// Parses a hex string into a Txid. Fails with `InvalidFormat` unless
    /// the string is well-formed hex denoting exactly 32 bytes.
    pub fn from_hex(s: &str) -> (r: Result<Txid, BitcoinError>)
        ensures
            match r {
                Ok(t) => {
                    &&& hex_valid(s@)
                    &&& s@.len() == 64
                    &&& t.0@ == bytes_of_hex(s@)
                },
                Err(e) => {
                    &&& !(hex_valid(s@) && s@.len() == 64)
                    &&& e == BitcoinError::InvalidFormat
                },
            },
    {
        match hex_decode(s) {
            Err(_) => Err(BitcoinError::InvalidFormat),
            Ok(v) => {
                if v.len() != 32 {
                    return Err(BitcoinError::InvalidFormat);
                }
                let mut a: [u8; 32] = [0u8; 32];
                let mut i: usize = 0;
                while i < 32
                    invariant
                        v@.len() == 32,
                        i <= 32,
                        forall|j: int| 0 <= j < i ==> a@[j] == v@[j],
                    decreases 32 - i,
                {
                    a[i] = v[i];
                    i += 1;
                }
                proof {
                    assert(a@ =~= v@);
                }
                Ok(Txid(a))
            },
        }
    }
}

/// Textual round trip: parsing the hex form of any Txid gives back the very
/// same 32 bytes, and that hex form is always a 64-character valid hex
/// string.
pub proof fn lemma_txid_text_round_trip(b: Seq<u8>)
    requires
        b.len() == 32,
    ensures
        hex_of(b).len() == 64,
        hex_valid(hex_of(b)),
        bytes_of_hex(hex_of(b)) == b,
{
    lemma_hex_round_trip(b);
}

} // verus!
