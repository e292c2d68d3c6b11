//! The executable wire types: OutPoint, Script, TransactionInput and
//! BitcoinTransaction, each with its encoder and decoder.
//!
//! Every contract is phrased over the spec-level byte layout in
//! [`crate::wire`]: encoders return exactly the spec encoding of the
//! value's model, and decoders succeed exactly when a complete value
//! stands at the head of the buffer, returning its model and the byte
//! count it occupies.

use vstd::prelude::*;
use vstd::bytes::{u32_from_le_bytes, u32_to_le_bytes};
use vstd::slice::{slice_subrange, slice_to_vec};

use crate::error::BitcoinError;
use crate::txid::Txid;
use crate::varint::CompactSize;
use crate::varint::{varint_len, varint_ok, varint_val};
use crate::wire::{
    input_dec, input_enc, input_len, input_model_valid, input_ok, inputs_dec, inputs_enc,
    inputs_len, inputs_ok, outpoint_dec, outpoint_enc, outpoint_ok, script_dec, script_enc,
    script_len, script_ok, tx_dec, tx_enc, tx_len, tx_model_valid, tx_ok, InputModel,
    OutPointModel, TxModel, lemma_inputs_enc_snoc, lemma_inputs_split, lemma_skip_skip,
    lemma_tx_round_trip,
};

verus! {

/// A reference to an output of a prior transaction: its txid and the
/// output's index.
#[derive(Debug, PartialEq, Eq, Clone)]
pub struct OutPoint {
    pub txid: Txid,
    pub vout: u32,
}

impl View for OutPoint {
    type V = OutPointModel;

    open spec fn view(&self) -> OutPointModel {
        OutPointModel { txid: self.txid.0@, vout: self.vout }
    }
}

impl OutPoint {
    pub fn new(txid: [u8; 32], vout: u32) -> (r: Self)
        ensures
            r@ == (OutPointModel { txid: txid@, vout }),
    {
        OutPoint { txid: Txid(txid), vout }
    }

    /// Encodes to exactly 36 bytes: the txid, then the index in
    /// little-endian order.
    pub fn to_bytes(&self) -> (r: Vec<u8>)
        ensures
            r@ == outpoint_enc(self@),
            r@.len() == 36,
    {
        let mut r = slice_to_vec(self.txid.0.as_slice());
        let mut tail = u32_to_le_bytes(self.vout);
        r.append(&mut tail);
        proof {
            vstd::bytes::lemma_auto_spec_u32_to_from_le_bytes();
            assert(r@ =~= outpoint_enc(self@));
        }
        r
    }

    /// Decodes 36 bytes from the head of the buffer; fails exactly when
    /// fewer are available.
    pub fn from_bytes(bytes: &[u8]) -> (r: Result<(Self, usize), BitcoinError>)
        ensures
            match r {
                Ok(p) => {
                    &&& outpoint_ok(bytes@)
                    &&& p.0@ == outpoint_dec(bytes@)
                    &&& p.1 == 36
                },
                Err(e) => {
                    &&& !outpoint_ok(bytes@)
                    &&& e == BitcoinError::InsufficientBytes
                },
            },
    {
        if bytes.len() < 36 {
            return Err(BitcoinError::InsufficientBytes);
        }
        let mut a: [u8; 32] = [0u8; 32];
        let mut i: usize = 0;
        while i < 32
            invariant
                bytes@.len() >= 36,
                i <= 32,
                forall|j: int| 0 <= j < i ==> a@[j] == bytes@[j],
            decreases 32 - i,
        {
            a[i] = bytes[i];
            i += 1;
        }
        let vout = u32_from_le_bytes(slice_subrange(bytes, 32, 36));
        proof {
            assert(a@ =~= bytes@.subrange(0, 32));
        }
        Ok((OutPoint { txid: Txid(a), vout }, 36))
    }
}

/// An opaque, length-prefixed byte payload; the codec gives its bytes no
/// interpretation.
#[derive(Debug, PartialEq, Eq, Clone)]
pub struct Script {
    pub bytes: Vec<u8>,
}

impl View for Script {
    type V = Seq<u8>;

    open spec fn view(&self) -> Seq<u8> {
        self.bytes@
    }
}

impl Script {
    pub fn new(bytes: Vec<u8>) -> (r: Self)
        ensures
            r@ == bytes@,
    {
        Script { bytes }
    }

    /// Encodes as the payload length (CompactSize) followed by the raw
    /// payload.
    pub fn to_bytes(&self) -> (r: Vec<u8>)
        ensures
            r@ == script_enc(self@),
            self@.len() <= u64::MAX,
    {
        let cs = CompactSize::new(self.bytes.len() as u64);
        let mut r = cs.to_bytes();
        r.extend_from_slice(self.bytes.as_slice());
        proof {
            assert(r@ =~= script_enc(self@));
        }
        r
    }

    /// Decodes a length prefix and that many payload bytes. Fails exactly
    /// when the prefix itself is short, or declares more bytes than the
    /// buffer still holds; the declared length is checked before any
    /// offset arithmetic, so it can never read past the buffer.
    pub fn from_bytes(bytes: &[u8]) -> (r: Result<(Self, usize), BitcoinError>)
        ensures
            match r {
                Ok(p) => {
                    &&& script_ok(bytes@)
                    &&& p.0@ == script_dec(bytes@)
                    &&& p.1 == script_len(bytes@)
                },
                Err(e) => {
                    &&& !script_ok(bytes@)
                    &&& e == BitcoinError::InsufficientBytes
                },
            },
    {
        let (cs, w) = match CompactSize::from_bytes(bytes) {
            Ok(p) => p,
            Err(e) => {
                return Err(e);
            },
        };
        let rem = bytes.len() - w;
        if cs.value > rem as u64 {
            return Err(BitcoinError::InsufficientBytes);
        }
        let l = cs.value as usize;
        let data = slice_to_vec(slice_subrange(bytes, w, w + l));
        Ok((Script { bytes: data }, w + l))
    }
}

/// One transaction input: the output it spends, its unlock script and the
/// sequence number.
#[derive(Debug, PartialEq, Eq, Clone)]
pub struct TransactionInput {
    pub previous_output: OutPoint,
    pub script_sig: Script,
    pub sequence: u32,
}

impl View for TransactionInput {
    type V = InputModel;

    open spec fn view(&self) -> InputModel {
        InputModel {
            previous_output: self.previous_output@,
            script_sig: self.script_sig@,
            sequence: self.sequence,
        }
    }
}

impl TransactionInput {
    pub fn new(previous_output: OutPoint, script_sig: Script, sequence: u32) -> (r: Self)
        ensures
            r@ == (InputModel {
                previous_output: previous_output@,
                script_sig: script_sig@,
                sequence,
            }),
    {
        TransactionInput { previous_output, script_sig, sequence }
    }

    /// Encodes as OutPoint bytes, script bytes, then the sequence number
    /// in little-endian order.
    pub fn to_bytes(&self) -> (r: Vec<u8>)
        ensures
            r@ == input_enc(self@),
            input_model_valid(self@),
    {
        let mut r = self.previous_output.to_bytes();
        let mut sb = self.script_sig.to_bytes();
        r.append(&mut sb);
        let mut qb = u32_to_le_bytes(self.sequence);
        r.append(&mut qb);
        proof {
            assert(r@ =~= input_enc(self@));
        }
        r
    }

    /// Decodes an OutPoint, then a Script, then 4 sequence bytes, each
    /// starting where the previous component ended. Fails exactly when any
    /// of the three finds the buffer short.
    pub fn from_bytes(bytes: &[u8]) -> (r: Result<(Self, usize), BitcoinError>)
        ensures
            match r {
                Ok(p) => {
                    &&& input_ok(bytes@)
                    &&& p.0@ == input_dec(bytes@)
                    &&& p.1 == input_len(bytes@)
                },
                Err(e) => {
                    &&& !input_ok(bytes@)
                    &&& e == BitcoinError::InsufficientBytes
                },
            },
    {
        let (previous_output, _) = match OutPoint::from_bytes(bytes) {
            Ok(p) => p,
            Err(e) => {
                return Err(e);
            },
        };
        let tail = slice_subrange(bytes, 36, bytes.len());
        proof {
            assert(tail@ =~= bytes@.skip(36));
        }
        let (script_sig, slen) = match Script::from_bytes(tail) {
            Ok(p) => p,
            Err(e) => {
                return Err(e);
            },
        };
        let seq_start = 36 + slen;
        if bytes.len() - seq_start < 4 {
            return Err(BitcoinError::InsufficientBytes);
        }
        let sequence = u32_from_le_bytes(slice_subrange(bytes, seq_start, seq_start + 4));
        proof {
            assert(bytes@.subrange(seq_start as int, seq_start + 4) =~= bytes@.subrange(
                input_len(bytes@) - 4,
                input_len(bytes@) as int,
            ));
        }
        Ok((TransactionInput { previous_output, script_sig, sequence }, seq_start + 4))
    }
}

/// Maps a sequence of executable inputs to their models.
pub open spec fn inputs_view(v: Seq<TransactionInput>) -> Seq<InputModel> {
    v.map_values(|i: TransactionInput| i@)
}

/// A legacy (pre-segwit) transaction: version, inputs and lock time.
#[derive(Debug, PartialEq, Eq, Clone)]
pub struct BitcoinTransaction {
    pub version: u32,
    pub inputs: Vec<TransactionInput>,
    pub lock_time: u32,
}

impl View for BitcoinTransaction {
    type V = TxModel;

    open spec fn view(&self) -> TxModel {
        TxModel {
            version: self.version,
            inputs: inputs_view(self.inputs@),
            lock_time: self.lock_time,
        }
    }
}

impl BitcoinTransaction {
    pub fn new(version: u32, inputs: Vec<TransactionInput>, lock_time: u32) -> (r: Self)
        ensures
            r@ == (TxModel { version, inputs: inputs_view(inputs@), lock_time }),
    {
        BitcoinTransaction { version, inputs, lock_time }
    }

    /// Encodes as the version, the input count (CompactSize), each input's
    /// encoding in order, then the lock time.
    pub fn to_bytes(&self) -> (r: Vec<u8>)
        ensures
            r@ == tx_enc(self@),
            tx_model_valid(self@),
    {
        let mut r = u32_to_le_bytes(self.version);
        let n = self.inputs.len();
        let cs = CompactSize::new(n as u64);
        let mut c = cs.to_bytes();
        r.append(&mut c);
        let ghost iv = inputs_view(self.inputs@);
        let ghost header = r@;
        proof {
            assert(iv.take(0) =~= Seq::<InputModel>::empty());
            assert(inputs_enc(iv.take(0)) == Seq::<u8>::empty());
            assert(header + inputs_enc(iv.take(0)) =~= header);
        }
        let mut idx: usize = 0;
        while idx < n
            invariant
                n == self.inputs@.len(),
                iv == inputs_view(self.inputs@),
                idx <= n,
                r@ == header + inputs_enc(iv.take(idx as int)),
                forall|j: int| 0 <= j < idx ==> input_model_valid(#[trigger] iv[j]),
            decreases n - idx,
        {
            let mut ib = self.inputs[idx].to_bytes();
            r.append(&mut ib);
            proof {
                assert(iv[idx as int] == self.inputs@[idx as int]@);
                assert(iv.take(idx + 1) =~= iv.take(idx as int).push(iv[idx as int]));
                lemma_inputs_enc_snoc(iv.take(idx as int), iv[idx as int]);
                assert(header + (inputs_enc(iv.take(idx as int)) + input_enc(iv[idx as int])) =~= (
                header + inputs_enc(iv.take(idx as int))) + input_enc(iv[idx as int]));
            }
            idx += 1;
        }
        let mut lb = u32_to_le_bytes(self.lock_time);
        r.append(&mut lb);
        proof {
            assert(iv.take(n as int) =~= iv);
            assert(r@ =~= tx_enc(self@));
        }
        r
    }

    /// Decodes a whole transaction: the version, the declared input count,
    /// exactly that many inputs back to back, then the lock time. Fails
    /// exactly when the buffer ends before any of those fields does, and
    /// returns the total byte count consumed.
    pub fn from_bytes(bytes: &[u8]) -> (r: Result<(Self, usize), BitcoinError>)
        ensures
            match r {
                Ok(p) => {
                    &&& tx_ok(bytes@)
                    &&& p.0@ == tx_dec(bytes@)
                    &&& p.1 == tx_len(bytes@)
                },
                Err(e) => {
                    &&& !tx_ok(bytes@)
                    &&& e == BitcoinError::InsufficientBytes
                },
            },
    {
        if bytes.len() < 4 {
            return Err(BitcoinError::InsufficientBytes);
        }
        let version = u32_from_le_bytes(slice_subrange(bytes, 0, 4));
        let vtail = slice_subrange(bytes, 4, bytes.len());
        proof {
            assert(vtail@ =~= bytes@.skip(4));
        }
        let (cs, w) = match CompactSize::from_bytes(vtail) {
            Ok(p) => p,
            Err(e) => {
                return Err(e);
            },
        };
        let count = cs.value;
        let body_start = 4 + w;
        let ghost body = bytes@.skip(body_start as int);
        let mut inputs: Vec<TransactionInput> = Vec::new();
        let mut offset: usize = body_start;
        let mut i: u64 = 0;
        proof {
            assert(inputs_view(inputs@) =~= inputs_dec(body, 0));
        }
        while i < count
            invariant
                bytes@.len() >= 4,
                varint_ok(bytes@.skip(4)),
                w == varint_len(bytes@.skip(4)),
                count == varint_val(bytes@.skip(4)),
                body_start == 4 + w,
                body_start <= bytes@.len(),
                body == bytes@.skip(body_start as int),
                i <= count,
                inputs@.len() == i,
                inputs_ok(body, i as nat),
                offset == body_start + inputs_len(body, i as nat),
                offset <= bytes@.len(),
                inputs_view(inputs@) == inputs_dec(body, i as nat),
            decreases count - i,
        {
            let ghost done = inputs_len(body, i as nat);
            proof {
                lemma_inputs_split(body, i as nat, count as nat);
                lemma_skip_skip(bytes@, body_start as int, done as int);
            }
            let tail = slice_subrange(bytes, offset, bytes.len());
            proof {
                assert(tail@ =~= body.skip(done as int));
            }
            match TransactionInput::from_bytes(tail) {
                Err(_) => {
                    proof {
                        assert(!inputs_ok(tail@, (count - i) as nat));
                        assert(!inputs_ok(body, count as nat));
                    }
                    return Err(BitcoinError::InsufficientBytes);
                },
                Ok((inp, ilen)) => {
                    proof {
                        lemma_inputs_split(body, i as nat, (i + 1) as nat);
                        let t1 = tail@.skip(input_len(tail@) as int);
                        assert(inputs_ok(t1, 0));
                        assert(inputs_len(t1, 0) == 0);
                        assert(inputs_dec(t1, 0) == Seq::<InputModel>::empty());
                        assert(inputs_ok(tail@, 1));
                        assert(inputs_len(tail@, 1) == ilen);
                        assert(inputs_dec(tail@, 1) =~= seq![inp@]);
                        assert(inputs_dec(body, (i + 1) as nat) =~= inputs_dec(
                            body,
                            i as nat,
                        ).push(inp@));
                        assert(inputs_view(inputs@.push(inp)) =~= inputs_view(inputs@).push(inp@));
                        assert(tail@.len() >= input_len(tail@));
                    }
                    inputs.push(inp);
                    offset = offset + ilen;
                    i = i + 1;
                },
            }
        }
        if bytes.len() - offset < 4 {
            return Err(BitcoinError::InsufficientBytes);
        }
        let lock_time = u32_from_le_bytes(slice_subrange(bytes, offset, offset + 4));
        proof {
            assert(tx_ok(bytes@));
            assert(tx_len(bytes@) == offset + 4);
            assert(bytes@.subrange(offset as int, offset + 4) =~= bytes@.subrange(
                tx_len(bytes@) - 4,
                tx_len(bytes@) as int,
            ));
        }
        Ok((BitcoinTransaction { version, inputs, lock_time }, offset + 4))
    }
}

/// Round trip for executable transactions: the bytes `to_bytes` produces
/// always decode, reproduce the transaction's value exactly, and are
/// consumed in full. The premise holds of every transaction an executable
/// value can represent.
pub proof fn lemma_transaction_round_trip(t: BitcoinTransaction)
    requires
        tx_model_valid(t@),
    ensures
        tx_ok(tx_enc(t@)),
        tx_len(tx_enc(t@)) == tx_enc(t@).len(),
        tx_dec(tx_enc(t@)) == t@,
{
    lemma_tx_round_trip(t@);
}

} // verus!
