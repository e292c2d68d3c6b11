//! The wire format, stated mathematically.
//!
//! Ghost models mirror the executable structures, and spec functions give
//! the exact byte layout of each component: what its encoding is, when a
//! buffer holds a complete value, how many bytes that value occupies and
//! what it decodes to. The executable codecs in the sibling modules carry
//! contracts phrased over these functions.

use vstd::prelude::*;
use vstd::bytes::{spec_u32_from_le_bytes, spec_u32_to_le_bytes};

use crate::varint::{varint_enc, varint_len, varint_ok, varint_val};

verus! {

/// Model of an OutPoint: 32 txid bytes and an output index.
pub ghost struct OutPointModel {
    pub txid: Seq<u8>,
    pub vout: u32,
}

/// Model of a transaction input.
pub ghost struct InputModel {
    pub previous_output: OutPointModel,
    pub script_sig: Seq<u8>,
    pub sequence: u32,
}

/// Model of a legacy transaction: version, inputs, lock time.
pub ghost struct TxModel {
    pub version: u32,
    pub inputs: Seq<InputModel>,
    pub lock_time: u32,
}

/// The values an executable transaction can actually hold: txids are 32
/// bytes, and every length fits in 64 bits.
pub open spec fn input_model_valid(m: InputModel) -> bool {
    m.previous_output.txid.len() == 32 && m.script_sig.len() <= u64::MAX
}

pub open spec fn tx_model_valid(m: TxModel) -> bool {
    &&& m.inputs.len() <= u64::MAX
    &&& forall|i: int| 0 <= i < m.inputs.len() ==> input_model_valid(#[trigger] m.inputs[i])
}

// ---------------------------------------------------------------------------
// Encoding: each component is the concatenation of its fields in order.
// ---------------------------------------------------------------------------

/// 32 raw txid bytes, then the index as 4 little-endian bytes.
pub open spec fn outpoint_enc(m: OutPointModel) -> Seq<u8> {
    m.txid + spec_u32_to_le_bytes(m.vout)
}

/// The payload length as a CompactSize, then the raw payload.
pub open spec fn script_enc(p: Seq<u8>) -> Seq<u8> {
    varint_enc(p.len() as u64) + p
}

/// OutPoint bytes, script bytes, then the sequence number.
pub open spec fn input_enc(m: InputModel) -> Seq<u8> {
    outpoint_enc(m.previous_output) + script_enc(m.script_sig) + spec_u32_to_le_bytes(m.sequence)
}

/// Each input's encoding, in order, with nothing between.
pub open spec fn inputs_enc(ms: Seq<InputModel>) -> Seq<u8>
    decreases ms.len(),
{
    if ms.len() == 0 {
        Seq::empty()
    } else {
        input_enc(ms[0]) + inputs_enc(ms.drop_first())
    }
}

/// Version, input count as a CompactSize, the inputs, then the lock time.
pub open spec fn tx_enc(m: TxModel) -> Seq<u8> {
    spec_u32_to_le_bytes(m.version) + varint_enc(m.inputs.len() as u64) + inputs_enc(m.inputs)
        + spec_u32_to_le_bytes(m.lock_time)
}

// ---------------------------------------------------------------------------
// Decoding: for each component, whether a complete value stands at the head
// of the buffer, how many bytes it occupies, and what it decodes to.
// ---------------------------------------------------------------------------

pub open spec fn outpoint_ok(s: Seq<u8>) -> bool {
    s.len() >= 36
}

pub open spec fn outpoint_dec(s: Seq<u8>) -> OutPointModel
    recommends
        outpoint_ok(s),
{
    OutPointModel { txid: s.subrange(0, 32), vout: spec_u32_from_le_bytes(s.subrange(32, 36)) }
}

pub open spec fn script_ok(s: Seq<u8>) -> bool {
    varint_ok(s) && s.len() >= varint_len(s) + varint_val(s)
}

pub open spec fn script_len(s: Seq<u8>) -> nat
    recommends
        script_ok(s),
{
    varint_len(s) + varint_val(s) as nat
}

pub open spec fn script_dec(s: Seq<u8>) -> Seq<u8>
    recommends
        script_ok(s),
{
    s.subrange(varint_len(s) as int, script_len(s) as int)
}

pub open spec fn input_ok(s: Seq<u8>) -> bool {
    &&& outpoint_ok(s)
    &&& script_ok(s.skip(36))
    &&& s.len() >= 36 + script_len(s.skip(36)) + 4
}

pub open spec fn input_len(s: Seq<u8>) -> nat
    recommends
        input_ok(s),
{
    36 + script_len(s.skip(36)) + 4
}

pub open spec fn input_dec(s: Seq<u8>) -> InputModel
    recommends
        input_ok(s),
{
    InputModel {
        previous_output: outpoint_dec(s),
        script_sig: script_dec(s.skip(36)),
        sequence: spec_u32_from_le_bytes(s.subrange(input_len(s) - 4, input_len(s) as int)),
    }
}

/// Whether `n` complete inputs stand back to back at the head of `s`.
pub open spec fn inputs_ok(s: Seq<u8>, n: nat) -> bool
    decreases n,
{
    n == 0 || (input_ok(s) && inputs_ok(s.skip(input_len(s) as int), (n - 1) as nat))
}

pub open spec fn inputs_len(s: Seq<u8>, n: nat) -> nat
    recommends
        inputs_ok(s, n),
    decreases n,
{
    if n == 0 {
        0
    } else {
        input_len(s) + inputs_len(s.skip(input_len(s) as int), (n - 1) as nat)
    }
}

pub open spec fn inputs_dec(s: Seq<u8>, n: nat) -> Seq<InputModel>
    recommends
        inputs_ok(s, n),
    decreases n,
{
    if n == 0 {
        Seq::empty()
    } else {
        seq![input_dec(s)] + inputs_dec(s.skip(input_len(s) as int), (n - 1) as nat)
    }
}

pub open spec fn tx_ok(s: Seq<u8>) -> bool {
    s.len() >= 4 && varint_ok(s.skip(4)) && {
        let w = varint_len(s.skip(4)) as int;
        let n = varint_val(s.skip(4)) as nat;
        let body = s.skip(4 + w);
        inputs_ok(body, n) && s.len() >= 4 + w + inputs_len(body, n) + 4
    }
}

pub open spec fn tx_len(s: Seq<u8>) -> nat
    recommends
        tx_ok(s),
{
    let w = varint_len(s.skip(4)) as int;
    let n = varint_val(s.skip(4)) as nat;
    let body = s.skip(4 + w);
    (4 + w + inputs_len(body, n) + 4) as nat
}

pub open spec fn tx_dec(s: Seq<u8>) -> TxModel
    recommends
        tx_ok(s),
{
    let w = varint_len(s.skip(4)) as int;
    let n = varint_val(s.skip(4)) as nat;
    let body = s.skip(4 + w);
    TxModel {
        version: spec_u32_from_le_bytes(s.subrange(0, 4)),
        inputs: inputs_dec(body, n),
        lock_time: spec_u32_from_le_bytes(s.subrange(tx_len(s) - 4, tx_len(s) as int)),
    }
}

// ---------------------------------------------------------------------------
// Structural lemmas used by the executable codecs.
// ---------------------------------------------------------------------------

/// Skipping twice is skipping the sum.
pub proof fn lemma_skip_skip(s: Seq<u8>, a: int, b: int)
    requires
        0 <= a,
        0 <= b,
        a + b <= s.len(),
    ensures
        s.skip(a).skip(b) == s.skip(a + b),
{
    assert(s.skip(a).skip(b) =~= s.skip(a + b));
}

/// Appending one more input to a sequence appends its encoding.
pub proof fn lemma_inputs_enc_snoc(ms: Seq<InputModel>, m: InputModel)
    ensures
        inputs_enc(ms.push(m)) == inputs_enc(ms) + input_enc(m),
    decreases ms.len(),
{
    if ms.len() == 0 {
        let msm = ms.push(m);
        assert(msm[0] == m);
        assert(msm.drop_first() =~= Seq::<InputModel>::empty());
        assert(inputs_enc(msm.drop_first()) == Seq::<u8>::empty());
        assert(inputs_enc(msm) == input_enc(m) + Seq::<u8>::empty());
        assert(inputs_enc(ms) == Seq::<u8>::empty());
        assert(input_enc(m) + Seq::<u8>::empty() =~= Seq::<u8>::empty() + input_enc(m));
    } else {
        let msm = ms.push(m);
        assert(msm[0] == ms[0]);
        assert(msm.drop_first() =~= ms.drop_first().push(m));
        assert(inputs_enc(msm) == input_enc(ms[0]) + inputs_enc(ms.drop_first().push(m)));
        lemma_inputs_enc_snoc(ms.drop_first(), m);
        assert(inputs_enc(ms) == input_enc(ms[0]) + inputs_enc(ms.drop_first()));
        assert(input_enc(ms[0]) + (inputs_enc(ms.drop_first()) + input_enc(m)) =~= (input_enc(
            ms[0],
        ) + inputs_enc(ms.drop_first())) + input_enc(m));
    }
}

/// Splits a run of `n` inputs after its first `i`: the remaining `n - i`
/// inputs stand at the offset the first `i` end at, and lengths and decoded
/// values add up.
pub proof fn lemma_inputs_split(s: Seq<u8>, i: nat, n: nat)
    requires
        i <= n,
        inputs_ok(s, i),
    ensures
        inputs_len(s, i) <= s.len(),
        inputs_ok(s, n) <==> inputs_ok(s.skip(inputs_len(s, i) as int), (n - i) as nat),
        inputs_ok(s, n) ==> inputs_len(s, n) == inputs_len(s, i) + inputs_len(
            s.skip(inputs_len(s, i) as int),
            (n - i) as nat,
        ),
        inputs_ok(s, n) ==> inputs_dec(s, n) == inputs_dec(s, i) + inputs_dec(
            s.skip(inputs_len(s, i) as int),
            (n - i) as nat,
        ),
    decreases i,
{
    if i == 0 {
        assert(s.skip(0) =~= s);
        assert(inputs_dec(s, 0) + inputs_dec(s.skip(0), n) =~= inputs_dec(s, n));
    } else {
        let l = input_len(s) as int;
        let s1 = s.skip(l);
        lemma_inputs_split(s1, (i - 1) as nat, (n - 1) as nat);
        assert(inputs_len(s, i) == l + inputs_len(s1, (i - 1) as nat));
        lemma_skip_skip(s, l, inputs_len(s1, (i - 1) as nat) as int);
        let rest = s.skip(inputs_len(s, i) as int);
        assert(rest =~= s1.skip(inputs_len(s1, (i - 1) as nat) as int));
        if inputs_ok(s, n) {
            assert(inputs_dec(s, n) == seq![input_dec(s)] + inputs_dec(s1, (n - 1) as nat));
            assert(inputs_dec(s1, (n - 1) as nat) == inputs_dec(s1, (i - 1) as nat) + inputs_dec(
                rest,
                (n - i) as nat,
            ));
            assert(seq![input_dec(s)] + (inputs_dec(s1, (i - 1) as nat) + inputs_dec(
                rest,
                (n - i) as nat,
            )) =~= (seq![input_dec(s)] + inputs_dec(s1, (i - 1) as nat)) + inputs_dec(
                rest,
                (n - i) as nat,
            ));
        }
    }
}

// ---------------------------------------------------------------------------
// Round trip: decoding an encoding reproduces the encoded value, whatever
// bytes follow it in the buffer.
// ---------------------------------------------------------------------------

pub proof fn lemma_outpoint_dec_prefix(m: OutPointModel, rest: Seq<u8>)
    requires
        m.txid.len() == 32,
    ensures
        outpoint_enc(m).len() == 36,
        outpoint_ok(outpoint_enc(m) + rest),
        outpoint_dec(outpoint_enc(m) + rest) == m,
{
    vstd::bytes::lemma_auto_spec_u32_to_from_le_bytes();
    let s = outpoint_enc(m) + rest;
    assert(s.subrange(0, 32) =~= m.txid);
    assert(s.subrange(32, 36) =~= spec_u32_to_le_bytes(m.vout));
}

pub proof fn lemma_script_dec_prefix(p: Seq<u8>, rest: Seq<u8>)
    requires
        p.len() <= u64::MAX,
    ensures
        script_ok(script_enc(p) + rest),
        script_len(script_enc(p) + rest) == script_enc(p).len(),
        script_dec(script_enc(p) + rest) == p,
{
    let v = p.len() as u64;
    let s = script_enc(p) + rest;
    assert(s =~= varint_enc(v) + (p + rest));
    crate::varint::lemma_varint_dec_prefix(v, p + rest);
    let w = varint_len(s) as int;
    assert(w == varint_enc(v).len());
    assert(s.subrange(w, w + p.len() as int) =~= p);
}

pub proof fn lemma_input_dec_prefix(m: InputModel, rest: Seq<u8>)
    requires
        input_model_valid(m),
    ensures
        input_enc(m).len() == 36 + script_enc(m.script_sig).len() + 4,
        input_ok(input_enc(m) + rest),
        input_len(input_enc(m) + rest) == input_enc(m).len(),
        input_dec(input_enc(m) + rest) == m,
{
    vstd::bytes::lemma_auto_spec_u32_to_from_le_bytes();
    let e = input_enc(m);
    let s = e + rest;
    let oe = outpoint_enc(m.previous_output);
    let se = script_enc(m.script_sig);
    let le = spec_u32_to_le_bytes(m.sequence);
    assert(s =~= oe + (se + (le + rest)));
    lemma_outpoint_dec_prefix(m.previous_output, se + (le + rest));
    assert(s.skip(36) =~= se + (le + rest));
    lemma_script_dec_prefix(m.script_sig, le + rest);
    assert(script_ok(s.skip(36)));
    assert(script_len(s.skip(36)) == se.len());
    assert(e.len() == 36 + se.len() + 4);
    assert(input_len(s) == e.len());
    assert(s.subrange(input_len(s) - 4, input_len(s) as int) =~= le);
}

pub proof fn lemma_inputs_dec_prefix(ms: Seq<InputModel>, rest: Seq<u8>)
    requires
        forall|i: int| 0 <= i < ms.len() ==> input_model_valid(#[trigger] ms[i]),
    ensures
        inputs_ok(inputs_enc(ms) + rest, ms.len()),
        inputs_len(inputs_enc(ms) + rest, ms.len()) == inputs_enc(ms).len(),
        inputs_dec(inputs_enc(ms) + rest, ms.len()) == ms,
    decreases ms.len(),
{
    let s = inputs_enc(ms) + rest;
    if ms.len() == 0 {
        assert(inputs_enc(ms) == Seq::<u8>::empty());
        assert(inputs_dec(s, 0) =~= ms);
    } else {
        let e0 = input_enc(ms[0]);
        let tail_enc = inputs_enc(ms.drop_first());
        assert(inputs_enc(ms) == e0 + tail_enc);
        assert(s =~= e0 + (tail_enc + rest));
        lemma_input_dec_prefix(ms[0], tail_enc + rest);
        assert(input_ok(s));
        assert(input_len(s) == e0.len());
        assert(input_dec(s) == ms[0]);
        let s1 = s.skip(input_len(s) as int);
        assert(s1 =~= tail_enc + rest);
        assert(forall|i: int|
            0 <= i < ms.drop_first().len() ==> input_model_valid(#[trigger] ms.drop_first()[i]));
        lemma_inputs_dec_prefix(ms.drop_first(), rest);
        assert(inputs_dec(s, ms.len()) == seq![ms[0]] + ms.drop_first());
        assert(seq![ms[0]] + ms.drop_first() =~= ms);
    }
}

/// The round-trip law for whole transactions: decoding the encoding of any
/// representable transaction succeeds, consumes exactly the encoding's
/// length, and reproduces the transaction.
pub proof fn lemma_tx_round_trip(m: TxModel)
    requires
        tx_model_valid(m),
    ensures
        tx_ok(tx_enc(m)),
        tx_len(tx_enc(m)) == tx_enc(m).len(),
        tx_dec(tx_enc(m)) == m,
{
    vstd::bytes::lemma_auto_spec_u32_to_from_le_bytes();
    let s = tx_enc(m);
    let ve = spec_u32_to_le_bytes(m.version);
    let n = m.inputs.len() as u64;
    let ce = varint_enc(n);
    let ie = inputs_enc(m.inputs);
    let le = spec_u32_to_le_bytes(m.lock_time);
    assert(s.subrange(0, 4) =~= ve);
    assert(s.skip(4) =~= ce + (ie + le));
    crate::varint::lemma_varint_dec_prefix(n, ie + le);
    let w = varint_len(s.skip(4)) as int;
    assert(w == ce.len());
    assert(varint_val(s.skip(4)) == n);
    let body = s.skip(4 + w);
    assert(body =~= ie + le);
    lemma_inputs_dec_prefix(m.inputs, le);
    assert(inputs_ok(body, m.inputs.len()));
    assert(inputs_len(body, m.inputs.len()) == ie.len());
    assert(inputs_dec(body, m.inputs.len()) == m.inputs);
    assert(s.len() == 4 + ce.len() + ie.len() + 4);
    assert(tx_len(s) == s.len());
    assert(s.subrange(tx_len(s) - 4, tx_len(s) as int) =~= le);
}

} // verus!
