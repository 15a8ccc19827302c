//! Transactions of the federation: ordered inputs (coin spends or on-chain
//! peg-ins) and ordered outputs (coin issuances or peg-outs), bound by a
//! signature over the transaction's fingerprint.
//!
//! The fingerprint is the SHA-256 digest of a length-tagged canonical byte
//! encoding of the inputs and outputs, so the same transaction always
//! produces the same bytes and the same id.

use vstd::prelude::*;

use bls12_381::{G1Affine, G2Affine};

use crate::FeeConsensus;
use crate::bytes::clone_bytes;
use crate::bls::{g1_compressed, g1_of_seed, pairing_of, g2_base_scaled, scalar_of_u64, sha256_of, sha256_digest};
use crate::tbs::{AggregatePublicKey, BlindedMessage, Message, Signature, verify};

verus! {

/// The largest amount, in milli-satoshi, that any single coin, peg-in,
/// issuance or peg-out may carry.
pub const MAX_AMOUNT: u64 = 0x000f_ffff_ffff_ffff;

/// The largest number of inputs or outputs of one transaction, and of coins
/// in one coin-spend input.
pub const MAX_ITEMS: usize = 1000;

/// The longest accepted peg-out address encoding.
pub const MAX_ADDRESS_LEN: usize = 256;

/// A single-denomination coin note, identified by its nonce; each nonce may
/// be spent at most once.
#[derive(Clone, Copy, Debug, PartialEq, Eq, Structural)]
pub struct Coin {
    pub nonce: u64,
    pub amount: u64,
}

/// A reference to an on-chain transaction output backing a peg-in.
#[derive(Clone, Copy, Debug, PartialEq, Eq, Structural)]
pub struct UtxoRef {
    pub txid: u64,
    pub vout: u64,
}

/// The summary of a peg-in proof bundle: the claimed on-chain output and the
/// amount it carries.
#[derive(Clone, Copy, Debug, PartialEq, Eq, Structural)]
pub struct PegInProof {
    pub utxo: UtxoRef,
    pub amount: u64,
}

/// A request to issue new coins: a blinded message to be signed by the
/// federation, and the requested amount.
#[derive(Clone, Copy, Debug, PartialEq, Eq)]
pub struct IssuanceRequest {
    pub blinded: BlindedMessage,
    pub amount: u64,
}

/// A request to withdraw funds to an on-chain address.
#[derive(Debug, PartialEq, Eq)]
pub struct PegOutRequest {
    pub address: Vec<u8>,
    pub amount: u64,
}

/// A transaction input: either a bundle of coin notes or a peg-in proof.
#[derive(Debug, PartialEq, Eq)]
pub enum Input {
    Coins(Vec<Coin>),
    PegIn(PegInProof),
}

/// A transaction output: either a coin issuance or a peg-out.
#[derive(Debug, PartialEq, Eq)]
pub enum Output {
    Coins(IssuanceRequest),
    PegOut(PegOutRequest),
}

/// A transaction: ordered inputs and outputs, and a signature over the
/// transaction's fingerprint.
#[derive(Debug, PartialEq, Eq)]
pub struct Transaction {
    pub inputs: Vec<Input>,
    pub outputs: Vec<Output>,
    pub signature: Signature,
}

pub enum InputV {
    Coins(Seq<Coin>),
    PegIn(PegInProof),
}

pub enum OutputV {
    Coins { blinded: G1Affine, amount: u64 },
    PegOut { address: Seq<u8>, amount: u64 },
}

pub struct TransactionV {
    pub inputs: Seq<InputV>,
    pub outputs: Seq<OutputV>,
    pub signature: G1Affine,
}

impl View for Input {
    type V = InputV;

    open spec fn view(&self) -> InputV {
        match self {
            Input::Coins(cs) => InputV::Coins(cs@),
            Input::PegIn(p) => InputV::PegIn(*p),
        }
    }
}

impl View for Output {
    type V = OutputV;

    open spec fn view(&self) -> OutputV {
        match self {
            Output::Coins(i) => OutputV::Coins { blinded: i.blinded.0, amount: i.amount },
            Output::PegOut(p) => OutputV::PegOut { address: p.address@, amount: p.amount },
        }
    }
}

impl View for Transaction {
    type V = TransactionV;

    open spec fn view(&self) -> TransactionV {
        TransactionV {
            inputs: self.inputs@.map_values(|i: Input| i@),
            outputs: self.outputs@.map_values(|o: Output| o@),
            signature: self.signature.0,
        }
    }
}

// ---------------------------------------------------------------------------
// Canonical encoding and transaction id
// ---------------------------------------------------------------------------

/// A `u64` as eight little-endian bytes.
pub open spec fn enc_u64(x: u64) -> Seq<u8> {
    seq![
        (x & 0xff) as u8,
        ((x >> 8) & 0xff) as u8,
        ((x >> 16) & 0xff) as u8,
        ((x >> 24) & 0xff) as u8,
        ((x >> 32) & 0xff) as u8,
        ((x >> 40) & 0xff) as u8,
        ((x >> 48) & 0xff) as u8,
        ((x >> 56) & 0xff) as u8,
    ]
}

pub open spec fn enc_coin(c: Coin) -> Seq<u8> {
    enc_u64(c.nonce) + enc_u64(c.amount)
}

pub open spec fn enc_coins(cs: Seq<Coin>) -> Seq<u8>
    decreases cs.len(),
{
    if cs.len() == 0 {
        Seq::empty()
    } else {
        enc_coin(cs[0]) + enc_coins(cs.drop_first())
    }
}

pub open spec fn enc_input(i: InputV) -> Seq<u8> {
    match i {
        InputV::Coins(cs) => seq![0u8] + enc_u64(cs.len() as u64) + enc_coins(cs),
        InputV::PegIn(p) => seq![1u8] + enc_u64(p.utxo.txid) + enc_u64(p.utxo.vout) + enc_u64(
            p.amount,
        ),
    }
}

pub open spec fn enc_inputs(s: Seq<InputV>) -> Seq<u8>
    decreases s.len(),
{
    if s.len() == 0 {
        Seq::empty()
    } else {
        enc_input(s[0]) + enc_inputs(s.drop_first())
    }
}

pub open spec fn enc_output(o: OutputV) -> Seq<u8> {
    match o {
        OutputV::Coins { blinded, amount } => seq![0u8] + g1_compressed(blinded) + enc_u64(amount),
        OutputV::PegOut { address, amount } => seq![1u8] + enc_u64(address.len() as u64) + address
            + enc_u64(amount),
    }
}

pub open spec fn enc_outputs(s: Seq<OutputV>) -> Seq<u8>
    decreases s.len(),
{
    if s.len() == 0 {
        Seq::empty()
    } else {
        enc_output(s[0]) + enc_outputs(s.drop_first())
    }
}

/// The canonical byte encoding of a transaction's content: inputs then
/// outputs, each list tagged with its length.  The signature is not part of
/// the content, since it signs the content's digest.
pub open spec fn enc_tx_content(t: TransactionV) -> Seq<u8> {
    enc_u64(t.inputs.len() as u64) + enc_inputs(t.inputs) + enc_u64(t.outputs.len() as u64)
        + enc_outputs(t.outputs)
}

/// The transaction's fingerprint: the SHA-256 digest of its canonical
/// content encoding.
pub open spec fn txid_of(t: TransactionV) -> Seq<u8> {
    sha256_of(enc_tx_content(t))
}

/// Appends the eight little-endian bytes of `x`.
fn push_u64_le(out: &mut Vec<u8>, x: u64)
    ensures
        final(out)@ == old(out)@ + enc_u64(x),
{
    proof {
        assert((x & 0xff) < 256 && ((x >> 8) & 0xff) < 256 && ((x >> 16) & 0xff) < 256 && ((x
            >> 24) & 0xff) < 256 && ((x >> 32) & 0xff) < 256 && ((x >> 40) & 0xff) < 256 && ((x
            >> 48) & 0xff) < 256 && ((x >> 56) & 0xff) < 256) by (bit_vector);
    }
    out.push((x & 0xff) as u8);
    out.push(((x >> 8) & 0xff) as u8);
    out.push(((x >> 16) & 0xff) as u8);
    out.push(((x >> 24) & 0xff) as u8);
    out.push(((x >> 32) & 0xff) as u8);
    out.push(((x >> 40) & 0xff) as u8);
    out.push(((x >> 48) & 0xff) as u8);
    out.push(((x >> 56) & 0xff) as u8);
    proof {
        assert(out@ =~= old(out)@ + enc_u64(x));
    }
}

/// Appends the canonical encoding of one input.
fn push_input(out: &mut Vec<u8>, input: &Input)
    ensures
        final(out)@ == old(out)@ + enc_input(input@),
{
    match input {
        Input::Coins(cs) => {
            out.push(0u8);
            push_u64_le(out, cs.len() as u64);
            let ghost base = out@;
            let n = cs.len();
            let mut k: usize = 0;
            proof {
                assert(cs@.skip(0) =~= cs@);
            }
            while k < n
                invariant
                    k <= n,
                    n == cs@.len(),
                    out@ + enc_coins(cs@.skip(k as int)) == base + enc_coins(cs@),
                decreases n - k,
            {
                proof {
                    assert(cs@.skip(k as int).drop_first() =~= cs@.skip(k as int + 1));
                    assert(cs@.skip(k as int)[0] == cs@[k as int]);
                }
                let c = cs[k];
                push_u64_le(out, c.nonce);
                push_u64_le(out, c.amount);
                proof {
                    assert(out@ + enc_coins(cs@.skip(k as int + 1)) =~= base + enc_coins(cs@));
                }
                k = k + 1;
            }
            proof {
                assert(enc_coins(cs@.skip(n as int)) =~= Seq::<u8>::empty());
                assert(out@ =~= base + enc_coins(cs@));
                assert(out@ =~= old(out)@ + enc_input(input@));
            }
        }
        Input::PegIn(p) => {
            out.push(1u8);
            push_u64_le(out, p.utxo.txid);
            push_u64_le(out, p.utxo.vout);
            push_u64_le(out, p.amount);
            proof {
                assert(out@ =~= old(out)@ + enc_input(input@));
            }
        }
    }
}

/// Appends the canonical encoding of one output.
fn push_output(out: &mut Vec<u8>, output: &Output)
    ensures
        final(out)@ == old(out)@ + enc_output(output@),
{
    match output {
        Output::Coins(iss) => {
            out.push(0u8);
            let mut comp = iss.blinded.encode_compressed();
            out.append(&mut comp);
            push_u64_le(out, iss.amount);
            proof {
                assert(out@ =~= old(out)@ + enc_output(output@));
            }
        }
        Output::PegOut(p) => {
            out.push(1u8);
            push_u64_le(out, p.address.len() as u64);
            let mut addr = p.address.clone();
            out.append(&mut addr);
            push_u64_le(out, p.amount);
            proof {
                assert(out@ =~= old(out)@ + enc_output(output@));
            }
        }
    }
}

/// The canonical byte encoding of the transaction's content.
pub fn encode_transaction_content(tx: &Transaction) -> (r: Vec<u8>)
    ensures
        r@ == enc_tx_content(tx@),
{
    let mut out: Vec<u8> = Vec::new();
    push_u64_le(&mut out, tx.inputs.len() as u64);
    let ghost base_in = out@;
    let n_in = tx.inputs.len();
    let mut k: usize = 0;
    proof {
        assert(tx@.inputs.skip(0) =~= tx@.inputs);
    }
    while k < n_in
        invariant
            k <= n_in,
            n_in == tx.inputs@.len(),
            tx@.inputs.len() == n_in,
            forall|j: int| 0 <= j < n_in ==> tx@.inputs[j] == #[trigger] tx.inputs@[j]@,
            out@ + enc_inputs(tx@.inputs.skip(k as int)) == base_in + enc_inputs(tx@.inputs),
        decreases n_in - k,
    {
        proof {
            assert(tx@.inputs.skip(k as int).drop_first() =~= tx@.inputs.skip(k as int + 1));
            assert(tx@.inputs.skip(k as int)[0] == tx@.inputs[k as int]);
        }
        push_input(&mut out, &tx.inputs[k]);
        proof {
            assert(out@ + enc_inputs(tx@.inputs.skip(k as int + 1)) =~= base_in + enc_inputs(
                tx@.inputs,
            ));
        }
        k = k + 1;
    }
    proof {
        assert(enc_inputs(tx@.inputs.skip(n_in as int)) =~= Seq::<u8>::empty());
        assert(out@ =~= base_in + enc_inputs(tx@.inputs));
    }
    push_u64_le(&mut out, tx.outputs.len() as u64);
    let ghost base_out = out@;
    let n_out = tx.outputs.len();
    let mut k2: usize = 0;
    proof {
        assert(tx@.outputs.skip(0) =~= tx@.outputs);
    }
    while k2 < n_out
        invariant
            k2 <= n_out,
            n_out == tx.outputs@.len(),
            tx@.outputs.len() == n_out,
            forall|j: int| 0 <= j < n_out ==> tx@.outputs[j] == #[trigger] tx.outputs@[j]@,
            out@ + enc_outputs(tx@.outputs.skip(k2 as int)) == base_out + enc_outputs(tx@.outputs),
        decreases n_out - k2,
    {
        proof {
            assert(tx@.outputs.skip(k2 as int).drop_first() =~= tx@.outputs.skip(k2 as int + 1));
            assert(tx@.outputs.skip(k2 as int)[0] == tx@.outputs[k2 as int]);
        }
        push_output(&mut out, &tx.outputs[k2]);
        proof {
            assert(out@ + enc_outputs(tx@.outputs.skip(k2 as int + 1)) =~= base_out + enc_outputs(
                tx@.outputs,
            ));
        }
        k2 = k2 + 1;
    }
    proof {
        assert(enc_outputs(tx@.outputs.skip(n_out as int)) =~= Seq::<u8>::empty());
        assert(out@ =~= base_out + enc_outputs(tx@.outputs));
        assert(out@ =~= enc_tx_content(tx@));
    }
    out
}

/// The transaction's fingerprint: SHA-256 of its canonical content.
pub fn transaction_id(tx: &Transaction) -> (r: Vec<u8>)
    ensures
        r@ == txid_of(tx@),
        r@.len() == 32,
{
    let content = encode_transaction_content(tx);
    sha256_digest(content.as_slice())
}

// ---------------------------------------------------------------------------
// Funding validation
// ---------------------------------------------------------------------------

/// Structural failures of a transaction.
#[derive(Clone, Copy, Debug, PartialEq, Eq, Structural)]
pub enum TransactionError {
    /// Inputs minus outputs does not equal the consensus fees.
    UnbalancedTransaction,
    /// An amount or a list exceeds the consensus size limits.
    OversizedTransaction,
    /// The signature does not bind the transaction under the federation key.
    InvalidSignature,
}

pub open spec fn input_within_limits(i: InputV) -> bool {
    match i {
        InputV::Coins(cs) => cs.len() <= MAX_ITEMS && forall|k: int|
            0 <= k < cs.len() ==> (#[trigger] cs[k]).amount <= MAX_AMOUNT,
        InputV::PegIn(p) => p.amount <= MAX_AMOUNT,
    }
}

pub open spec fn output_within_limits(o: OutputV) -> bool {
    match o {
        OutputV::Coins { blinded, amount } => amount <= MAX_AMOUNT,
        OutputV::PegOut { address, amount } => amount <= MAX_AMOUNT && address.len()
            <= MAX_ADDRESS_LEN,
    }
}

/// The consensus size limits: bounded lists and bounded amounts, so that
/// every funding sum fits comfortably in machine arithmetic.
pub open spec fn tx_within_limits(t: TransactionV) -> bool {
    &&& t.inputs.len() <= MAX_ITEMS
    &&& t.outputs.len() <= MAX_ITEMS
    &&& forall|i: int| 0 <= i < t.inputs.len() ==> input_within_limits(#[trigger] t.inputs[i])
    &&& forall|i: int| 0 <= i < t.outputs.len() ==> output_within_limits(#[trigger] t.outputs[i])
}

pub open spec fn coin_sum(cs: Seq<Coin>) -> int
    decreases cs.len(),
{
    if cs.len() == 0 {
        0
    } else {
        cs[0].amount + coin_sum(cs.drop_first())
    }
}

pub open spec fn input_amounts(s: Seq<InputV>) -> int
    decreases s.len(),
{
    if s.len() == 0 {
        0
    } else {
        (match s[0] {
            InputV::Coins(cs) => coin_sum(cs),
            InputV::PegIn(p) => p.amount as int,
        }) + input_amounts(s.drop_first())
    }
}

pub open spec fn output_amounts(s: Seq<OutputV>) -> int
    decreases s.len(),
{
    if s.len() == 0 {
        0
    } else {
        (match s[0] {
            OutputV::Coins { blinded, amount } => amount as int,
            OutputV::PegOut { address, amount } => amount as int,
        }) + output_amounts(s.drop_first())
    }
}

pub open spec fn input_fees(s: Seq<InputV>, fees: FeeConsensus) -> int
    decreases s.len(),
{
    if s.len() == 0 {
        0
    } else {
        (match s[0] {
            InputV::Coins(cs) => fees.coin_spend_fee as int,
            InputV::PegIn(p) => fees.peg_in_fee as int,
        }) + input_fees(s.drop_first(), fees)
    }
}

pub open spec fn output_fees(s: Seq<OutputV>, fees: FeeConsensus) -> int
    decreases s.len(),
{
    if s.len() == 0 {
        0
    } else {
        (match s[0] {
            OutputV::Coins { blinded, amount } => fees.coin_issuance_fee as int,
            OutputV::PegOut { address, amount } => fees.peg_out_fee as int,
        }) + output_fees(s.drop_first(), fees)
    }
}

/// The funding equation: the inputs carry exactly the outputs plus the fees.
pub open spec fn tx_balanced(t: TransactionV, fees: FeeConsensus) -> bool {
    input_amounts(t.inputs) == output_amounts(t.outputs) + input_fees(t.inputs, fees)
        + output_fees(t.outputs, fees)
}

fn input_within_limits_check(input: &Input) -> (r: bool)
    ensures
        r <==> input_within_limits(input@),
{
    match input {
        Input::Coins(cs) => {
            proof {
                assert(input@ == InputV::Coins(cs@));
            }
            if cs.len() > MAX_ITEMS {
                return false;
            }
            let n = cs.len();
            let mut k: usize = 0;
            while k < n
                invariant
                    k <= n,
                    n == cs@.len(),
                    n <= MAX_ITEMS,
                    input@ == InputV::Coins(cs@),
                    forall|j: int| 0 <= j < k ==> (#[trigger] cs@[j]).amount <= MAX_AMOUNT,
                decreases n - k,
            {
                if cs[k].amount > MAX_AMOUNT {
                    return false;
                }
                k = k + 1;
            }
            true
        }
        Input::PegIn(p) => p.amount <= MAX_AMOUNT,
    }
}

fn output_within_limits_check(output: &Output) -> (r: bool)
    ensures
        r <==> output_within_limits(output@),
{
    match output {
        Output::Coins(iss) => iss.amount <= MAX_AMOUNT,
        Output::PegOut(p) => p.amount <= MAX_AMOUNT && p.address.len() <= MAX_ADDRESS_LEN,
    }
}

/// Tests the consensus size limits.
pub fn check_within_limits(tx: &Transaction) -> (r: bool)
    ensures
        r <==> tx_within_limits(tx@),
{
    if tx.inputs.len() > MAX_ITEMS || tx.outputs.len() > MAX_ITEMS {
        return false;
    }
    let n_in = tx.inputs.len();
    let mut k: usize = 0;
    while k < n_in
        invariant
            k <= n_in,
            n_in == tx.inputs@.len(),
            tx@.inputs.len() == n_in,
            forall|j: int| 0 <= j < n_in ==> tx@.inputs[j] == #[trigger] tx.inputs@[j]@,
            forall|j: int| 0 <= j < k ==> input_within_limits(#[trigger] tx@.inputs[j]),
        decreases n_in - k,
    {
        if !input_within_limits_check(&tx.inputs[k]) {
            return false;
        }
        k = k + 1;
    }
    let n_out = tx.outputs.len();
    let mut k2: usize = 0;
    while k2 < n_out
        invariant
            k2 <= n_out,
            n_out == tx.outputs@.len(),
            tx@.outputs.len() == n_out,
            forall|j: int| 0 <= j < n_out ==> tx@.outputs[j] == #[trigger] tx.outputs@[j]@,
            forall|j: int| 0 <= j < k2 ==> output_within_limits(#[trigger] tx@.outputs[j]),
        decreases n_out - k2,
    {
        if !output_within_limits_check(&tx.outputs[k2]) {
            return false;
        }
        k2 = k2 + 1;
    }
    true
}

fn coin_sum_total(cs: &Vec<Coin>) -> (r: u128)
    requires
        cs@.len() <= MAX_ITEMS,
        forall|k: int| 0 <= k < cs@.len() ==> (#[trigger] cs@[k]).amount <= MAX_AMOUNT,
    ensures
        r as int == coin_sum(cs@),
        r <= 0x4000_0000_0000_0000u128,
{
    let n = cs.len();
    let mut acc: u128 = 0;
    let mut k: usize = 0;
    proof {
        assert(cs@.skip(0) =~= cs@);
        assert(MAX_ITEMS == 1000usize);
        assert(MAX_AMOUNT < 0x10_0000_0000_0000u64);
    }
    while k < n
        invariant
            k <= n,
            n == cs@.len(),
            n <= MAX_ITEMS,
            forall|j: int| 0 <= j < n ==> (#[trigger] cs@[j]).amount <= MAX_AMOUNT,
            acc <= k as u128 * 0x10_0000_0000_0000u128,
            coin_sum(cs@) == acc + coin_sum(cs@.skip(k as int)),
        decreases n - k,
    {
        proof {
            assert(cs@.skip(k as int).drop_first() =~= cs@.skip(k as int + 1));
            assert(cs@.skip(k as int)[0] == cs@[k as int]);
        }
        acc = acc + cs[k].amount as u128;
        k = k + 1;
    }
    proof {
        assert(coin_sum(cs@.skip(n as int)) == 0);
    }
    acc
}

/// Validates the funding of a transaction against the fee schedule: the
/// size limits must hold and the inputs must carry exactly the outputs plus
/// the fees.
pub fn validate_funding(tx: &Transaction, fees: &FeeConsensus) -> (r: Result<
    (),
    TransactionError,
>)
    ensures
        r is Ok <==> tx_within_limits(tx@) && tx_balanced(tx@, *fees),
        r == Result::<(), TransactionError>::Err(TransactionError::OversizedTransaction) <==> !tx_within_limits(tx@),
        r == Result::<(), TransactionError>::Err(TransactionError::UnbalancedTransaction) <==> tx_within_limits(tx@)
            && !tx_balanced(tx@, *fees),
{
    if !check_within_limits(tx) {
        return Err(TransactionError::OversizedTransaction);
    }
    let n_in = tx.inputs.len();
    let mut in_amt: u128 = 0;
    let mut in_fee: u128 = 0;
    let mut k: usize = 0;
    proof {
        assert(tx@.inputs.skip(0) =~= tx@.inputs);
    }
    while k < n_in
        invariant
            k <= n_in,
            n_in == tx.inputs@.len(),
            tx@.inputs.len() == n_in,
            tx_within_limits(tx@),
            forall|j: int| 0 <= j < n_in ==> tx@.inputs[j] == #[trigger] tx.inputs@[j]@,
            in_amt <= k as u128 * 0x4000_0000_0000_0000u128,
            in_fee <= k as u128 * 0x1_0000_0000_0000_0000u128,
            input_amounts(tx@.inputs) == in_amt + input_amounts(tx@.inputs.skip(k as int)),
            input_fees(tx@.inputs, *fees) == in_fee + input_fees(tx@.inputs.skip(k as int), *fees),
        decreases n_in - k,
    {
        proof {
            assert(tx@.inputs.skip(k as int).drop_first() =~= tx@.inputs.skip(k as int + 1));
            assert(tx@.inputs.skip(k as int)[0] == tx@.inputs[k as int]);
            assert(input_within_limits(tx@.inputs[k as int]));
        }
        match &tx.inputs[k] {
            Input::Coins(cs) => {
                let s = coin_sum_total(cs);
                in_amt = in_amt + s;
                in_fee = in_fee + fees.coin_spend_fee as u128;
            }
            Input::PegIn(p) => {
                in_amt = in_amt + p.amount as u128;
                in_fee = in_fee + fees.peg_in_fee as u128;
            }
        }
        k = k + 1;
    }
    proof {
        assert(input_amounts(tx@.inputs.skip(n_in as int)) == 0);
        assert(input_fees(tx@.inputs.skip(n_in as int), *fees) == 0);
    }
    let n_out = tx.outputs.len();
    let mut out_amt: u128 = 0;
    let mut out_fee: u128 = 0;
    let mut k2: usize = 0;
    proof {
        assert(tx@.outputs.skip(0) =~= tx@.outputs);
    }
    while k2 < n_out
        invariant
            k2 <= n_out,
            n_out == tx.outputs@.len(),
            tx@.outputs.len() == n_out,
            tx_within_limits(tx@),
            forall|j: int| 0 <= j < n_out ==> tx@.outputs[j] == #[trigger] tx.outputs@[j]@,
            out_amt <= k2 as u128 * 0x10_0000_0000_0000u128,
            out_fee <= k2 as u128 * 0x1_0000_0000_0000_0000u128,
            output_amounts(tx@.outputs) == out_amt + output_amounts(tx@.outputs.skip(k2 as int)),
            output_fees(tx@.outputs, *fees) == out_fee + output_fees(
                tx@.outputs.skip(k2 as int),
                *fees,
            ),
        decreases n_out - k2,
    {
        proof {
            assert(tx@.outputs.skip(k2 as int).drop_first() =~= tx@.outputs.skip(k2 as int + 1));
            assert(tx@.outputs.skip(k2 as int)[0] == tx@.outputs[k2 as int]);
            assert(output_within_limits(tx@.outputs[k2 as int]));
        }
        match &tx.outputs[k2] {
            Output::Coins(iss) => {
                out_amt = out_amt + iss.amount as u128;
                out_fee = out_fee + fees.coin_issuance_fee as u128;
            }
            Output::PegOut(p) => {
                out_amt = out_amt + p.amount as u128;
                out_fee = out_fee + fees.peg_out_fee as u128;
            }
        }
        k2 = k2 + 1;
    }
    proof {
        assert(output_amounts(tx@.outputs.skip(n_out as int)) == 0);
        assert(output_fees(tx@.outputs.skip(n_out as int), *fees) == 0);
    }
    if in_amt == out_amt + in_fee + out_fee {
        Ok(())
    } else {
        Err(TransactionError::UnbalancedTransaction)
    }
}

// ---------------------------------------------------------------------------
// Signature validation
// ---------------------------------------------------------------------------

/// The transaction's signature binds its fingerprint under the federation
/// key: the pairing of the fingerprint message with the key equals the
/// pairing of the signature with the G2 generator.
pub open spec fn tx_sig_valid(t: TransactionV, key: G2Affine) -> bool {
    pairing_of(g1_of_seed(txid_of(t)), key) == pairing_of(
        t.signature,
        g2_base_scaled(scalar_of_u64(1)),
    )
}

/// Verifies the transaction-binding signature under the federation's
/// aggregate key.
pub fn validate_signature(tx: &Transaction, key: &AggregatePublicKey) -> (r: Result<
    (),
    TransactionError,
>)
    ensures
        r is Ok <==> tx_sig_valid(tx@, key.0),
        r is Err <==> !tx_sig_valid(tx@, key.0),
        r matches Err(e) ==> e == TransactionError::InvalidSignature,
{
    let id = transaction_id(tx);
    let msg = Message::from_hash(&id);
    if verify(msg, tx.signature, *key) {
        Ok(())
    } else {
        Err(TransactionError::InvalidSignature)
    }
}

// ---------------------------------------------------------------------------
// Input resources
// ---------------------------------------------------------------------------

pub open spec fn input_nonces(i: InputV) -> Seq<u64> {
    match i {
        InputV::Coins(cs) => cs.map_values(|c: Coin| c.nonce),
        InputV::PegIn(p) => Seq::empty(),
    }
}

pub open spec fn input_utxos(i: InputV) -> Seq<UtxoRef> {
    match i {
        InputV::Coins(cs) => Seq::empty(),
        InputV::PegIn(p) => seq![p.utxo],
    }
}

pub open spec fn nonces_of_inputs(s: Seq<InputV>) -> Seq<u64>
    decreases s.len(),
{
    if s.len() == 0 {
        Seq::empty()
    } else {
        input_nonces(s[0]) + nonces_of_inputs(s.drop_first())
    }
}

pub open spec fn utxos_of_inputs(s: Seq<InputV>) -> Seq<UtxoRef>
    decreases s.len(),
{
    if s.len() == 0 {
        Seq::empty()
    } else {
        input_utxos(s[0]) + utxos_of_inputs(s.drop_first())
    }
}

/// All coin-note nonces a transaction spends, in input order.
pub open spec fn flat_nonces(t: TransactionV) -> Seq<u64> {
    nonces_of_inputs(t.inputs)
}

/// All peg-in outputs a transaction claims, in input order.
pub open spec fn flat_utxos(t: TransactionV) -> Seq<UtxoRef> {
    utxos_of_inputs(t.inputs)
}

/// No element occurs twice.
pub open spec fn distinct_seq<T>(s: Seq<T>) -> bool {
    forall|i: int, j: int| 0 <= i < j < s.len() ==> s[i] != s[j]
}

/// Two transactions conflict when they spend a common coin note or claim a
/// common peg-in output.
pub open spec fn conflicts(a: TransactionV, b: TransactionV) -> bool {
    (exists|n: u64| flat_nonces(a).contains(n) && flat_nonces(b).contains(n)) || (exists|
        u: UtxoRef,
    | flat_utxos(a).contains(u) && flat_utxos(b).contains(u))
}

/// Collects every coin-note nonce the transaction spends, in input order.
pub fn collect_nonces(tx: &Transaction) -> (r: Vec<u64>)
    ensures
        r@ == flat_nonces(tx@),
{
    let mut out: Vec<u64> = Vec::new();
    let n = tx.inputs.len();
    let mut k: usize = 0;
    proof {
        assert(tx@.inputs.skip(0) =~= tx@.inputs);
    }
    while k < n
        invariant
            k <= n,
            n == tx.inputs@.len(),
            tx@.inputs.len() == n,
            forall|j: int| 0 <= j < n ==> tx@.inputs[j] == #[trigger] tx.inputs@[j]@,
            out@ + nonces_of_inputs(tx@.inputs.skip(k as int)) == flat_nonces(tx@),
        decreases n - k,
    {
        proof {
            assert(tx@.inputs.skip(k as int).drop_first() =~= tx@.inputs.skip(k as int + 1));
            assert(tx@.inputs.skip(k as int)[0] == tx@.inputs[k as int]);
        }
        match &tx.inputs[k] {
            Input::Coins(cs) => {
                let m = cs.len();
                let ghost mid = out@;
                let mut j: usize = 0;
                while j < m
                    invariant
                        j <= m,
                        m == cs@.len(),
                        out@ =~= mid + cs@.map_values(|c: Coin| c.nonce).take(j as int),
                    decreases m - j,
                {
                    out.push(cs[j].nonce);
                    j = j + 1;
                }
                proof {
                    assert(out@ =~= mid + input_nonces(InputV::Coins(cs@)));
                    assert(out@ + nonces_of_inputs(tx@.inputs.skip(k as int + 1)) =~= flat_nonces(
                        tx@,
                    ));
                }
            }
            Input::PegIn(p) => {
                proof {
                    assert(input_nonces(tx@.inputs[k as int]) =~= Seq::<u64>::empty());
                    assert(out@ + nonces_of_inputs(tx@.inputs.skip(k as int + 1)) =~= flat_nonces(
                        tx@,
                    ));
                }
            }
        }
        k = k + 1;
    }
    proof {
        assert(nonces_of_inputs(tx@.inputs.skip(n as int)) =~= Seq::<u64>::empty());
        assert(out@ =~= flat_nonces(tx@));
    }
    out
}

/// Collects every peg-in output the transaction claims, in input order.
pub fn collect_utxos(tx: &Transaction) -> (r: Vec<UtxoRef>)
    ensures
        r@ == flat_utxos(tx@),
{
    let mut out: Vec<UtxoRef> = Vec::new();
    let n = tx.inputs.len();
    let mut k: usize = 0;
    proof {
        assert(tx@.inputs.skip(0) =~= tx@.inputs);
    }
    while k < n
        invariant
            k <= n,
            n == tx.inputs@.len(),
            tx@.inputs.len() == n,
            forall|j: int| 0 <= j < n ==> tx@.inputs[j] == #[trigger] tx.inputs@[j]@,
            out@ + utxos_of_inputs(tx@.inputs.skip(k as int)) == flat_utxos(tx@),
        decreases n - k,
    {
        proof {
            assert(tx@.inputs.skip(k as int).drop_first() =~= tx@.inputs.skip(k as int + 1));
            assert(tx@.inputs.skip(k as int)[0] == tx@.inputs[k as int]);
        }
        match &tx.inputs[k] {
            Input::Coins(cs) => {
                proof {
                    assert(input_utxos(tx@.inputs[k as int]) =~= Seq::<UtxoRef>::empty());
                    assert(out@ + utxos_of_inputs(tx@.inputs.skip(k as int + 1)) =~= flat_utxos(
                        tx@,
                    ));
                }
            }
            Input::PegIn(p) => {
                out.push(*p_utxo_ref(p));
                proof {
                    assert(out@ + utxos_of_inputs(tx@.inputs.skip(k as int + 1)) =~= flat_utxos(
                        tx@,
                    ));
                }
            }
        }
        k = k + 1;
    }
    proof {
        assert(utxos_of_inputs(tx@.inputs.skip(n as int)) =~= Seq::<UtxoRef>::empty());
        assert(out@ =~= flat_utxos(tx@));
    }
    out
}

fn p_utxo_ref(p: &PegInProof) -> (r: &UtxoRef)
    ensures
        *r == p.utxo,
{
    &p.utxo
}

// ---------------------------------------------------------------------------
// Deep copies with their views pinned
// ---------------------------------------------------------------------------

fn clone_coins(cs: &Vec<Coin>) -> (r: Vec<Coin>)
    ensures
        r@ == cs@,
{
    let mut out: Vec<Coin> = Vec::new();
    let n = cs.len();
    let mut i: usize = 0;
    while i < n
        invariant
            i <= n,
            n == cs@.len(),
            out@ =~= cs@.take(i as int),
        decreases n - i,
    {
        out.push(cs[i]);
        i = i + 1;
    }
    proof {
        assert(out@ =~= cs@);
    }
    out
}

impl Clone for PegOutRequest {
    /// A deep copy with the same content.
    fn clone(&self) -> (r: Self)
        ensures
            r.address@ == self.address@,
            r.amount == self.amount,
    {
        PegOutRequest { address: clone_bytes(&self.address), amount: self.amount }
    }
}

impl Clone for Input {
    /// A deep copy with the same view.
    fn clone(&self) -> (r: Self)
        ensures
            r@ == self@,
    {
        match self {
            Input::Coins(cs) => Input::Coins(clone_coins(cs)),
            Input::PegIn(p) => Input::PegIn(*p),
        }
    }
}

impl Clone for Output {
    /// A deep copy with the same view.
    fn clone(&self) -> (r: Self)
        ensures
            r@ == self@,
    {
        match self {
            Output::Coins(i) => Output::Coins(*i),
            Output::PegOut(p) => Output::PegOut(p.clone()),
        }
    }
}

impl Clone for Transaction {
    /// A deep copy with the same view.
    fn clone(&self) -> (r: Self)
        ensures
            r@ == self@,
    {
        let mut inputs: Vec<Input> = Vec::new();
        let n_in = self.inputs.len();
        let mut i: usize = 0;
        while i < n_in
            invariant
                i <= n_in,
                n_in == self.inputs@.len(),
                inputs@.len() == i,
                forall|j: int| 0 <= j < i ==> (#[trigger] inputs@[j])@ == self.inputs@[j]@,
            decreases n_in - i,
        {
            inputs.push(self.inputs[i].clone());
            i = i + 1;
        }
        let mut outputs: Vec<Output> = Vec::new();
        let n_out = self.outputs.len();
        let mut k: usize = 0;
        while k < n_out
            invariant
                k <= n_out,
                n_out == self.outputs@.len(),
                outputs@.len() == k,
                forall|j: int| 0 <= j < k ==> (#[trigger] outputs@[j])@ == self.outputs@[j]@,
            decreases n_out - k,
        {
            outputs.push(self.outputs[k].clone());
            k = k + 1;
        }
        let r = Transaction { inputs, outputs, signature: self.signature };
        proof {
            assert(r@.inputs =~= self@.inputs);
            assert(r@.outputs =~= self@.outputs);
        }
        r
    }
}

} // verus!
