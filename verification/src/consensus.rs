//! The consensus replica: accepts client transactions into the proposed
//! pool, surfaces a per-epoch proposal, and deterministically applies the
//! agreed outcome of each epoch to the mint and wallet modules.

use vstd::prelude::*;

use bls12_381::G2Affine;

use crate::FeeConsensus;
use crate::bytes::clone_bytes;
use crate::db::{
    accepted_entry_ok, outcome_matches, pair_key_index, lemma_wf_frame, lemma_remove_key_keys, db_wf, distinct_keys, has_key, has_pair_key, key_index, lookup,
    pair_lookup, remove_key, upsert, AcceptedTransaction,
    AcceptedTransactionV, Database, DatabaseV, OutputOutcome, OutputOutcomeV,
};
use crate::filter::{filter_conflicts, filter_spec, pairs_view};
use crate::mint::{mint_input_error, mint_input_valid, mint_output_valid, Mint, MintError};
use crate::tbs::AggregatePublicKey;
use crate::transaction::{
    collect_nonces, collect_utxos, conflicts, distinct_seq, flat_nonces, flat_utxos, input_nonces,
    input_utxos, nonces_of_inputs, utxos_of_inputs, transaction_id,
    tx_balanced, tx_sig_valid, tx_within_limits, txid_of, validate_funding, validate_signature,
    Coin, Input, InputV, Output, OutputV, Transaction, TransactionError, TransactionV, UtxoRef,
};
use crate::wallet::{
    wallet_input_error, wallet_input_valid, wallet_output_valid, Wallet, WalletError,
};

verus! {

/// The replica's configuration: the consensus fee schedule and the
/// federation key under which transaction signatures verify.
pub struct ServerConfig {
    pub fee_consensus: FeeConsensus,
    pub auth_key: AggregatePublicKey,
}

/// One item of a peer's per-epoch contribution.
#[derive(Debug)]
pub enum ConsensusItem {
    Transaction(Transaction),
    Mint(u64),
    Wallet(u64),
}

pub enum ConsensusItemV {
    Transaction(TransactionV),
    Mint(u64),
    Wallet(u64),
}

impl View for ConsensusItem {
    type V = ConsensusItemV;

    open spec fn view(&self) -> ConsensusItemV {
        match self {
            ConsensusItem::Transaction(t) => ConsensusItemV::Transaction(t@),
            ConsensusItem::Mint(m) => ConsensusItemV::Mint(*m),
            ConsensusItem::Wallet(w) => ConsensusItemV::Wallet(*w),
        }
    }
}

/// The agreed output of one epoch: each peer's ordered contribution.
#[derive(Debug)]
pub struct ConsensusOutcome {
    pub epoch: u64,
    pub contributions: Vec<(u64, Vec<ConsensusItem>)>,
}

pub open spec fn contributions_view(
    c: Seq<(u64, Vec<ConsensusItem>)>,
) -> Seq<(u64, Seq<ConsensusItemV>)> {
    c.map_values(|p: (u64, Vec<ConsensusItem>)| (p.0, p.1@.map_values(|i: ConsensusItem| i@)))
}

/// Failures of transaction submission and application.
#[derive(Clone, Copy, Debug, PartialEq, Eq, Structural)]
pub enum TransactionSubmissionError {
    TransactionError(TransactionError),
    InputCoinError(MintError),
    InputPegIn(WalletError),
    OutputCoinError(MintError),
    OutputPegOut(WalletError),
}

/// The externally visible state of a transaction.
#[derive(Debug, PartialEq, Eq)]
pub enum TransactionStatus {
    /// In the proposed pool, not yet decided.
    AwaitingConsensus,
    /// Accepted in the given epoch, with one outcome per output, in output
    /// order.
    Accepted { epoch: u64, outputs: Vec<OutputOutcome> },
}

// ---------------------------------------------------------------------------
// The validation chain
// ---------------------------------------------------------------------------

/// The first invalid input, dispatched to its owning module, in input
/// order.
pub open spec fn first_input_error(dv: DatabaseV, s: Seq<InputV>) -> Option<
    TransactionSubmissionError,
>
    decreases s.len(),
{
    if s.len() == 0 {
        None
    } else {
        match s[0] {
            InputV::Coins(cs) => if !mint_input_valid(dv, cs) {
                Some(TransactionSubmissionError::InputCoinError(mint_input_error(dv, cs)))
            } else {
                first_input_error(dv, s.drop_first())
            },
            InputV::PegIn(p) => if !wallet_input_valid(dv, p) {
                Some(TransactionSubmissionError::InputPegIn(wallet_input_error(dv, p)))
            } else {
                first_input_error(dv, s.drop_first())
            },
        }
    }
}

/// The first invalid output, dispatched to its owning module, in output
/// order.
pub open spec fn first_output_error(s: Seq<OutputV>) -> Option<TransactionSubmissionError>
    decreases s.len(),
{
    if s.len() == 0 {
        None
    } else {
        match s[0] {
            OutputV::Coins { blinded, amount } => if !mint_output_valid(amount) {
                Some(TransactionSubmissionError::OutputCoinError(MintError::InvalidIssuance))
            } else {
                first_output_error(s.drop_first())
            },
            OutputV::PegOut { address, amount } => if !wallet_output_valid(address, amount) {
                Some(TransactionSubmissionError::OutputPegOut(WalletError::InvalidPegOut))
            } else {
                first_output_error(s.drop_first())
            },
        }
    }
}

/// The whole validation chain of one transaction against one state, in
/// decision order: funding, signature, inputs in order, distinctness of
/// the input resources across inputs, outputs in order.
pub open spec fn tx_check(dv: DatabaseV, t: TransactionV, fees: FeeConsensus, key: G2Affine) -> Result<
    (),
    TransactionSubmissionError,
> {
    if !tx_within_limits(t) {
        Err(
            TransactionSubmissionError::TransactionError(TransactionError::OversizedTransaction),
        )
    } else if !tx_balanced(t, fees) {
        Err(
            TransactionSubmissionError::TransactionError(
                TransactionError::UnbalancedTransaction,
            ),
        )
    } else if !tx_sig_valid(t, key) {
        Err(TransactionSubmissionError::TransactionError(TransactionError::InvalidSignature))
    } else if first_input_error(dv, t.inputs) is Some {
        Err(first_input_error(dv, t.inputs).unwrap())
    } else if !distinct_seq(flat_nonces(t)) {
        Err(TransactionSubmissionError::InputCoinError(MintError::DuplicateCoin))
    } else if !distinct_seq(flat_utxos(t)) {
        Err(TransactionSubmissionError::InputPegIn(WalletError::AlreadyClaimed))
    } else if first_output_error(t.outputs) is Some {
        Err(first_output_error(t.outputs).unwrap())
    } else {
        Ok(())
    }
}

/// Whether the transaction passes the whole chain against this state.
pub open spec fn tx_applies(dv: DatabaseV, t: TransactionV, fees: FeeConsensus, key: G2Affine) -> bool {
    tx_check(dv, t, fees, key) is Ok
}

/// The federated mint's consensus replica.
pub struct FediMintConsensus {
    /// Configuration describing the federation.
    pub cfg: ServerConfig,
    /// The coin mint module.
    pub mint: Mint,
    /// The on-chain wallet module.
    pub wallet: Wallet,
    /// The store into which all state is persisted.
    pub db: Database,
}

impl FediMintConsensus {
    /// The replica's state invariant: the store is well-formed.
    pub open spec fn wf(&self) -> bool {
        db_wf(self.db@)
    }

    pub open spec fn spec_fees(&self) -> FeeConsensus {
        self.cfg.fee_consensus
    }

    pub open spec fn spec_key(&self) -> G2Affine {
        self.cfg.auth_key.0
    }

    /// A fresh replica over an empty store.
    pub fn new(cfg: ServerConfig) -> (r: FediMintConsensus)
        ensures
            r.wf(),
            r.cfg == cfg,
            r.db@.proposed.len() == 0,
            r.db@.accepted.len() == 0,
            r.db@.spent.len() == 0,
            r.db@.claimed.len() == 0,
            r.db@.outcomes.len() == 0,
    {
        FediMintConsensus { cfg, mint: Mint {}, wallet: Wallet {}, db: Database::new() }
    }

    /// Runs the validation chain of one transaction against the current
    /// state, dispatching each input and output to its owning module.
    fn check_transaction(&self, tx: &Transaction) -> (r: Result<(), TransactionSubmissionError>)
        ensures
            r == tx_check(self.db@, tx@, self.spec_fees(), self.spec_key()),
    {
        match validate_funding(tx, &self.cfg.fee_consensus) {
            Ok(()) => {}
            Err(e) => {
                return Err(TransactionSubmissionError::TransactionError(e));
            }
        }
        match validate_signature(tx, &self.cfg.auth_key) {
            Ok(()) => {}
            Err(e) => {
                return Err(TransactionSubmissionError::TransactionError(e));
            }
        }
        let n_in = tx.inputs.len();
        let mut k: usize = 0;
        proof {
            assert(tx@.inputs.skip(0) =~= tx@.inputs);
        }
        while k < n_in
            invariant
                k <= n_in,
                n_in == tx.inputs@.len(),
                tx@.inputs.len() == n_in,
                forall|j: int| 0 <= j < n_in ==> tx@.inputs[j] == #[trigger] tx.inputs@[j]@,
                tx_within_limits(tx@),
                tx_balanced(tx@, self.spec_fees()),
                tx_sig_valid(tx@, self.spec_key()),
                first_input_error(self.db@, tx@.inputs) == first_input_error(
                    self.db@,
                    tx@.inputs.skip(k as int),
                ),
            decreases n_in - k,
        {
            proof {
                assert(tx@.inputs.skip(k as int).drop_first() =~= tx@.inputs.skip(k as int + 1));
                assert(tx@.inputs.skip(k as int)[0] == tx@.inputs[k as int]);
            }
            match &tx.inputs[k] {
                Input::Coins(cs) => {
                    match self.mint.validate_input(&self.db, cs) {
                        Ok(()) => {}
                        Err(e) => {
                            return Err(TransactionSubmissionError::InputCoinError(e));
                        }
                    }
                }
                Input::PegIn(p) => {
                    match self.wallet.validate_input(&self.db, p) {
                        Ok(()) => {}
                        Err(e) => {
                            return Err(TransactionSubmissionError::InputPegIn(e));
                        }
                    }
                }
            }
            k = k + 1;
        }
        proof {
            assert(first_input_error(self.db@, tx@.inputs.skip(n_in as int)) is None);
        }
        let nonces = collect_nonces(tx);
        let ln = nonces.len();
        let mut a: usize = 0;
        while a < ln
            invariant
                a <= ln,
                ln == nonces@.len(),
                nonces@ == flat_nonces(tx@),
                tx_within_limits(tx@),
                tx_balanced(tx@, self.spec_fees()),
                tx_sig_valid(tx@, self.spec_key()),
                first_input_error(self.db@, tx@.inputs) is None,
                forall|x: int, y: int| 0 <= x < y < a ==> nonces@[x] != nonces@[y],
            decreases ln - a,
        {
            let mut b: usize = 0;
            while b < a
                invariant
                    b <= a < ln,
                    ln == nonces@.len(),
                    nonces@ == flat_nonces(tx@),
                    tx_within_limits(tx@),
                    tx_balanced(tx@, self.spec_fees()),
                    tx_sig_valid(tx@, self.spec_key()),
                    first_input_error(self.db@, tx@.inputs) is None,
                    forall|y: int| 0 <= y < b ==> nonces@[y] != nonces@[a as int],
                decreases a - b,
            {
                if nonces[b] == nonces[a] {
                    return Err(TransactionSubmissionError::InputCoinError(
                        MintError::DuplicateCoin,
                    ));
                }
                b = b + 1;
            }
            a = a + 1;
        }
        let utxos = collect_utxos(tx);
        let lu = utxos.len();
        let mut c: usize = 0;
        while c < lu
            invariant
                c <= lu,
                lu == utxos@.len(),
                utxos@ == flat_utxos(tx@),
                tx_within_limits(tx@),
                tx_balanced(tx@, self.spec_fees()),
                tx_sig_valid(tx@, self.spec_key()),
                first_input_error(self.db@, tx@.inputs) is None,
                distinct_seq(flat_nonces(tx@)),
                forall|x: int, y: int| 0 <= x < y < c ==> utxos@[x] != utxos@[y],
            decreases lu - c,
        {
            let mut d: usize = 0;
            while d < c
                invariant
                    d <= c < lu,
                    lu == utxos@.len(),
                    utxos@ == flat_utxos(tx@),
                    tx_within_limits(tx@),
                    tx_balanced(tx@, self.spec_fees()),
                    tx_sig_valid(tx@, self.spec_key()),
                    first_input_error(self.db@, tx@.inputs) is None,
                    distinct_seq(flat_nonces(tx@)),
                    forall|y: int| 0 <= y < d ==> utxos@[y] != utxos@[c as int],
                decreases c - d,
            {
                if utxos[d].txid == utxos[c].txid && utxos[d].vout == utxos[c].vout {
                    proof {
                        assert(utxos@[d as int] == utxos@[c as int]);
                    }
                    return Err(TransactionSubmissionError::InputPegIn(
                        WalletError::AlreadyClaimed,
                    ));
                }
                d = d + 1;
            }
            c = c + 1;
        }
        let n_out = tx.outputs.len();
        let mut o: usize = 0;
        proof {
            assert(tx@.outputs.skip(0) =~= tx@.outputs);
        }
        while o < n_out
            invariant
                o <= n_out,
                n_out == tx.outputs@.len(),
                tx@.outputs.len() == n_out,
                forall|j: int| 0 <= j < n_out ==> tx@.outputs[j] == #[trigger] tx.outputs@[j]@,
                tx_within_limits(tx@),
                tx_balanced(tx@, self.spec_fees()),
                tx_sig_valid(tx@, self.spec_key()),
                first_input_error(self.db@, tx@.inputs) is None,
                distinct_seq(flat_nonces(tx@)),
                distinct_seq(flat_utxos(tx@)),
                first_output_error(tx@.outputs) == first_output_error(
                    tx@.outputs.skip(o as int),
                ),
            decreases n_out - o,
        {
            proof {
                assert(tx@.outputs.skip(o as int).drop_first() =~= tx@.outputs.skip(o as int + 1));
                assert(tx@.outputs.skip(o as int)[0] == tx@.outputs[o as int]);
            }
            match &tx.outputs[o] {
                Output::Coins(iss) => {
                    match self.mint.validate_output(iss) {
                        Ok(()) => {}
                        Err(e) => {
                            return Err(TransactionSubmissionError::OutputCoinError(e));
                        }
                    }
                }
                Output::PegOut(p) => {
                    match self.wallet.validate_output(p) {
                        Ok(()) => {}
                        Err(e) => {
                            return Err(TransactionSubmissionError::OutputPegOut(e));
                        }
                    }
                }
            }
            o = o + 1;
        }
        proof {
            assert(first_output_error(tx@.outputs.skip(n_out as int)) is None);
        }
        Ok(())
    }

    /// Processes one transaction of an agreed epoch: re-runs the whole
    /// validation chain and, on success, applies every input and output
    /// atomically.  On failure the state is unchanged.
    fn process_transaction(&mut self, tx: Transaction, id: Vec<u8>, epoch: u64) -> (r: Result<
        (),
        TransactionSubmissionError,
    >)
        requires
            old(self).wf(),
            id@ == txid_of(tx@),
            !has_key(old(self).db@.accepted, txid_of(tx@)),
        ensures
            final(self).wf(),
            final(self).cfg == old(self).cfg,
            r == tx_check(old(self).db@, tx@, old(self).spec_fees(), old(self).spec_key()),
            r is Ok ==> final(self).db@ == apply_tx(old(self).db@, epoch, tx@),
            r is Err ==> final(self).db@ == old(self).db@,
    {
        match self.check_transaction(&tx) {
            Ok(()) => {
                self.apply_accepted_transaction(tx, id, epoch);
                Ok(())
            }
            Err(e) => Err(e),
        }
    }

    /// Submits a client transaction: runs the whole validation chain
    /// against the current state and, on success, inserts the transaction
    /// into the proposed pool (idempotently: a second submission of the
    /// same transaction replaces the entry).  On failure the state is
    /// unchanged and the error names the first failing check.
    pub fn submit_transaction(&mut self, transaction: Transaction) -> (r: Result<
        (),
        TransactionSubmissionError,
    >)
        requires
            old(self).wf(),
        ensures
            final(self).wf(),
            final(self).cfg == old(self).cfg,
            r == tx_check(
                old(self).db@,
                transaction@,
                old(self).spec_fees(),
                old(self).spec_key(),
            ),
            r is Ok ==> final(self).db@ == (DatabaseV {
                proposed: upsert(
                    old(self).db@.proposed,
                    txid_of(transaction@),
                    transaction@,
                ),
                ..old(self).db@
            }),
            r is Err ==> final(self).db@ == old(self).db@,
    {
        match self.check_transaction(&transaction) {
            Ok(()) => {}
            Err(e) => {
                return Err(e);
            }
        }
        let id = transaction_id(&transaction);
        let ghost oldp = self.db@.proposed;
        self.db.upsert_proposed(id, transaction);
        proof {
            let newp = self.db@.proposed;
            assert(self.db@.accepted == old(self).db@.accepted);
            assert(self.db@.spent == old(self).db@.spent);
            assert(self.db@.claimed == old(self).db@.claimed);
            assert(self.db@.outcomes == old(self).db@.outcomes);
            assert forall|i: int, j: int| 0 <= i < j < newp.len() implies (
                #[trigger] newp[i]).0 != (#[trigger] newp[j]).0 by {
                if has_key(oldp, txid_of(transaction@)) {
                    let ki = key_index(oldp, txid_of(transaction@));
                    assert(oldp[ki].0 == txid_of(transaction@));
                    assert(newp =~= oldp.update(ki, (txid_of(transaction@), transaction@)));
                } else {
                    assert(newp =~= oldp.push((txid_of(transaction@), transaction@)));
                }
            }
            assert forall|i: int|
                0 <= i < self.db@.accepted.len() implies accepted_entry_ok(
                self.db@,
                (#[trigger] self.db@.accepted[i]).0,
                self.db@.accepted[i].1,
            ) by {
                let ok = old(self).db@.accepted[i].0;
                let oa = old(self).db@.accepted[i].1;
                assert(accepted_entry_ok(old(self).db@, ok, oa));
                assert(self.db@.accepted[i] == old(self).db@.accepted[i]);
                let k = self.db@.accepted[i].0;
                let a = self.db@.accepted[i].1;
                assert forall|n: u64| flat_nonces(a.transaction).contains(n) implies
                    self.db@.spent.contains(n) by {
                    assert(flat_nonces(oa.transaction).contains(n));
                }
                assert forall|u: UtxoRef| flat_utxos(a.transaction).contains(u) implies
                    self.db@.claimed.contains(u) by {
                    assert(flat_utxos(oa.transaction).contains(u));
                }
                assert forall|oi: int|
                    0 <= oi < a.transaction.outputs.len() implies has_pair_key(
                    self.db@.outcomes,
                    (k, oi as u64),
                ) && outcome_matches(
                    #[trigger] a.transaction.outputs[oi],
                    pair_lookup(self.db@.outcomes, (k, oi as u64)),
                ) by {
                    let t = oa.transaction.outputs[oi];
                    assert(has_pair_key(old(self).db@.outcomes, (ok, oi as u64)));
                    assert(outcome_matches(
                        t,
                        pair_lookup(old(self).db@.outcomes, (ok, oi as u64)),
                    ));
                }
            }
        }
        Ok(())
    }

    /// The per-epoch proposal: every proposed transaction in scan order,
    /// then the wallet's items, then the mint's.
    pub fn get_consensus_proposal(&self) -> (r: Vec<ConsensusItem>)
        ensures
            r@.len() == self.db@.proposed.len(),
            forall|i: int|
                0 <= i < r@.len() ==> (#[trigger] r@[i])@ == ConsensusItemV::Transaction(
                    self.db@.proposed[i].1,
                ),
    {
        let mut out: Vec<ConsensusItem> = Vec::new();
        let n = self.db.proposed.len();
        let mut i: usize = 0;
        while i < n
            invariant
                i <= n,
                n == self.db.proposed@.len(),
                self.db@.proposed.len() == n,
                forall|j: int|
                    0 <= j < n ==> #[trigger] self.db@.proposed[j] == (
                        self.db.proposed@[j].0@,
                        self.db.proposed@[j].1@,
                    ),
                out@.len() == i,
                forall|j: int|
                    0 <= j < i ==> (#[trigger] out@[j])@ == ConsensusItemV::Transaction(
                        self.db@.proposed[j].1,
                    ),
            decreases n - i,
        {
            let tx = self.db.proposed[i].1.clone();
            out.push(ConsensusItem::Transaction(tx));
            i = i + 1;
        }
        let wallet_items = self.wallet.consensus_proposal(&self.db);
        let mut w: usize = 0;
        while w < wallet_items.len()
            invariant
                wallet_items@.len() == 0,
                out@.len() == self.db@.proposed.len(),
                forall|j: int|
                    0 <= j < out@.len() ==> (#[trigger] out@[j])@ == ConsensusItemV::Transaction(
                        self.db@.proposed[j].1,
                    ),
            decreases wallet_items@.len() - w,
        {
            out.push(ConsensusItem::Wallet(wallet_items[w]));
            w = w + 1;
        }
        let mint_items = self.mint.consensus_proposal(&self.db);
        let mut m: usize = 0;
        while m < mint_items.len()
            invariant
                mint_items@.len() == 0,
                out@.len() == self.db@.proposed.len(),
                forall|j: int|
                    0 <= j < out@.len() ==> (#[trigger] out@[j])@ == ConsensusItemV::Transaction(
                        self.db@.proposed[j].1,
                    ),
            decreases mint_items@.len() - m,
        {
            out.push(ConsensusItem::Mint(mint_items[m]));
            m = m + 1;
        }
        out
    }

    /// The status of a transaction by its fingerprint: `Accepted` with one
    /// outcome per output if consensus accepted it, `AwaitingConsensus`
    /// while it sits in the proposed pool, absent otherwise.  Every output
    /// of an accepted transaction has a recorded outcome, so the lookup
    /// cannot fail.
    pub fn transaction_status(&self, txid: &Vec<u8>) -> (r: Option<TransactionStatus>)
        requires
            self.wf(),
        ensures
            r is None <==> !has_key(self.db@.accepted, txid@) && !has_key(
                self.db@.proposed,
                txid@,
            ),
            r == Some(TransactionStatus::AwaitingConsensus) <==> !has_key(
                self.db@.accepted,
                txid@,
            ) && has_key(self.db@.proposed, txid@),
            has_key(self.db@.accepted, txid@) ==> (r matches Some(st) && st matches
                TransactionStatus::Accepted { epoch, outputs } && epoch == lookup(
                self.db@.accepted,
                txid@,
            ).epoch && outputs@.len() == lookup(self.db@.accepted, txid@).transaction.outputs.len()
                && forall|i: int|
                0 <= i < outputs@.len() ==> (#[trigger] outputs@[i])@ == pair_lookup(
                    self.db@.outcomes,
                    (txid@, i as u64),
                )),
    {
        let accepted_at = self.db.accepted_index(txid);
        match accepted_at {
            Some(ai) => {
                proof {
                    assert(has_key(self.db@.accepted, txid@));
                    let ki = key_index(self.db@.accepted, txid@);
                    assert(self.db@.accepted[ki].0 == txid@);
                    assert(ki == ai as int);
                }
                let epoch = self.db.accepted[ai].1.epoch;
                let n_out = self.db.accepted[ai].1.transaction.outputs.len();
                let mut outputs: Vec<OutputOutcome> = Vec::new();
                let ghost av = self.db@.accepted[ai as int].1;
                let mut oi: usize = 0;
                while oi < n_out
                    invariant
                        oi <= n_out,
                        self.wf(),
                        ai < self.db.accepted@.len(),
                        av == self.db@.accepted[ai as int].1,
                        self.db@.accepted[ai as int].0 == txid@,
                        n_out == self.db.accepted@[ai as int].1.transaction.outputs@.len(),
                        n_out == av.transaction.outputs.len(),
                        outputs@.len() == oi,
                        forall|j: int|
                            0 <= j < oi ==> (#[trigger] outputs@[j])@ == pair_lookup(
                                self.db@.outcomes,
                                (txid@, j as u64),
                            ),
                    decreases n_out - oi,
                {
                    proof {
                        assert(accepted_entry_ok(
                            self.db@,
                            self.db@.accepted[ai as int].0,
                            self.db@.accepted[ai as int].1,
                        ));
                        let o = av.transaction.outputs[oi as int];
                        assert(has_pair_key(self.db@.outcomes, (txid@, oi as u64)));
                    }
                    let oc = match &self.db.accepted[ai].1.transaction.outputs[oi] {
                        Output::Coins(_) => {
                            match self.mint.output_status(&self.db, txid, oi as u64) {
                                Some(oc) => oc,
                                None => vstd::pervasive::unreached(),
                            }
                        }
                        Output::PegOut(_) => {
                            match self.wallet.output_status(&self.db, txid, oi as u64) {
                                Some(oc) => oc,
                                None => vstd::pervasive::unreached(),
                            }
                        }
                    };
                    outputs.push(oc);
                    oi = oi + 1;
                }
                Some(TransactionStatus::Accepted { epoch, outputs })
            }
            None => {
                match self.db.proposed_index(txid) {
                    Some(_) => Some(TransactionStatus::AwaitingConsensus),
                    None => None,
                }
            }
        }
    }
}

// ---------------------------------------------------------------------------
// The epoch transition
// ---------------------------------------------------------------------------

/// All `(peer, item)` pairs of an outcome, peers in contribution order and
/// each peer's items in their given order.
pub open spec fn flatten_items(c: Seq<(u64, Seq<ConsensusItemV>)>) -> Seq<(u64, ConsensusItemV)>
    decreases c.len(),
{
    if c.len() == 0 {
        Seq::empty()
    } else {
        c[0].1.map_values(|it: ConsensusItemV| (c[0].0, it)) + flatten_items(c.drop_first())
    }
}

/// The transaction items of the flattened outcome, in order.
pub open spec fn txs_of(flat: Seq<(u64, ConsensusItemV)>) -> Seq<(u64, TransactionV)>
    decreases flat.len(),
{
    if flat.len() == 0 {
        Seq::empty()
    } else {
        (match flat[0].1 {
            ConsensusItemV::Transaction(t) => seq![(flat[0].0, t)],
            _ => Seq::empty(),
        }) + txs_of(flat.drop_first())
    }
}

/// The mint items of the flattened outcome, in order.
pub open spec fn mint_items_of(flat: Seq<(u64, ConsensusItemV)>) -> Seq<(u64, u64)>
    decreases flat.len(),
{
    if flat.len() == 0 {
        Seq::empty()
    } else {
        (match flat[0].1 {
            ConsensusItemV::Mint(m) => seq![(flat[0].0, m)],
            _ => Seq::empty(),
        }) + mint_items_of(flat.drop_first())
    }
}

/// The wallet items of the flattened outcome, in order.
pub open spec fn wallet_items_of(flat: Seq<(u64, ConsensusItemV)>) -> Seq<(u64, u64)>
    decreases flat.len(),
{
    if flat.len() == 0 {
        Seq::empty()
    } else {
        (match flat[0].1 {
            ConsensusItemV::Wallet(w) => seq![(flat[0].0, w)],
            _ => Seq::empty(),
        }) + wallet_items_of(flat.drop_first())
    }
}

/// The three partitions distribute over concatenation.
pub proof fn lemma_unzip_concat(a: Seq<(u64, ConsensusItemV)>, b: Seq<(u64, ConsensusItemV)>)
    ensures
        txs_of(a + b) == txs_of(a) + txs_of(b),
        mint_items_of(a + b) == mint_items_of(a) + mint_items_of(b),
        wallet_items_of(a + b) == wallet_items_of(a) + wallet_items_of(b),
    decreases a.len(),
{
    if a.len() == 0 {
        assert(a + b =~= b);
        assert(txs_of(a) + txs_of(b) =~= txs_of(b));
        assert(mint_items_of(a) + mint_items_of(b) =~= mint_items_of(b));
        assert(wallet_items_of(a) + wallet_items_of(b) =~= wallet_items_of(b));
    } else {
        assert((a + b)[0] == a[0]);
        assert((a + b).drop_first() =~= a.drop_first() + b);
        lemma_unzip_concat(a.drop_first(), b);
        assert(txs_of(a + b) =~= txs_of(a) + txs_of(b));
        assert(mint_items_of(a + b) =~= mint_items_of(a) + mint_items_of(b));
        assert(wallet_items_of(a + b) =~= wallet_items_of(a) + wallet_items_of(b));
    }
}

/// The deletion of every epoch transaction from the proposed pool, in
/// order.
pub open spec fn remove_txids(
    p: Seq<(Seq<u8>, TransactionV)>,
    txs: Seq<(u64, TransactionV)>,
) -> Seq<(Seq<u8>, TransactionV)>
    decreases txs.len(),
{
    if txs.len() == 0 {
        p
    } else {
        remove_txids(remove_key(p, txid_of(txs[0].1)), txs.drop_first())
    }
}

/// The recorded outcome of one applied output.
pub open spec fn outcome_of(o: OutputV) -> OutputOutcomeV {
    match o {
        OutputV::Coins { blinded, amount } => OutputOutcomeV::Mint { blinded, amount },
        OutputV::PegOut { address, amount } => OutputOutcomeV::Wallet { address, amount },
    }
}

/// The outcome entries of one accepted transaction, one per output, in
/// output order.
pub open spec fn outcome_entries(k: Seq<u8>, outs: Seq<OutputV>) -> Seq<
    ((Seq<u8>, u64), OutputOutcomeV),
> {
    Seq::new(outs.len(), |i: int| ((k, i as u64), outcome_of(outs[i])))
}

/// The effect of accepting one transaction in an epoch: its input
/// resources are consumed, its outcomes recorded, and the transaction
/// added to the accepted set.
pub open spec fn apply_tx(dv: DatabaseV, epoch: u64, t: TransactionV) -> DatabaseV {
    DatabaseV {
        spent: dv.spent + flat_nonces(t),
        claimed: dv.claimed + flat_utxos(t),
        outcomes: dv.outcomes + outcome_entries(txid_of(t), t.outputs),
        accepted: dv.accepted.push(
            (txid_of(t), AcceptedTransactionV { epoch, transaction: t }),
        ),
        ..dv
    }
}

/// One transaction of the filtered epoch batch: accepted when it is not
/// already accepted and the whole validation chain passes against the
/// current state; otherwise the state is unchanged.
pub open spec fn step_tx(
    dv: DatabaseV,
    fees: FeeConsensus,
    key: G2Affine,
    epoch: u64,
    t: TransactionV,
) -> DatabaseV {
    if !has_key(dv.accepted, txid_of(t)) && tx_applies(dv, t, fees, key) {
        apply_tx(dv, epoch, t)
    } else {
        dv
    }
}

/// The serial application of the filtered transactions, in order.
pub open spec fn apply_txs(
    dv: DatabaseV,
    fees: FeeConsensus,
    key: G2Affine,
    epoch: u64,
    txs: Seq<(u64, TransactionV)>,
) -> DatabaseV
    decreases txs.len(),
{
    if txs.len() == 0 {
        dv
    } else {
        apply_txs(step_tx(dv, fees, key, epoch, txs[0].1), fees, key, epoch, txs.drop_first())
    }
}

/// The whole epoch transition: the module begin-epoch hooks record the
/// peers' items, every transaction of the outcome leaves the proposed
/// pool, and the conflict-filtered transactions are applied in order.  The
/// end-epoch hooks change nothing.  The resulting state is a function of
/// the starting state and the outcome alone.
pub open spec fn epoch_apply(
    dv: DatabaseV,
    fees: FeeConsensus,
    key: G2Affine,
    epoch: u64,
    c: Seq<(u64, Seq<ConsensusItemV>)>,
) -> DatabaseV {
    let flat = flatten_items(c);
    let dv1 = DatabaseV {
        wallet_items: dv.wallet_items + wallet_items_of(flat),
        mint_items: dv.mint_items + mint_items_of(flat),
        ..dv
    };
    let dv2 = DatabaseV { proposed: remove_txids(dv1.proposed, txs_of(flat)), ..dv1 };
    apply_txs(dv2, fees, key, epoch, filter_spec(txs_of(flat)))
}

/// A clean input chain means every input is valid on its own.
pub proof fn lemma_inputs_all_valid(dv: DatabaseV, s: Seq<InputV>)
    requires
        first_input_error(dv, s) is None,
    ensures
        forall|i: int|
            0 <= i < s.len() ==> match #[trigger] s[i] {
                InputV::Coins(cs) => mint_input_valid(dv, cs),
                InputV::PegIn(p) => wallet_input_valid(dv, p),
            },
    decreases s.len(),
{
    if s.len() == 0 {
    } else {
        lemma_inputs_all_valid(dv, s.drop_first());
        assert forall|i: int|
            0 <= i < s.len() implies match #[trigger] s[i] {
            InputV::Coins(cs) => mint_input_valid(dv, cs),
            InputV::PegIn(p) => wallet_input_valid(dv, p),
        } by {
            if i > 0 {
                assert(s[i] == s.drop_first()[i - 1]);
            }
        }
    }
}

/// A nonce of the flattened spend list comes from some coin input.
pub proof fn lemma_nonce_source(s: Seq<InputV>, n: u64)
    requires
        nonces_of_inputs(s).contains(n),
    ensures
        exists|i: int| 0 <= i < s.len() && input_nonces(#[trigger] s[i]).contains(n),
    decreases s.len(),
{
    assert(s.len() > 0);
    let h = input_nonces(s[0]);
    let j = choose|j: int|
        0 <= j < nonces_of_inputs(s).len() && nonces_of_inputs(s)[j] == n;
    if j < h.len() {
        assert(h[j] == n);
        assert(input_nonces(s[0]).contains(n));
    } else {
        assert(nonces_of_inputs(s.drop_first())[j - h.len()] == n);
        assert(nonces_of_inputs(s.drop_first()).contains(n));
        lemma_nonce_source(s.drop_first(), n);
        let i = choose|i: int|
            0 <= i < s.drop_first().len() && input_nonces(
                #[trigger] s.drop_first()[i],
            ).contains(n);
        assert(s[i + 1] == s.drop_first()[i]);
        assert(input_nonces(s[i + 1]).contains(n));
    }
}

/// A claimed output of the flattened claim list comes from some peg-in
/// input.
pub proof fn lemma_utxo_source(s: Seq<InputV>, u: UtxoRef)
    requires
        utxos_of_inputs(s).contains(u),
    ensures
        exists|i: int| 0 <= i < s.len() && input_utxos(#[trigger] s[i]).contains(u),
    decreases s.len(),
{
    assert(s.len() > 0);
    let h = input_utxos(s[0]);
    let j = choose|j: int|
        0 <= j < utxos_of_inputs(s).len() && utxos_of_inputs(s)[j] == u;
    if j < h.len() {
        assert(h[j] == u);
        assert(input_utxos(s[0]).contains(u));
    } else {
        assert(utxos_of_inputs(s.drop_first())[j - h.len()] == u);
        assert(utxos_of_inputs(s.drop_first()).contains(u));
        lemma_utxo_source(s.drop_first(), u);
        let i = choose|i: int|
            0 <= i < s.drop_first().len() && input_utxos(
                #[trigger] s.drop_first()[i],
            ).contains(u);
        assert(s[i + 1] == s.drop_first()[i]);
        assert(input_utxos(s[i + 1]).contains(u));
    }
}

/// A transaction that passes the chain consumes only fresh resources.
pub proof fn lemma_applies_fresh(dv: DatabaseV, t: TransactionV, fees: FeeConsensus, key: G2Affine)
    requires
        tx_applies(dv, t, fees, key),
    ensures
        distinct_seq(flat_nonces(t)),
        distinct_seq(flat_utxos(t)),
        forall|n: u64| flat_nonces(t).contains(n) ==> !dv.spent.contains(n),
        forall|u: UtxoRef| flat_utxos(t).contains(u) ==> !dv.claimed.contains(u),
{
    lemma_inputs_all_valid(dv, t.inputs);
    assert forall|n: u64| flat_nonces(t).contains(n) implies !dv.spent.contains(n) by {
        lemma_nonce_source(t.inputs, n);
        let i = choose|i: int|
            0 <= i < t.inputs.len() && input_nonces(#[trigger] t.inputs[i]).contains(n);
        match t.inputs[i] {
            InputV::Coins(cs) => {
                assert(mint_input_valid(dv, cs));
                let j = choose|j: int|
                    0 <= j < input_nonces(t.inputs[i]).len() && input_nonces(t.inputs[i])[j] == n;
                assert(cs.map_values(|c: Coin| c.nonce)[j] == n);
                assert(cs[j].nonce == n);
                assert(!dv.spent.contains(cs[j].nonce));
            }
            InputV::PegIn(p) => {
                assert(input_nonces(t.inputs[i]).len() == 0);
            }
        }
    }
    assert forall|u: UtxoRef| flat_utxos(t).contains(u) implies !dv.claimed.contains(u) by {
        lemma_utxo_source(t.inputs, u);
        let i = choose|i: int|
            0 <= i < t.inputs.len() && input_utxos(#[trigger] t.inputs[i]).contains(u);
        match t.inputs[i] {
            InputV::Coins(cs) => {
                assert(input_utxos(t.inputs[i]).len() == 0);
            }
            InputV::PegIn(p) => {
                assert(wallet_input_valid(dv, p));
                let j = choose|j: int|
                    0 <= j < input_utxos(t.inputs[i]).len() && input_utxos(t.inputs[i])[j] == u;
                assert(input_utxos(t.inputs[i]) == seq![p.utxo]);
                assert(p.utxo == u);
            }
        }
    }
}

/// Accepting a fresh, valid transaction preserves well-formedness.
pub proof fn lemma_apply_tx_wf(
    dv: DatabaseV,
    fees: FeeConsensus,
    key: G2Affine,
    epoch: u64,
    t: TransactionV,
)
    requires
        db_wf(dv),
        tx_applies(dv, t, fees, key),
        !has_key(dv.accepted, txid_of(t)),
    ensures
        db_wf(apply_tx(dv, epoch, t)),
{
    let dv2 = apply_tx(dv, epoch, t);
    let k = txid_of(t);
    let newa = AcceptedTransactionV { epoch, transaction: t };
    let ents = outcome_entries(k, t.outputs);
    lemma_applies_fresh(dv, t, fees, key);

    // accepted keys stay distinct: the new key is fresh
    assert forall|i: int, j: int| 0 <= i < j < dv2.accepted.len() implies (
        #[trigger] dv2.accepted[i]).0 != (#[trigger] dv2.accepted[j]).0 by {
        if j < dv.accepted.len() {
            assert(dv2.accepted[i] == dv.accepted[i] && dv2.accepted[j] == dv.accepted[j]);
        } else {
            assert(dv2.accepted[j].0 == k);
            assert(dv2.accepted[i] == dv.accepted[i]);
            if dv.accepted[i].0 == k {
                assert(has_key(dv.accepted, k));
            }
        }
    }

    // old outcome keys never use the fresh transaction id
    assert forall|i: int| 0 <= i < dv.outcomes.len() implies (#[trigger] dv.outcomes[i]).0.0
        != k by {
        assert(has_key(dv.accepted, dv.outcomes[i].0.0));
        let m = choose|m: int|
            0 <= m < dv.accepted.len() && dv.accepted[m].0 == dv.outcomes[i].0.0;
        if dv.outcomes[i].0.0 == k {
            assert(has_key(dv.accepted, k));
        }
    }

    // outcome keys stay distinct
    assert forall|i: int, j: int| 0 <= i < j < dv2.outcomes.len() implies (
        #[trigger] dv2.outcomes[i]).0 != (#[trigger] dv2.outcomes[j]).0 by {
        if j < dv.outcomes.len() {
            assert(dv2.outcomes[i] == dv.outcomes[i] && dv2.outcomes[j] == dv.outcomes[j]);
        } else {
            let jo = j - dv.outcomes.len();
            assert(dv2.outcomes[j] == ents[jo]);
            assert(ents[jo].0 == (k, jo as u64));
            if i < dv.outcomes.len() {
                assert(dv2.outcomes[i] == dv.outcomes[i]);
                assert(dv.outcomes[i].0.0 != k);
            } else {
                let io = i - dv.outcomes.len();
                assert(dv2.outcomes[i] == ents[io]);
                assert(ents[io].0 == (k, io as u64));
                assert(io as u64 != jo as u64);
            }
        }
    }

    // every outcome still belongs to an accepted transaction
    assert forall|i: int| 0 <= i < dv2.outcomes.len() implies has_key(
        dv2.accepted,
        (#[trigger] dv2.outcomes[i]).0.0,
    ) by {
        if i < dv.outcomes.len() {
            assert(dv2.outcomes[i] == dv.outcomes[i]);
            assert(has_key(dv.accepted, dv.outcomes[i].0.0));
            let m = choose|m: int|
                0 <= m < dv.accepted.len() && dv.accepted[m].0 == dv.outcomes[i].0.0;
            assert(dv2.accepted[m].0 == dv.outcomes[i].0.0);
        } else {
            assert(dv2.outcomes[i] == ents[i - dv.outcomes.len()]);
            assert(dv2.outcomes[i].0.0 == k);
            assert(dv2.accepted[dv2.accepted.len() - 1].0 == k);
        }
    }

    // the old accepted entries stay accounted for
    assert forall|i: int| 0 <= i < dv2.accepted.len() implies accepted_entry_ok(
        dv2,
        (#[trigger] dv2.accepted[i]).0,
        dv2.accepted[i].1,
    ) by {
        if i < dv.accepted.len() {
            let ko = dv.accepted[i].0;
            let ao = dv.accepted[i].1;
            assert(accepted_entry_ok(dv, ko, ao));
            assert(dv2.accepted[i] == dv.accepted[i]);
            assert forall|n: u64| flat_nonces(ao.transaction).contains(n) implies
                dv2.spent.contains(n) by {
                assert(dv.spent.contains(n));
                let w = choose|w: int| 0 <= w < dv.spent.len() && dv.spent[w] == n;
                assert(dv2.spent[w] == n);
            }
            assert forall|u: UtxoRef| flat_utxos(ao.transaction).contains(u) implies
                dv2.claimed.contains(u) by {
                assert(dv.claimed.contains(u));
                let w = choose|w: int| 0 <= w < dv.claimed.len() && dv.claimed[w] == u;
                assert(dv2.claimed[w] == u);
            }
            assert forall|oi: int| 0 <= oi < ao.transaction.outputs.len() implies #[trigger]
                has_pair_key(dv2.outcomes, (ko, oi as u64)) by {
                assert(has_pair_key(dv.outcomes, (ko, oi as u64)));
                let w = choose|w: int|
                    0 <= w < dv.outcomes.len() && dv.outcomes[w].0 == (ko, oi as u64);
                assert(dv2.outcomes[w].0 == (ko, oi as u64));
            }
            assert forall|oi: int| 0 <= oi < ao.transaction.outputs.len() implies
                outcome_matches(
                #[trigger] ao.transaction.outputs[oi],
                pair_lookup(dv2.outcomes, (ko, oi as u64)),
            ) by {
                assert(has_pair_key(dv.outcomes, (ko, oi as u64)));
                assert(outcome_matches(
                    ao.transaction.outputs[oi],
                    pair_lookup(dv.outcomes, (ko, oi as u64)),
                ));
                let w = choose|w: int|
                    0 <= w < dv.outcomes.len() && dv.outcomes[w].0 == (ko, oi as u64);
                assert(dv2.outcomes[w].0 == (ko, oi as u64));
                let w1 = pair_key_index(dv.outcomes, (ko, oi as u64));
                let w2 = pair_key_index(dv2.outcomes, (ko, oi as u64));
                assert(dv.outcomes[w1].0 == (ko, oi as u64));
                assert(dv2.outcomes[w2].0 == (ko, oi as u64));
                assert(w1 == w2);
                assert(pair_lookup(dv2.outcomes, (ko, oi as u64)) == pair_lookup(
                    dv.outcomes,
                    (ko, oi as u64),
                ));
            }
        } else {
            // the new entry
            assert(dv2.accepted[i] == (k, newa));
            assert forall|n: u64| flat_nonces(newa.transaction).contains(n) implies
                dv2.spent.contains(n) by {
                let w = choose|w: int|
                    0 <= w < flat_nonces(t).len() && flat_nonces(t)[w] == n;
                assert(dv2.spent[dv.spent.len() + w] == n);
            }
            assert forall|u: UtxoRef| flat_utxos(newa.transaction).contains(u) implies
                dv2.claimed.contains(u) by {
                let w = choose|w: int|
                    0 <= w < flat_utxos(t).len() && flat_utxos(t)[w] == u;
                assert(dv2.claimed[dv.claimed.len() + w] == u);
            }
            assert forall|oi: int| 0 <= oi < newa.transaction.outputs.len() implies #[trigger]
                has_pair_key(dv2.outcomes, (k, oi as u64)) by {
                assert(ents[oi].0 == (k, oi as u64));
                assert(dv2.outcomes[dv.outcomes.len() + oi].0 == (k, oi as u64));
            }
            assert forall|oi: int| 0 <= oi < newa.transaction.outputs.len() implies
                outcome_matches(
                #[trigger] newa.transaction.outputs[oi],
                pair_lookup(dv2.outcomes, (k, oi as u64)),
            ) by {
                assert(dv2.outcomes[dv.outcomes.len() + oi].0 == (k, oi as u64));
                let w2 = pair_key_index(dv2.outcomes, (k, oi as u64));
                assert(has_pair_key(dv2.outcomes, (k, oi as u64)));
                assert(dv2.outcomes[w2].0 == (k, oi as u64));
                assert(w2 == dv.outcomes.len() + oi);
                assert(pair_lookup(dv2.outcomes, (k, oi as u64)) == outcome_of(
                    t.outputs[oi],
                ));
            }
        }
    }

    // no two accepted transactions share a resource
    assert forall|i: int, j: int| 0 <= i < j < dv2.accepted.len() implies !conflicts(
        (#[trigger] dv2.accepted[i]).1.transaction,
        (#[trigger] dv2.accepted[j]).1.transaction,
    ) by {
        if j < dv.accepted.len() {
            assert(dv2.accepted[i] == dv.accepted[i] && dv2.accepted[j] == dv.accepted[j]);
        } else {
            assert(dv2.accepted[i] == dv.accepted[i]);
            assert(dv2.accepted[j].1.transaction == t);
            let ao = dv.accepted[i].1;
            assert(accepted_entry_ok(dv, dv.accepted[i].0, ao));
            if exists|n: u64|
                flat_nonces(ao.transaction).contains(n) && flat_nonces(t).contains(n) {
                let n = choose|n: u64|
                    flat_nonces(ao.transaction).contains(n) && flat_nonces(t).contains(n);
                assert(dv.spent.contains(n));
                assert(!dv.spent.contains(n));
            }
            if exists|u: UtxoRef|
                flat_utxos(ao.transaction).contains(u) && flat_utxos(t).contains(u) {
                let u = choose|u: UtxoRef|
                    flat_utxos(ao.transaction).contains(u) && flat_utxos(t).contains(u);
                assert(dv.claimed.contains(u));
                assert(!dv.claimed.contains(u));
            }
            assert(!conflicts(ao.transaction, t));
        }
    }
}

/// Splits one epoch's contributions into transaction, mint and wallet
/// items, preserving each peer's order and the peer order.
fn unzip_items(contributions: Vec<(u64, Vec<ConsensusItem>)>) -> (r: (
    Vec<(u64, Transaction)>,
    Vec<(u64, u64)>,
    Vec<(u64, u64)>,
))
    ensures
        pairs_view(r.0@) == txs_of(flatten_items(contributions_view(contributions@))),
        r.1@ == mint_items_of(flatten_items(contributions_view(contributions@))),
        r.2@ == wallet_items_of(flatten_items(contributions_view(contributions@))),
{
    let ghost all = flatten_items(contributions_view(contributions@));
    let mut rest = contributions;
    let mut txs: Vec<(u64, Transaction)> = Vec::new();
    let mut mints: Vec<(u64, u64)> = Vec::new();
    let mut wallets: Vec<(u64, u64)> = Vec::new();
    let ghost mut flat_done: Seq<(u64, ConsensusItemV)> = Seq::empty();
    proof {
        assert(flat_done + flatten_items(contributions_view(rest@)) =~= all);
        assert(pairs_view(txs@) =~= txs_of(flat_done));
        assert(mints@ =~= mint_items_of(flat_done));
        assert(wallets@ =~= wallet_items_of(flat_done));
    }
    while rest.len() > 0
        invariant
            flat_done + flatten_items(contributions_view(rest@)) == all,
            pairs_view(txs@) == txs_of(flat_done),
            mints@ == mint_items_of(flat_done),
            wallets@ == wallet_items_of(flat_done),
        decreases rest@.len(),
    {
        let ghost cv_before = contributions_view(rest@);
        let (peer, items) = rest.remove(0);
        let ghost iv = items@.map_values(|it: ConsensusItem| it@);
        proof {
            assert(cv_before =~= seq![(peer, iv)] + contributions_view(rest@));
            assert(cv_before[0] == (peer, iv));
            assert(cv_before.drop_first() =~= contributions_view(rest@));
            assert(flatten_items(cv_before) == iv.map_values(|it: ConsensusItemV| (peer, it))
                + flatten_items(contributions_view(rest@)));
        }
        let mut inner = items;
        proof {
            assert(inner@.map_values(|it: ConsensusItem| it@) =~= iv);
            assert(flat_done + inner@.map_values(|it: ConsensusItem| it@).map_values(
                |it: ConsensusItemV| (peer, it),
            ) + flatten_items(contributions_view(rest@)) =~= all);
        }
        while inner.len() > 0
            invariant
                flat_done + inner@.map_values(|it: ConsensusItem| it@).map_values(
                    |it: ConsensusItemV| (peer, it),
                ) + flatten_items(contributions_view(rest@)) == all,
                pairs_view(txs@) == txs_of(flat_done),
                mints@ == mint_items_of(flat_done),
                wallets@ == wallet_items_of(flat_done),
            decreases inner@.len(),
        {
            let ghost pm_before = inner@.map_values(|it: ConsensusItem| it@).map_values(
                |it: ConsensusItemV| (peer, it),
            );
            let item = inner.remove(0);
            let ghost x = (peer, item@);
            let ghost pm_after = inner@.map_values(|it: ConsensusItem| it@).map_values(
                |it: ConsensusItemV| (peer, it),
            );
            proof {
                assert(pm_before =~= seq![x] + pm_after);
                lemma_unzip_concat(flat_done, seq![x]);
                assert(seq![x].drop_first() =~= Seq::<(u64, ConsensusItemV)>::empty());
            }
            match item {
                ConsensusItem::Transaction(t) => {
                    proof {
                        assert(x.1 == ConsensusItemV::Transaction(t@));
                        assert(seq![x][0] == x);
                        assert(seq![x].len() == 1);
                        assert(txs_of(seq![x].drop_first()) =~= Seq::<(u64, TransactionV)>::empty());
                        assert(mint_items_of(seq![x].drop_first()) =~= Seq::<(u64, u64)>::empty());
                        assert(wallet_items_of(seq![x].drop_first()) =~= Seq::<(u64, u64)>::empty());
                        assert(txs_of(seq![x]) =~= seq![(peer, t@)]);
                        assert(mint_items_of(seq![x]) =~= Seq::<(u64, u64)>::empty());
                        assert(wallet_items_of(seq![x]) =~= Seq::<(u64, u64)>::empty());
                    }
                    txs.push((peer, t));
                }
                ConsensusItem::Mint(m) => {
                    proof {
                        assert(x.1 == ConsensusItemV::Mint(m));
                        assert(seq![x][0] == x);
                        assert(seq![x].len() == 1);
                        assert(txs_of(seq![x].drop_first()) =~= Seq::<(u64, TransactionV)>::empty());
                        assert(mint_items_of(seq![x].drop_first()) =~= Seq::<(u64, u64)>::empty());
                        assert(wallet_items_of(seq![x].drop_first()) =~= Seq::<(u64, u64)>::empty());
                        assert(txs_of(seq![x]) =~= Seq::<(u64, TransactionV)>::empty());
                        assert(mint_items_of(seq![x]) =~= seq![(peer, m)]);
                        assert(wallet_items_of(seq![x]) =~= Seq::<(u64, u64)>::empty());
                    }
                    mints.push((peer, m));
                }
                ConsensusItem::Wallet(w) => {
                    proof {
                        assert(x.1 == ConsensusItemV::Wallet(w));
                        assert(seq![x][0] == x);
                        assert(seq![x].len() == 1);
                        assert(txs_of(seq![x].drop_first()) =~= Seq::<(u64, TransactionV)>::empty());
                        assert(mint_items_of(seq![x].drop_first()) =~= Seq::<(u64, u64)>::empty());
                        assert(wallet_items_of(seq![x].drop_first()) =~= Seq::<(u64, u64)>::empty());
                        assert(txs_of(seq![x]) =~= Seq::<(u64, TransactionV)>::empty());
                        assert(mint_items_of(seq![x]) =~= Seq::<(u64, u64)>::empty());
                        assert(wallet_items_of(seq![x]) =~= seq![(peer, w)]);
                    }
                    wallets.push((peer, w));
                }
            }
            proof {
                let fd2 = flat_done.push(x);
                assert(fd2 =~= flat_done + seq![x]);
                assert(pairs_view(txs@) =~= txs_of(flat_done) + txs_of(seq![x]));
                assert(mints@ =~= mint_items_of(flat_done) + mint_items_of(seq![x]));
                assert(wallets@ =~= wallet_items_of(flat_done) + wallet_items_of(seq![x]));
                flat_done = fd2;
                assert(flat_done + pm_after + flatten_items(contributions_view(rest@)) =~= all);
            }
        }
        proof {
            assert(inner@.map_values(|it: ConsensusItem| it@).map_values(
                |it: ConsensusItemV| (peer, it),
            ) =~= Seq::<(u64, ConsensusItemV)>::empty());
            assert(flat_done + flatten_items(contributions_view(rest@)) =~= all);
        }
    }
    proof {
        assert(contributions_view(rest@) =~= Seq::<(u64, Seq<ConsensusItemV>)>::empty());
        assert(flatten_items(contributions_view(rest@)) =~= Seq::<(u64, ConsensusItemV)>::empty());
        assert(flat_done =~= all);
    }
    (txs, mints, wallets)
}

impl FediMintConsensus {
    /// Applies one validated, fresh transaction: consumes its input
    /// resources, records one outcome per output, and inserts it into the
    /// accepted set under the given epoch.
    fn apply_accepted_transaction(&mut self, tx: Transaction, id: Vec<u8>, epoch: u64)
        requires
            old(self).wf(),
            id@ == txid_of(tx@),
            tx_applies(old(self).db@, tx@, old(self).spec_fees(), old(self).spec_key()),
            !has_key(old(self).db@.accepted, txid_of(tx@)),
        ensures
            final(self).wf(),
            final(self).cfg == old(self).cfg,
            final(self).db@ == apply_tx(old(self).db@, epoch, tx@),
    {
        let ghost dv0 = self.db@;
        let mut nonces = collect_nonces(&tx);
        self.db.spent_nonces.append(&mut nonces);
        let mut utxos = collect_utxos(&tx);
        self.db.claimed_utxos.append(&mut utxos);
        let n_out = tx.outputs.len();
        let ghost ents = outcome_entries(txid_of(tx@), tx@.outputs);
        let mut oi: usize = 0;
        proof {
            assert(self.db@.outcomes =~= dv0.outcomes + ents.take(0));
        }
        while oi < n_out
            invariant
                oi <= n_out,
                n_out == tx.outputs@.len(),
                tx@.outputs.len() == n_out,
                id@ == txid_of(tx@),
                ents == outcome_entries(txid_of(tx@), tx@.outputs),
                forall|j: int| 0 <= j < n_out ==> tx@.outputs[j] == #[trigger] tx.outputs@[j]@,
                self.cfg == old(self).cfg,
                self.db@.outcomes == dv0.outcomes + ents.take(oi as int),
                self.db@.proposed == dv0.proposed,
                self.db@.accepted == dv0.accepted,
                self.db@.spent == dv0.spent + flat_nonces(tx@),
                self.db@.claimed == dv0.claimed + flat_utxos(tx@),
                self.db@.mint_items == dv0.mint_items,
                self.db@.wallet_items == dv0.wallet_items,
            decreases n_out - oi,
        {
            let key = clone_bytes(&id);
            let oc = match &tx.outputs[oi] {
                Output::Coins(iss) => OutputOutcome::Mint(*iss),
                Output::PegOut(p) => OutputOutcome::Wallet(p.clone()),
            };
            let ghost kv = key@;
            let ghost ocv = oc@;
            let ghost prev = self.db@.outcomes;
            proof {
                assert(ocv == outcome_of(tx@.outputs[oi as int]));
                assert(ents[oi as int] == ((txid_of(tx@), oi as u64), outcome_of(
                    tx@.outputs[oi as int],
                )));
                assert(kv == txid_of(tx@));
            }
            self.db.outcomes.push(((key, oi as u64), oc));
            oi = oi + 1;
            proof {
                assert(self.db@.outcomes =~= prev.push(((kv, (oi - 1) as u64), ocv)));
                assert(self.db@.outcomes =~= dv0.outcomes + ents.take(oi as int));
            }
        }
        proof {
            assert(ents.take(n_out as int) =~= ents);
        }
        self.db.accepted.push((id, AcceptedTransaction { epoch, transaction: tx }));
        proof {
            assert(self.db@.accepted =~= dv0.accepted.push(
                (txid_of(tx@), AcceptedTransactionV { epoch, transaction: tx@ }),
            ));
            assert(self.db@ == apply_tx(dv0, epoch, tx@));
            lemma_apply_tx_wf(dv0, old(self).spec_fees(), old(self).spec_key(), epoch, tx@);
        }
    }

    /// Processes the agreed outcome of one epoch: records the peers' module
    /// items, removes every transaction of the outcome from the proposed
    /// pool, filters conflicting transactions deterministically (first seen
    /// wins), and applies the survivors in order; a transaction that fails
    /// its validation chain is dropped with no effect.  Identical outcomes
    /// applied to identical states produce identical states.
    pub fn process_consensus_outcome(&mut self, outcome: ConsensusOutcome)
        requires
            old(self).wf(),
        ensures
            final(self).wf(),
            final(self).cfg == old(self).cfg,
            final(self).db@ == epoch_apply(
                old(self).db@,
                old(self).spec_fees(),
                old(self).spec_key(),
                outcome.epoch,
                contributions_view(outcome.contributions@),
            ),
    {
        let ghost dv0 = self.db@;
        let ghost fees = self.spec_fees();
        let ghost key = self.spec_key();
        let ghost flat = flatten_items(contributions_view(outcome.contributions@));
        let epoch = outcome.epoch;
        let (txs, mints, wallets) = unzip_items(outcome.contributions);

        self.wallet.begin_consensus_epoch(&mut self.db, &wallets);
        self.mint.begin_consensus_epoch(&mut self.db, &mints);
        let ghost dv1 = DatabaseV {
            wallet_items: dv0.wallet_items + wallet_items_of(flat),
            mint_items: dv0.mint_items + mint_items_of(flat),
            ..dv0
        };
        proof {
            assert(self.db@ == dv1);
            lemma_wf_frame(dv0, dv1);
        }

        let ghost txsv = pairs_view(txs@);
        let n = txs.len();
        let mut i: usize = 0;
        proof {
            assert(txsv.skip(0) =~= txsv);
        }
        while i < n
            invariant
                i <= n,
                n == txs@.len(),
                txsv == pairs_view(txs@),
                txsv.len() == n,
                forall|j: int| 0 <= j < n ==> (#[trigger] txsv[j]).1 == txs@[j].1@,
                self.cfg == old(self).cfg,
                distinct_keys(self.db@.proposed),
                remove_txids(self.db@.proposed, txsv.skip(i as int)) == remove_txids(
                    dv1.proposed,
                    txsv,
                ),
                self.db@.accepted == dv1.accepted,
                self.db@.spent == dv1.spent,
                self.db@.claimed == dv1.claimed,
                self.db@.outcomes == dv1.outcomes,
                self.db@.mint_items == dv1.mint_items,
                self.db@.wallet_items == dv1.wallet_items,
            decreases n - i,
        {
            proof {
                assert(txsv.skip(i as int).drop_first() =~= txsv.skip(i as int + 1));
                assert(txsv.skip(i as int)[0] == txsv[i as int]);
            }
            let id = transaction_id(&txs[i].1);
            proof {
                lemma_remove_key_keys(self.db@.proposed, id@);
            }
            self.db.remove_proposed(&id);
            i = i + 1;
        }
        let ghost dv2 = DatabaseV { proposed: remove_txids(dv1.proposed, txsv), ..dv1 };
        proof {
            assert(remove_txids(self.db@.proposed, txsv.skip(n as int)) == self.db@.proposed);
            assert(self.db@ == dv2);
            lemma_wf_frame(dv1, dv2);
        }

        let filtered = filter_conflicts(txs);
        let ghost fv = filter_spec(txsv);
        let mut rest = filtered;
        proof {
            assert(pairs_view(rest@) == fv);
        }
        while rest.len() > 0
            invariant
                db_wf(self.db@),
                self.cfg == old(self).cfg,
                apply_txs(self.db@, fees, key, epoch, pairs_view(rest@)) == apply_txs(
                    dv2,
                    fees,
                    key,
                    epoch,
                    fv,
                ),
                fees == self.spec_fees(),
                key == self.spec_key(),
            decreases rest@.len(),
        {
            let ghost before = pairs_view(rest@);
            let (peer, tx) = rest.remove(0);
            proof {
                assert(before =~= seq![(peer, tx@)] + pairs_view(rest@));
                assert(before[0] == (peer, tx@));
                assert(before.drop_first() =~= pairs_view(rest@));
            }
            let ghost dv_pre = self.db@;
            let id = transaction_id(&tx);
            let already = self.db.accepted_index(&id);
            match already {
                Some(ai) => {
                    proof {
                        assert(self.db@.accepted[ai as int].0 == txid_of(tx@));
                        assert(has_key(self.db@.accepted, txid_of(tx@)));
                        assert(step_tx(dv_pre, fees, key, epoch, tx@) == dv_pre);
                    }
                }
                None => {
                    let ghost txv = tx@;
                    match self.process_transaction(tx, id, epoch) {
                        Ok(()) => {
                            proof {
                                assert(self.db@ == step_tx(dv_pre, fees, key, epoch, before[0].1));
                            }
                        }
                        Err(_) => {
                            proof {
                                assert(!tx_applies(dv_pre, txv, fees, key));
                                assert(step_tx(dv_pre, fees, key, epoch, txv) == dv_pre);
                            }
                        }
                    }
                }
            }
        }
        self.wallet.end_consensus_epoch(&mut self.db);
        self.mint.end_consensus_epoch(&mut self.db);
        proof {
            assert(pairs_view(rest@) =~= Seq::<(u64, TransactionV)>::empty());
            assert(apply_txs(self.db@, fees, key, epoch, pairs_view(rest@)) == self.db@);
            assert(self.db@ == epoch_apply(
                dv0,
                fees,
                key,
                epoch,
                contributions_view(outcome.contributions@),
            ));
        }
    }
}

/// Accepted entries are immutable: applying an epoch batch only appends to
/// the accepted set, so every earlier entry survives unchanged.
pub proof fn lemma_accepted_immutable(
    dv: DatabaseV,
    fees: FeeConsensus,
    key: G2Affine,
    epoch: u64,
    txs: Seq<(u64, TransactionV)>,
    i: int,
)
    requires
        0 <= i < dv.accepted.len(),
    ensures
        apply_txs(dv, fees, key, epoch, txs).accepted.len() >= dv.accepted.len(),
        apply_txs(dv, fees, key, epoch, txs).accepted[i] == dv.accepted[i],
    decreases txs.len(),
{
    if txs.len() == 0 {
    } else {
        let dv2 = step_tx(dv, fees, key, epoch, txs[0].1);
        assert(dv2.accepted.len() >= dv.accepted.len());
        assert(dv2.accepted[i] == dv.accepted[i]);
        lemma_accepted_immutable(dv2, fees, key, epoch, txs.drop_first(), i);
    }
}

/// The same immutability for a whole epoch transition.
pub proof fn lemma_epoch_accepted_immutable(
    dv: DatabaseV,
    fees: FeeConsensus,
    key: G2Affine,
    epoch: u64,
    c: Seq<(u64, Seq<ConsensusItemV>)>,
    i: int,
)
    requires
        0 <= i < dv.accepted.len(),
    ensures
        epoch_apply(dv, fees, key, epoch, c).accepted[i] == dv.accepted[i],
{
    let flat = flatten_items(c);
    let dv1 = DatabaseV {
        wallet_items: dv.wallet_items + wallet_items_of(flat),
        mint_items: dv.mint_items + mint_items_of(flat),
        ..dv
    };
    let dv2 = DatabaseV { proposed: remove_txids(dv1.proposed, txs_of(flat)), ..dv1 };
    lemma_accepted_immutable(dv2, fees, key, epoch, filter_spec(txs_of(flat)), i);
}

} // verus!
