//! The on-chain wallet federation module: validates and applies peg-in
//! claims and peg-out requests, against the claimed-output record in the
//! store.

use vstd::prelude::*;

use crate::bytes::clone_bytes;
use crate::db::{
    has_pair_key, pair_key_distinct, pair_key_index, pair_lookup, Database, DatabaseV,
    OutputOutcome, OutputOutcomeV,
};
use crate::transaction::{PegInProof, PegOutRequest};

verus! {

/// Failures of the wallet module.
#[derive(Clone, Copy, Debug, PartialEq, Eq, Structural)]
pub enum WalletError {
    /// A peg-in proof claimed a zero amount.
    InvalidPegIn,
    /// The referenced on-chain output was already claimed.
    AlreadyClaimed,
    /// A peg-out asked for a zero amount or gave an empty address.
    InvalidPegOut,
}

/// A peg-in is valid when it claims a positive amount from an output not
/// yet recorded as claimed.
pub open spec fn wallet_input_valid(dv: DatabaseV, p: PegInProof) -> bool {
    p.amount >= 1 && !dv.claimed.contains(p.utxo)
}

/// The error reported for an invalid peg-in, in check order.
pub open spec fn wallet_input_error(dv: DatabaseV, p: PegInProof) -> WalletError {
    if p.amount < 1 {
        WalletError::InvalidPegIn
    } else {
        WalletError::AlreadyClaimed
    }
}

/// A peg-out is valid when it sends a positive amount to a nonempty
/// address.
pub open spec fn wallet_output_valid(address: Seq<u8>, amount: u64) -> bool {
    amount >= 1 && address.len() >= 1
}

/// The on-chain wallet.  Its persistent state lives in the shared store.
pub struct Wallet {}

impl Wallet {
    /// Validates a peg-in input against the current state, read-only.
    pub fn validate_input(&self, db: &Database, peg_in: &PegInProof) -> (r: Result<
        (),
        WalletError,
    >)
        ensures
            r is Ok <==> wallet_input_valid(db@, *peg_in),
            r matches Err(e) ==> e == wallet_input_error(db@, *peg_in),
    {
        if peg_in.amount < 1 {
            return Err(WalletError::InvalidPegIn);
        }
        if db.claimed_contains(&peg_in.utxo) {
            return Err(WalletError::AlreadyClaimed);
        }
        Ok(())
    }

    /// Applies a peg-in input: records the on-chain output as claimed.  On
    /// failure the state is unchanged.
    pub fn apply_input(&self, db: &mut Database, peg_in: &PegInProof) -> (r: Result<
        (),
        WalletError,
    >)
        ensures
            r is Ok <==> wallet_input_valid(old(db)@, *peg_in),
            r matches Err(e) ==> e == wallet_input_error(old(db)@, *peg_in) && final(db)@ == old(
                db,
            )@,
            r is Ok ==> final(db)@ == (DatabaseV {
                claimed: old(db)@.claimed.push(peg_in.utxo),
                ..old(db)@
            }),
    {
        match self.validate_input(db, peg_in) {
            Ok(()) => {}
            Err(e) => {
                return Err(e);
            }
        }
        db.claimed_utxos.push(peg_in.utxo);
        proof {
            assert(final(db)@ == (DatabaseV {
                claimed: old(db)@.claimed.push(peg_in.utxo),
                ..old(db)@
            }));
        }
        Ok(())
    }

    /// Validates a peg-out request, stateless.
    pub fn validate_output(&self, peg_out: &PegOutRequest) -> (r: Result<(), WalletError>)
        ensures
            r is Ok <==> wallet_output_valid(peg_out.address@, peg_out.amount),
            r matches Err(e) ==> e == WalletError::InvalidPegOut,
    {
        if peg_out.amount >= 1 && peg_out.address.len() >= 1 {
            Ok(())
        } else {
            Err(WalletError::InvalidPegOut)
        }
    }

    /// Applies a peg-out output: records the withdrawal as the outcome of
    /// the given outpoint.
    pub fn apply_output(
        &self,
        db: &mut Database,
        peg_out: &PegOutRequest,
        txid: &Vec<u8>,
        out_idx: u64,
    ) -> (r: Result<(), WalletError>)
        ensures
            r is Ok <==> wallet_output_valid(peg_out.address@, peg_out.amount),
            r matches Err(e) ==> e == WalletError::InvalidPegOut && final(db)@ == old(db)@,
            r is Ok ==> final(db)@ == (DatabaseV {
                outcomes: old(db)@.outcomes.push(
                    (
                        (txid@, out_idx),
                        OutputOutcomeV::Wallet {
                            address: peg_out.address@,
                            amount: peg_out.amount,
                        },
                    ),
                ),
                ..old(db)@
            }),
    {
        if !(peg_out.amount >= 1 && peg_out.address.len() >= 1) {
            return Err(WalletError::InvalidPegOut);
        }
        let key = clone_bytes(txid);
        db.outcomes.push(((key, out_idx), OutputOutcome::Wallet(peg_out.clone())));
        proof {
            assert(final(db)@.outcomes =~= old(db)@.outcomes.push(
                (
                    (txid@, out_idx),
                    OutputOutcomeV::Wallet { address: peg_out.address@, amount: peg_out.amount },
                ),
            ));
        }
        Ok(())
    }

    /// The recorded outcome of one of this module's outputs.
    pub fn output_status(&self, db: &Database, txid: &Vec<u8>, out_idx: u64) -> (r: Option<
        OutputOutcome,
    >)
        requires
            pair_key_distinct(db@.outcomes),
        ensures
            r is Some <==> has_pair_key(db@.outcomes, (txid@, out_idx)),
            r matches Some(oc) ==> oc@ == pair_lookup(db@.outcomes, (txid@, out_idx)),
    {
        match db.outcome_index(txid, out_idx) {
            Some(i) => {
                let oc = db.outcomes[i].1.clone();
                proof {
                    assert(has_pair_key(db@.outcomes, (txid@, out_idx)));
                    let ki = pair_key_index(db@.outcomes, (txid@, out_idx));
                    assert(db@.outcomes[ki].0 == (txid@, out_idx));
                    assert(ki == i as int);
                }
                Some(oc)
            }
            None => None,
        }
    }

    /// Records the epoch's wallet consensus items from the peers.
    pub fn begin_consensus_epoch(&self, db: &mut Database, items: &Vec<(u64, u64)>)
        ensures
            final(db)@ == (DatabaseV { wallet_items: old(db)@.wallet_items + items@, ..old(db)@ }),
    {
        let n = items.len();
        let mut k: usize = 0;
        while k < n
            invariant
                k <= n,
                n == items@.len(),
                db@.wallet_items =~= old(db)@.wallet_items + items@.take(k as int),
                db@.proposed == old(db)@.proposed,
                db@.accepted == old(db)@.accepted,
                db@.spent == old(db)@.spent,
                db@.claimed == old(db)@.claimed,
                db@.outcomes == old(db)@.outcomes,
                db@.mint_items == old(db)@.mint_items,
            decreases n - k,
        {
            let item = items[k];
            db.wallet_items.push(item);
            k = k + 1;
            proof {
                assert(db@.wallet_items =~= old(db)@.wallet_items + items@.take(k as int));
            }
        }
        proof {
            assert(items@.take(n as int) =~= items@);
            assert(final(db)@ == (DatabaseV {
                wallet_items: old(db)@.wallet_items + items@,
                ..old(db)@
            }));
        }
    }

    /// The wallet proposes no items of its own in this model.
    pub fn consensus_proposal(&self, _db: &Database) -> (r: Vec<u64>)
        ensures
            r@.len() == 0,
    {
        Vec::new()
    }

    /// The wallet has no end-of-epoch work; the state is unchanged.
    pub fn end_consensus_epoch(&self, db: &mut Database)
        ensures
            final(db)@ == old(db)@,
    {
    }
}

} // verus!
