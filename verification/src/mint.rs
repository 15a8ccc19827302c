//! The coin-mint federation module: validates and applies coin-note spends
//! and coin issuances, against the spent-nonce record in the store.

use vstd::prelude::*;

use crate::db::{
    has_pair_key, pair_key_distinct, pair_key_index, pair_lookup, Database, DatabaseV,
    OutputOutcome, OutputOutcomeV,
};
use crate::transaction::{distinct_seq, Coin, IssuanceRequest};

verus! {

/// Failures of the mint module.
#[derive(Clone, Copy, Debug, PartialEq, Eq, Structural)]
pub enum MintError {
    /// A coin-spend input carried no coins.
    NothingSpent,
    /// A coin-spend input carried the same note twice.
    DuplicateCoin,
    /// A note in the input was already spent.
    AlreadySpent,
    /// An issuance request asked for a zero amount.
    InvalidIssuance,
}

/// A coin-spend input is valid when it is nonempty, carries no note twice,
/// and spends no note that is already recorded as spent.
pub open spec fn mint_input_valid(dv: DatabaseV, cs: Seq<Coin>) -> bool {
    &&& cs.len() >= 1
    &&& distinct_seq(cs.map_values(|c: Coin| c.nonce))
    &&& forall|k: int| 0 <= k < cs.len() ==> !dv.spent.contains((#[trigger] cs[k]).nonce)
}

/// The error reported for an invalid coin-spend input, in check order.
pub open spec fn mint_input_error(dv: DatabaseV, cs: Seq<Coin>) -> MintError {
    if cs.len() == 0 {
        MintError::NothingSpent
    } else if !distinct_seq(cs.map_values(|c: Coin| c.nonce)) {
        MintError::DuplicateCoin
    } else {
        MintError::AlreadySpent
    }
}

/// An issuance is valid when it asks for a positive amount.
pub open spec fn mint_output_valid(iss_amount: u64) -> bool {
    iss_amount >= 1
}

/// The coin mint.  Its persistent state lives in the shared store.
pub struct Mint {}

impl Mint {
    /// Validates a coin-spend input against the current state, read-only.
    pub fn validate_input(&self, db: &Database, coins: &Vec<Coin>) -> (r: Result<(), MintError>)
        ensures
            r is Ok <==> mint_input_valid(db@, coins@),
            r matches Err(e) ==> e == mint_input_error(db@, coins@),
    {
        if coins.len() == 0 {
            return Err(MintError::NothingSpent);
        }
        let n = coins.len();
        let mut i: usize = 0;
        while i < n
            invariant
                i <= n,
                n == coins@.len(),
                forall|a: int, b: int|
                    0 <= a < b < i ==> (#[trigger] coins@[a]).nonce != (#[trigger] coins@[b]).nonce,
            decreases n - i,
        {
            let mut j: usize = 0;
            while j < i
                invariant
                    j <= i < n,
                    n == coins@.len(),
                    forall|b: int|
                        0 <= b < j ==> (#[trigger] coins@[b]).nonce != coins@[i as int].nonce,
                decreases i - j,
            {
                if coins[j].nonce == coins[i].nonce {
                    proof {
                        assert(coins@.map_values(|c: Coin| c.nonce)[j as int] == coins@.map_values(
                            |c: Coin| c.nonce,
                        )[i as int]);
                        assert(!distinct_seq(coins@.map_values(|c: Coin| c.nonce)));
                    }
                    return Err(MintError::DuplicateCoin);
                }
                j = j + 1;
            }
            i = i + 1;
        }
        proof {
            let ns = coins@.map_values(|c: Coin| c.nonce);
            assert forall|a: int, b: int| 0 <= a < b < ns.len() implies ns[a] != ns[b] by {
                assert(ns[a] == coins@[a].nonce);
                assert(ns[b] == coins@[b].nonce);
            }
            assert(distinct_seq(ns));
        }
        let mut k: usize = 0;
        while k < n
            invariant
                k <= n,
                n == coins@.len(),
                distinct_seq(coins@.map_values(|c: Coin| c.nonce)),
                forall|a: int| 0 <= a < k ==> !db@.spent.contains((#[trigger] coins@[a]).nonce),
            decreases n - k,
        {
            if db.spent_contains(coins[k].nonce) {
                return Err(MintError::AlreadySpent);
            }
            k = k + 1;
        }
        Ok(())
    }

    /// Applies a coin-spend input: records every note of the bundle as
    /// spent.  On failure the state is unchanged.
    pub fn apply_input(&self, db: &mut Database, coins: &Vec<Coin>) -> (r: Result<(), MintError>)
        ensures
            r is Ok <==> mint_input_valid(old(db)@, coins@),
            r matches Err(e) ==> e == mint_input_error(old(db)@, coins@) && final(db)@ == old(
                db,
            )@,
            r is Ok ==> final(db)@ == (DatabaseV {
                spent: old(db)@.spent + coins@.map_values(|c: Coin| c.nonce),
                ..old(db)@
            }),
    {
        match self.validate_input(db, coins) {
            Ok(()) => {}
            Err(e) => {
                return Err(e);
            }
        }
        let n = coins.len();
        let mut k: usize = 0;
        while k < n
            invariant
                k <= n,
                n == coins@.len(),
                db@.spent =~= old(db)@.spent + coins@.map_values(|c: Coin| c.nonce).take(k as int),
                db@.proposed == old(db)@.proposed,
                db@.accepted == old(db)@.accepted,
                db@.claimed == old(db)@.claimed,
                db@.outcomes == old(db)@.outcomes,
                db@.mint_items == old(db)@.mint_items,
                db@.wallet_items == old(db)@.wallet_items,
            decreases n - k,
        {
            let nonce = coins[k].nonce;
            db.spent_nonces.push(nonce);
            k = k + 1;
            proof {
                assert(db@.spent =~= old(db)@.spent + coins@.map_values(|c: Coin| c.nonce).take(
                    k as int,
                ));
            }
        }
        proof {
            assert(coins@.map_values(|c: Coin| c.nonce).take(n as int) =~= coins@.map_values(
                |c: Coin| c.nonce,
            ));
            assert(final(db)@ == (DatabaseV {
                spent: old(db)@.spent + coins@.map_values(|c: Coin| c.nonce),
                ..old(db)@
            }));
        }
        Ok(())
    }

    /// Validates an issuance request, stateless.
    pub fn validate_output(&self, iss: &IssuanceRequest) -> (r: Result<(), MintError>)
        ensures
            r is Ok <==> mint_output_valid(iss.amount),
            r matches Err(e) ==> e == MintError::InvalidIssuance,
    {
        if iss.amount >= 1 {
            Ok(())
        } else {
            Err(MintError::InvalidIssuance)
        }
    }

    /// Applies an issuance output: records the issuance as the outcome of
    /// the given outpoint.
    pub fn apply_output(
        &self,
        db: &mut Database,
        iss: &IssuanceRequest,
        txid: &Vec<u8>,
        out_idx: u64,
    ) -> (r: Result<(), MintError>)
        ensures
            r is Ok <==> mint_output_valid(iss.amount),
            r matches Err(e) ==> e == MintError::InvalidIssuance && final(db)@ == old(db)@,
            r is Ok ==> final(db)@ == (DatabaseV {
                outcomes: old(db)@.outcomes.push(
                    (
                        (txid@, out_idx),
                        OutputOutcomeV::Mint { blinded: iss.blinded.0, amount: iss.amount },
                    ),
                ),
                ..old(db)@
            }),
    {
        if iss.amount < 1 {
            return Err(MintError::InvalidIssuance);
        }
        let key = crate::bytes::clone_bytes(txid);
        db.outcomes.push(((key, out_idx), OutputOutcome::Mint(*iss)));
        proof {
            assert(final(db)@.outcomes =~= old(db)@.outcomes.push(
                (
                    (txid@, out_idx),
                    OutputOutcomeV::Mint { blinded: iss.blinded.0, amount: iss.amount },
                ),
            ));
        }
        Ok(())
    }

    /// The recorded outcome of one of this module's outputs.
    pub fn output_status(&self, db: &Database, txid: &Vec<u8>, out_idx: u64) -> (r: Option<
        OutputOutcome,
    >)
        requires
            pair_key_distinct(db@.outcomes),
        ensures
            r is Some <==> has_pair_key(db@.outcomes, (txid@, out_idx)),
            r matches Some(oc) ==> oc@ == pair_lookup(db@.outcomes, (txid@, out_idx)),
    {
        match db.outcome_index(txid, out_idx) {
            Some(i) => {
                let oc = db.outcomes[i].1.clone();
                proof {
                    assert(has_pair_key(db@.outcomes, (txid@, out_idx)));
                    let ki = pair_key_index(db@.outcomes, (txid@, out_idx));
                    assert(db@.outcomes[ki].0 == (txid@, out_idx));
                    assert(ki == i as int);
                }
                Some(oc)
            }
            None => None,
        }
    }

    /// Records the epoch's mint consensus items from the peers.
    pub fn begin_consensus_epoch(&self, db: &mut Database, items: &Vec<(u64, u64)>)
        ensures
            final(db)@ == (DatabaseV { mint_items: old(db)@.mint_items + items@, ..old(db)@ }),
    {
        let n = items.len();
        let mut k: usize = 0;
        while k < n
            invariant
                k <= n,
                n == items@.len(),
                db@.mint_items =~= old(db)@.mint_items + items@.take(k as int),
                db@.proposed == old(db)@.proposed,
                db@.accepted == old(db)@.accepted,
                db@.spent == old(db)@.spent,
                db@.claimed == old(db)@.claimed,
                db@.outcomes == old(db)@.outcomes,
                db@.wallet_items == old(db)@.wallet_items,
            decreases n - k,
        {
            let item = items[k];
            db.mint_items.push(item);
            k = k + 1;
            proof {
                assert(db@.mint_items =~= old(db)@.mint_items + items@.take(k as int));
            }
        }
        proof {
            assert(items@.take(n as int) =~= items@);
            assert(final(db)@ == (DatabaseV {
                mint_items: old(db)@.mint_items + items@,
                ..old(db)@
            }));
        }
    }

    /// The mint proposes no items of its own in this model.
    pub fn consensus_proposal(&self, _db: &Database) -> (r: Vec<u64>)
        ensures
            r@.len() == 0,
    {
        Vec::new()
    }

    /// The mint has no end-of-epoch work; the state is unchanged.
    pub fn end_consensus_epoch(&self, db: &mut Database)
        ensures
            final(db)@ == old(db)@,
    {
    }
}

} // verus!
