//! The replica's persisted state, modelled as a typed key-value store with
//! the scan order of insertion.  Every mutation is total and atomic: a
//! method either applies its whole effect or leaves the state unchanged.

use vstd::prelude::*;

use crate::bytes::{bytes_eq, clone_bytes};
use crate::transaction::{
    conflicts, distinct_seq, flat_nonces, flat_utxos, IssuanceRequest, OutputV, PegOutRequest,
    Transaction, TransactionV, UtxoRef,
};

verus! {

/// A transaction accepted by consensus, together with the epoch that
/// accepted it.
#[derive(Debug)]
pub struct AcceptedTransaction {
    pub epoch: u64,
    pub transaction: Transaction,
}

pub struct AcceptedTransactionV {
    pub epoch: u64,
    pub transaction: TransactionV,
}

impl View for AcceptedTransaction {
    type V = AcceptedTransactionV;

    open spec fn view(&self) -> AcceptedTransactionV {
        AcceptedTransactionV { epoch: self.epoch, transaction: self.transaction@ }
    }
}

/// The recorded result of one applied transaction output.
#[derive(Debug, PartialEq, Eq)]
pub enum OutputOutcome {
    Mint(IssuanceRequest),
    Wallet(PegOutRequest),
}

pub enum OutputOutcomeV {
    Mint { blinded: bls12_381::G1Affine, amount: u64 },
    Wallet { address: Seq<u8>, amount: u64 },
}

impl View for OutputOutcome {
    type V = OutputOutcomeV;

    open spec fn view(&self) -> OutputOutcomeV {
        match self {
            OutputOutcome::Mint(i) => OutputOutcomeV::Mint {
                blinded: i.blinded.0,
                amount: i.amount,
            },
            OutputOutcome::Wallet(p) => OutputOutcomeV::Wallet {
                address: p.address@,
                amount: p.amount,
            },
        }
    }
}

impl Clone for OutputOutcome {
    /// A deep copy with the same view.
    fn clone(&self) -> (r: Self)
        ensures
            r@ == self@,
    {
        match self {
            OutputOutcome::Mint(i) => OutputOutcome::Mint(*i),
            OutputOutcome::Wallet(p) => OutputOutcome::Wallet(
                PegOutRequest { address: clone_bytes(&p.address), amount: p.amount },
            ),
        }
    }
}

// ---------------------------------------------------------------------------
// Spec-level association lists
// ---------------------------------------------------------------------------

pub open spec fn has_key<T>(s: Seq<(Seq<u8>, T)>, k: Seq<u8>) -> bool {
    exists|i: int| 0 <= i < s.len() && (#[trigger] s[i]).0 == k
}

pub open spec fn key_index<T>(s: Seq<(Seq<u8>, T)>, k: Seq<u8>) -> int {
    choose|i: int| 0 <= i < s.len() && (#[trigger] s[i]).0 == k
}

pub open spec fn lookup<T>(s: Seq<(Seq<u8>, T)>, k: Seq<u8>) -> T {
    s[key_index(s, k)].1
}

pub open spec fn distinct_keys<T>(s: Seq<(Seq<u8>, T)>) -> bool {
    forall|i: int, j: int| 0 <= i < j < s.len() ==> (#[trigger] s[i]).0 != (#[trigger] s[j]).0
}

/// Insert-or-replace under a key, keeping the scan position of an existing
/// entry.
pub open spec fn upsert<T>(s: Seq<(Seq<u8>, T)>, k: Seq<u8>, v: T) -> Seq<(Seq<u8>, T)> {
    if has_key(s, k) {
        s.update(key_index(s, k), (k, v))
    } else {
        s.push((k, v))
    }
}

/// Removal of every entry under a key.
pub open spec fn remove_key<T>(s: Seq<(Seq<u8>, T)>, k: Seq<u8>) -> Seq<(Seq<u8>, T)>
    decreases s.len(),
{
    if s.len() == 0 {
        Seq::empty()
    } else if s[0].0 == k {
        remove_key(s.drop_first(), k)
    } else {
        seq![s[0]] + remove_key(s.drop_first(), k)
    }
}

pub open spec fn pair_key_distinct<T>(s: Seq<((Seq<u8>, u64), T)>) -> bool {
    forall|i: int, j: int| 0 <= i < j < s.len() ==> (#[trigger] s[i]).0 != (#[trigger] s[j]).0
}

pub open spec fn has_pair_key<T>(s: Seq<((Seq<u8>, u64), T)>, k: (Seq<u8>, u64)) -> bool {
    exists|i: int| 0 <= i < s.len() && (#[trigger] s[i]).0 == k
}

pub open spec fn pair_key_index<T>(s: Seq<((Seq<u8>, u64), T)>, k: (Seq<u8>, u64)) -> int {
    choose|i: int| 0 <= i < s.len() && (#[trigger] s[i]).0 == k
}

pub open spec fn pair_lookup<T>(s: Seq<((Seq<u8>, u64), T)>, k: (Seq<u8>, u64)) -> T {
    s[pair_key_index(s, k)].1
}

// ---------------------------------------------------------------------------
// The database
// ---------------------------------------------------------------------------

/// All state the replica persists: the proposed-transaction pool, the
/// accepted transactions, the consumed input resources, the recorded output
/// outcomes, and the per-module logs of consensus items.
pub struct Database {
    pub proposed: Vec<(Vec<u8>, Transaction)>,
    pub accepted: Vec<(Vec<u8>, AcceptedTransaction)>,
    pub spent_nonces: Vec<u64>,
    pub claimed_utxos: Vec<UtxoRef>,
    pub outcomes: Vec<((Vec<u8>, u64), OutputOutcome)>,
    pub mint_items: Vec<(u64, u64)>,
    pub wallet_items: Vec<(u64, u64)>,
}

pub struct DatabaseV {
    pub proposed: Seq<(Seq<u8>, TransactionV)>,
    pub accepted: Seq<(Seq<u8>, AcceptedTransactionV)>,
    pub spent: Seq<u64>,
    pub claimed: Seq<UtxoRef>,
    pub outcomes: Seq<((Seq<u8>, u64), OutputOutcomeV)>,
    pub mint_items: Seq<(u64, u64)>,
    pub wallet_items: Seq<(u64, u64)>,
}

impl View for Database {
    type V = DatabaseV;

    open spec fn view(&self) -> DatabaseV {
        DatabaseV {
            proposed: self.proposed@.map_values(|p: (Vec<u8>, Transaction)| (p.0@, p.1@)),
            accepted: self.accepted@.map_values(
                |p: (Vec<u8>, AcceptedTransaction)| (p.0@, p.1@),
            ),
            spent: self.spent_nonces@,
            claimed: self.claimed_utxos@,
            outcomes: self.outcomes@.map_values(
                |p: ((Vec<u8>, u64), OutputOutcome)| ((p.0.0@, p.0.1), p.1@),
            ),
            mint_items: self.mint_items@,
            wallet_items: self.wallet_items@,
        }
    }
}

/// The recorded outcome restates the applied output.
pub open spec fn outcome_matches(o: OutputV, oc: OutputOutcomeV) -> bool {
    match o {
        OutputV::Coins { blinded, amount } => oc == OutputOutcomeV::Mint { blinded, amount },
        OutputV::PegOut { address, amount } => oc == OutputOutcomeV::Wallet { address, amount },
    }
}

/// One accepted entry is fully accounted for: its input resources are
/// recorded as consumed, they are internally distinct, and every output has
/// a recorded outcome of the matching module.
pub open spec fn accepted_entry_ok(dv: DatabaseV, k: Seq<u8>, a: AcceptedTransactionV) -> bool {
    &&& distinct_seq(flat_nonces(a.transaction))
    &&& distinct_seq(flat_utxos(a.transaction))
    &&& forall|n: u64|
        flat_nonces(a.transaction).contains(n) ==> #[trigger] dv.spent.contains(n)
    &&& forall|u: UtxoRef|
        flat_utxos(a.transaction).contains(u) ==> #[trigger] dv.claimed.contains(u)
    &&& forall|oi: int|
        0 <= oi < a.transaction.outputs.len() ==> #[trigger] has_pair_key(
            dv.outcomes,
            (k, oi as u64),
        )
    &&& forall|oi: int|
        0 <= oi < a.transaction.outputs.len() ==> outcome_matches(
            #[trigger] a.transaction.outputs[oi],
            pair_lookup(dv.outcomes, (k, oi as u64)),
        )
}

/// Well-formedness of the persisted state: unique keys everywhere, every
/// accepted transaction accounted for, outcome entries only for accepted
/// transactions, and no two accepted transactions sharing an input
/// resource.
pub open spec fn db_wf(dv: DatabaseV) -> bool {
    &&& distinct_keys(dv.proposed)
    &&& distinct_keys(dv.accepted)
    &&& pair_key_distinct(dv.outcomes)
    &&& forall|i: int|
        0 <= i < dv.accepted.len() ==> accepted_entry_ok(
            dv,
            (#[trigger] dv.accepted[i]).0,
            dv.accepted[i].1,
        )
    &&& forall|i: int|
        0 <= i < dv.outcomes.len() ==> has_key(dv.accepted, (#[trigger] dv.outcomes[i]).0.0)
    &&& forall|i: int, j: int|
        0 <= i < j < dv.accepted.len() ==> !conflicts(
            (#[trigger] dv.accepted[i]).1.transaction,
            (#[trigger] dv.accepted[j]).1.transaction,
        )
}

/// Removing a key keeps the remaining keys distinct and introduces none.
pub proof fn lemma_remove_key_keys<T>(s: Seq<(Seq<u8>, T)>, k: Seq<u8>)
    requires
        distinct_keys(s),
    ensures
        distinct_keys(remove_key(s, k)),
        forall|k2: Seq<u8>| #[trigger] has_key(remove_key(s, k), k2) ==> has_key(s, k2),
    decreases s.len(),
{
    if s.len() == 0 {
    } else {
        let tail = s.drop_first();
        assert forall|i: int, j: int| 0 <= i < j < tail.len() implies (#[trigger] tail[i]).0 != (
            #[trigger] tail[j]).0 by {
            assert(tail[i] == s[i + 1]);
            assert(tail[j] == s[j + 1]);
        }
        lemma_remove_key_keys(tail, k);
        let r = remove_key(tail, k);
        if s[0].0 == k {
            assert(remove_key(s, k) == r);
            assert forall|k2: Seq<u8>| #[trigger] has_key(remove_key(s, k), k2) implies has_key(
                s,
                k2,
            ) by {
                assert(has_key(tail, k2));
                let m = choose|m: int| 0 <= m < tail.len() && tail[m].0 == k2;
                assert(s[m + 1].0 == k2);
            }
        } else {
            let res = seq![s[0]] + r;
            assert(remove_key(s, k) == res);
            assert forall|i: int, j: int| 0 <= i < j < res.len() implies (#[trigger] res[i]).0 != (
                #[trigger] res[j]).0 by {
                if i == 0 {
                    assert(res[j] == r[j - 1]);
                    assert(has_key(r, r[j - 1].0));
                    assert(has_key(tail, r[j - 1].0));
                    let m = choose|m: int| 0 <= m < tail.len() && tail[m].0 == r[j - 1].0;
                    assert(s[m + 1].0 == r[j - 1].0);
                    assert(s[0].0 != s[m + 1].0);
                } else {
                    assert(res[i] == r[i - 1]);
                    assert(res[j] == r[j - 1]);
                }
            }
            assert forall|k2: Seq<u8>| #[trigger] has_key(res, k2) implies has_key(s, k2) by {
                let m = choose|m: int| 0 <= m < res.len() && res[m].0 == k2;
                if m == 0 {
                    assert(s[0].0 == k2);
                } else {
                    assert(res[m] == r[m - 1]);
                    assert(has_key(r, k2));
                    assert(has_key(tail, k2));
                    let m2 = choose|m2: int| 0 <= m2 < tail.len() && tail[m2].0 == k2;
                    assert(s[m2 + 1].0 == k2);
                }
            }
        }
    }
}

/// Well-formedness depends only on the accepted entries, the consumed
/// resources, the outcomes, and the distinctness of the proposed keys: a
/// state that differs only in the pool and the item logs is well-formed
/// too.
pub proof fn lemma_wf_frame(dv1: DatabaseV, dv2: DatabaseV)
    requires
        db_wf(dv1),
        dv2.accepted == dv1.accepted,
        dv2.spent == dv1.spent,
        dv2.claimed == dv1.claimed,
        dv2.outcomes == dv1.outcomes,
        distinct_keys(dv2.proposed),
    ensures
        db_wf(dv2),
{
    assert forall|i: int|
        0 <= i < dv2.accepted.len() implies accepted_entry_ok(
        dv2,
        (#[trigger] dv2.accepted[i]).0,
        dv2.accepted[i].1,
    ) by {
        let k = dv1.accepted[i].0;
        let a = dv1.accepted[i].1;
        assert(accepted_entry_ok(dv1, k, a));
        assert(dv2.accepted[i] == dv1.accepted[i]);
        assert forall|n: u64| flat_nonces(a.transaction).contains(n) implies
            dv2.spent.contains(n) by {
            assert(dv1.spent.contains(n));
        }
        assert forall|u: UtxoRef| flat_utxos(a.transaction).contains(u) implies
            dv2.claimed.contains(u) by {
            assert(dv1.claimed.contains(u));
        }
        assert forall|oi: int| 0 <= oi < a.transaction.outputs.len() implies #[trigger]
            has_pair_key(dv2.outcomes, (k, oi as u64)) by {
            assert(has_pair_key(dv1.outcomes, (k, oi as u64)));
        }
        assert forall|oi: int| 0 <= oi < a.transaction.outputs.len() implies outcome_matches(
            #[trigger] a.transaction.outputs[oi],
            pair_lookup(dv2.outcomes, (k, oi as u64)),
        ) by {
            assert(outcome_matches(
                a.transaction.outputs[oi],
                pair_lookup(dv1.outcomes, (k, oi as u64)),
            ));
        }
    }
    assert forall|i: int|
        0 <= i < dv2.outcomes.len() implies has_key(
        dv2.accepted,
        (#[trigger] dv2.outcomes[i]).0.0,
    ) by {
        assert(has_key(dv1.accepted, dv1.outcomes[i].0.0));
    }
}

/// At-most-once spend: a coin note spent by one accepted transaction is
/// spent by no other accepted transaction.
pub proof fn lemma_at_most_once_spend(dv: DatabaseV, i: int, j: int, n: u64)
    requires
        db_wf(dv),
        0 <= i < dv.accepted.len(),
        0 <= j < dv.accepted.len(),
        i != j,
        flat_nonces(dv.accepted[i].1.transaction).contains(n),
    ensures
        !flat_nonces(dv.accepted[j].1.transaction).contains(n),
{
    if flat_nonces(dv.accepted[j].1.transaction).contains(n) {
        if i < j {
            assert(conflicts(dv.accepted[i].1.transaction, dv.accepted[j].1.transaction));
        } else {
            assert(conflicts(dv.accepted[j].1.transaction, dv.accepted[i].1.transaction));
        }
    }
}

/// At-most-once claim: a peg-in output claimed by one accepted transaction
/// is claimed by no other accepted transaction.
pub proof fn lemma_at_most_once_claim(dv: DatabaseV, i: int, j: int, u: UtxoRef)
    requires
        db_wf(dv),
        0 <= i < dv.accepted.len(),
        0 <= j < dv.accepted.len(),
        i != j,
        flat_utxos(dv.accepted[i].1.transaction).contains(u),
    ensures
        !flat_utxos(dv.accepted[j].1.transaction).contains(u),
{
    if flat_utxos(dv.accepted[j].1.transaction).contains(u) {
        if i < j {
            assert(conflicts(dv.accepted[i].1.transaction, dv.accepted[j].1.transaction));
        } else {
            assert(conflicts(dv.accepted[j].1.transaction, dv.accepted[i].1.transaction));
        }
    }
}

/// Within one accepted transaction no input resource repeats.
pub proof fn lemma_accepted_inputs_distinct(dv: DatabaseV, i: int)
    requires
        db_wf(dv),
        0 <= i < dv.accepted.len(),
    ensures
        distinct_seq(flat_nonces(dv.accepted[i].1.transaction)),
        distinct_seq(flat_utxos(dv.accepted[i].1.transaction)),
{
    assert(accepted_entry_ok(dv, dv.accepted[i].0, dv.accepted[i].1));
}

impl Database {
    /// An empty store.
    pub fn new() -> (r: Database)
        ensures
            r@.proposed.len() == 0,
            r@.accepted.len() == 0,
            r@.spent.len() == 0,
            r@.claimed.len() == 0,
            r@.outcomes.len() == 0,
            r@.mint_items.len() == 0,
            r@.wallet_items.len() == 0,
            db_wf(r@),
    {
        Database {
            proposed: Vec::new(),
            accepted: Vec::new(),
            spent_nonces: Vec::new(),
            claimed_utxos: Vec::new(),
            outcomes: Vec::new(),
            mint_items: Vec::new(),
            wallet_items: Vec::new(),
        }
    }

    /// The position of a proposed entry under the key, if any.
    pub fn proposed_index(&self, key: &Vec<u8>) -> (r: Option<usize>)
        ensures
            r matches Some(i) ==> i < self@.proposed.len() && self@.proposed[i as int].0 == key@,
            r is None ==> !has_key(self@.proposed, key@),
    {
        let n = self.proposed.len();
        let mut i: usize = 0;
        while i < n
            invariant
                i <= n,
                n == self.proposed@.len(),
                self@.proposed.len() == n,
                forall|j: int|
                    0 <= j < n ==> #[trigger] self@.proposed[j] == (
                        self.proposed@[j].0@,
                        self.proposed@[j].1@,
                    ),
                forall|j: int| 0 <= j < i ==> (#[trigger] self@.proposed[j]).0 != key@,
            decreases n - i,
        {
            if bytes_eq(&self.proposed[i].0, key) {
                return Some(i);
            }
            i = i + 1;
        }
        None
    }

    /// The position of an accepted entry under the key, if any.
    pub fn accepted_index(&self, key: &Vec<u8>) -> (r: Option<usize>)
        ensures
            r matches Some(i) ==> i < self@.accepted.len() && self@.accepted[i as int].0 == key@,
            r is None ==> !has_key(self@.accepted, key@),
    {
        let n = self.accepted.len();
        let mut i: usize = 0;
        while i < n
            invariant
                i <= n,
                n == self.accepted@.len(),
                self@.accepted.len() == n,
                forall|j: int|
                    0 <= j < n ==> #[trigger] self@.accepted[j] == (
                        self.accepted@[j].0@,
                        self.accepted@[j].1@,
                    ),
                forall|j: int| 0 <= j < i ==> (#[trigger] self@.accepted[j]).0 != key@,
            decreases n - i,
        {
            if bytes_eq(&self.accepted[i].0, key) {
                return Some(i);
            }
            i = i + 1;
        }
        None
    }

    /// Whether a coin nonce is already recorded as spent.
    pub fn spent_contains(&self, nonce: u64) -> (r: bool)
        ensures
            r <==> self@.spent.contains(nonce),
    {
        let n = self.spent_nonces.len();
        let mut i: usize = 0;
        while i < n
            invariant
                i <= n,
                n == self.spent_nonces@.len(),
                forall|j: int| 0 <= j < i ==> self.spent_nonces@[j] != nonce,
            decreases n - i,
        {
            if self.spent_nonces[i] == nonce {
                return true;
            }
            i = i + 1;
        }
        proof {
            assert(forall|j: int|
                0 <= j < self@.spent.len() ==> self@.spent[j] != nonce);
        }
        false
    }

    /// Whether a peg-in output is already recorded as claimed.
    pub fn claimed_contains(&self, utxo: &UtxoRef) -> (r: bool)
        ensures
            r <==> self@.claimed.contains(*utxo),
    {
        let n = self.claimed_utxos.len();
        let mut i: usize = 0;
        while i < n
            invariant
                i <= n,
                n == self.claimed_utxos@.len(),
                forall|j: int| 0 <= j < i ==> self.claimed_utxos@[j] != *utxo,
            decreases n - i,
        {
            if self.claimed_utxos[i].txid == utxo.txid && self.claimed_utxos[i].vout == utxo.vout {
                proof {
                    assert(self.claimed_utxos@[i as int] == *utxo);
                }
                return true;
            }
            i = i + 1;
        }
        false
    }

    /// Inserts or replaces the proposed entry under the key, keeping the
    /// scan position of a replaced entry.
    pub fn upsert_proposed(&mut self, key: Vec<u8>, tx: Transaction)
        requires
            distinct_keys(old(self)@.proposed),
        ensures
            final(self)@ == (DatabaseV {
                proposed: upsert(old(self)@.proposed, key@, tx@),
                ..old(self)@
            }),
    {
        let ghost kv = key@;
        let ghost txv = tx@;
        match self.proposed_index(&key) {
            Some(i) => {
                self.proposed.set(i, (key, tx));
                proof {
                    assert(has_key(old(self)@.proposed, kv));
                    let ki = key_index(old(self)@.proposed, kv);
                    assert(old(self)@.proposed[ki].0 == kv);
                    assert(ki == i as int);
                    assert(final(self)@.proposed =~= upsert(old(self)@.proposed, kv, txv));
                }
            }
            None => {
                self.proposed.push((key, tx));
                proof {
                    assert(final(self)@.proposed =~= upsert(old(self)@.proposed, kv, txv));
                }
            }
        }
    }

    /// Removes every proposed entry under the key.
    pub fn remove_proposed(&mut self, key: &Vec<u8>)
        ensures
            final(self)@ == (DatabaseV {
                proposed: remove_key(old(self)@.proposed, key@),
                ..old(self)@
            }),
    {
        let mut out: Vec<(Vec<u8>, Transaction)> = Vec::new();
        let ghost all = old(self)@.proposed;
        proof {
            assert(self@.proposed.skip(0) =~= self@.proposed);
        }
        let n = self.proposed.len();
        let mut i: usize = 0;
        while i < n
            invariant
                i <= n,
                n == self.proposed@.len(),
                self@.proposed.len() == n,
                self@.proposed == all,
                forall|j: int|
                    0 <= j < n ==> #[trigger] self@.proposed[j] == (
                        self.proposed@[j].0@,
                        self.proposed@[j].1@,
                    ),
                out@.map_values(|p: (Vec<u8>, Transaction)| (p.0@, p.1@)) + remove_key(
                    all.skip(i as int),
                    key@,
                ) == remove_key(all, key@),
            decreases n - i,
        {
            proof {
                assert(all.skip(i as int).drop_first() =~= all.skip(i as int + 1));
                assert(all.skip(i as int)[0] == all[i as int]);
            }
            if !bytes_eq(&self.proposed[i].0, key) {
                let entry_key = clone_bytes(&self.proposed[i].0);
                let entry_tx = self.proposed[i].1.clone();
                out.push((entry_key, entry_tx));
                proof {
                    assert(out@.map_values(|p: (Vec<u8>, Transaction)| (p.0@, p.1@)) + remove_key(
                        all.skip(i as int + 1),
                        key@,
                    ) =~= remove_key(all, key@));
                }
            }
            i = i + 1;
        }
        proof {
            assert(remove_key(all.skip(n as int), key@) =~= Seq::<(Seq<u8>, TransactionV)>::empty());
            assert(out@.map_values(|p: (Vec<u8>, Transaction)| (p.0@, p.1@)) =~= remove_key(
                all,
                key@,
            ));
        }
        self.proposed = out;
    }

    /// The position of a recorded outcome under `(key, out_idx)`, if any.
    pub fn outcome_index(&self, key: &Vec<u8>, out_idx: u64) -> (r: Option<usize>)
        ensures
            r matches Some(i) ==> i < self@.outcomes.len() && self@.outcomes[i as int].0 == (
                key@,
                out_idx,
            ),
            r is None ==> !has_pair_key(self@.outcomes, (key@, out_idx)),
    {
        let n = self.outcomes.len();
        let mut i: usize = 0;
        while i < n
            invariant
                i <= n,
                n == self.outcomes@.len(),
                self@.outcomes.len() == n,
                forall|j: int|
                    0 <= j < n ==> #[trigger] self@.outcomes[j] == (
                        (self.outcomes@[j].0.0@, self.outcomes@[j].0.1),
                        self.outcomes@[j].1@,
                    ),
                forall|j: int| 0 <= j < i ==> (#[trigger] self@.outcomes[j]).0 != (key@, out_idx),
            decreases n - i,
        {
            if self.outcomes[i].0.1 == out_idx && bytes_eq(&self.outcomes[i].0.0, key) {
                return Some(i);
            }
            i = i + 1;
        }
        None
    }
}

} // verus!
