//! The epoch conflict filter: among the transactions of one consensus
//! outcome, the first occurrence wins and every later transaction that
//! spends a coin note or claims a peg-in output already taken by a kept
//! transaction is dropped.  The surviving set is a function of the input
//! sequence alone, so every replica that sees the same outcome keeps the
//! same transactions.

use vstd::prelude::*;

use crate::transaction::{
    collect_nonces, collect_utxos, conflicts, flat_nonces, flat_utxos, Transaction, TransactionV,
    UtxoRef,
};

verus! {

/// The view of a sequence of `(peer, transaction)` pairs.
pub open spec fn pairs_view(s: Seq<(u64, Transaction)>) -> Seq<(u64, TransactionV)> {
    s.map_values(|p: (u64, Transaction)| (p.0, p.1@))
}

/// Whether a transaction conflicts with any already-kept transaction.
pub open spec fn conflicts_with_any(kept: Seq<(u64, TransactionV)>, t: TransactionV) -> bool {
    exists|k: int| 0 <= k < kept.len() && conflicts((#[trigger] kept[k]).1, t)
}

/// The filter, front to back: a transaction is kept exactly when it does
/// not conflict with a transaction kept before it.
pub open spec fn filter_rec(
    items: Seq<(u64, TransactionV)>,
    kept: Seq<(u64, TransactionV)>,
) -> Seq<(u64, TransactionV)>
    decreases items.len(),
{
    if items.len() == 0 {
        kept
    } else if conflicts_with_any(kept, items[0].1) {
        filter_rec(items.drop_first(), kept)
    } else {
        filter_rec(items.drop_first(), kept.push(items[0]))
    }
}

/// The deterministic conflict filter of one epoch's transactions.
pub open spec fn filter_spec(items: Seq<(u64, TransactionV)>) -> Seq<(u64, TransactionV)> {
    filter_rec(items, Seq::empty())
}

/// No two entries of the sequence conflict.
pub open spec fn pairwise_nonconflicting(s: Seq<(u64, TransactionV)>) -> bool {
    forall|i: int, j: int|
        0 <= i < j < s.len() ==> !conflicts((#[trigger] s[i]).1, (#[trigger] s[j]).1)
}

fn contains_u64(v: &Vec<u64>, x: u64) -> (r: bool)
    ensures
        r <==> v@.contains(x),
{
    let n = v.len();
    let mut i: usize = 0;
    while i < n
        invariant
            i <= n,
            n == v@.len(),
            forall|j: int| 0 <= j < i ==> v@[j] != x,
        decreases n - i,
    {
        if v[i] == x {
            return true;
        }
        i = i + 1;
    }
    false
}

fn contains_utxo(v: &Vec<UtxoRef>, x: &UtxoRef) -> (r: bool)
    ensures
        r <==> v@.contains(*x),
{
    let n = v.len();
    let mut i: usize = 0;
    while i < n
        invariant
            i <= n,
            n == v@.len(),
            forall|j: int| 0 <= j < i ==> v@[j] != *x,
        decreases n - i,
    {
        if v[i].txid == x.txid && v[i].vout == x.vout {
            proof {
                assert(v@[i as int] == *x);
            }
            return true;
        }
        i = i + 1;
    }
    false
}

/// Whether the transaction shares a nonce with `seen_n` or a peg-in output
/// with `seen_u`.
fn hits_seen(seen_n: &Vec<u64>, seen_u: &Vec<UtxoRef>, tx: &Transaction) -> (r: bool)
    ensures
        r <==> (exists|n: u64| seen_n@.contains(n) && flat_nonces(tx@).contains(n)) || (exists|
            u: UtxoRef,
        | seen_u@.contains(u) && flat_utxos(tx@).contains(u)),
{
    let nonces = collect_nonces(tx);
    let ln = nonces.len();
    let mut i: usize = 0;
    while i < ln
        invariant
            i <= ln,
            ln == nonces@.len(),
            nonces@ == flat_nonces(tx@),
            forall|j: int| 0 <= j < i ==> !seen_n@.contains(#[trigger] nonces@[j]),
        decreases ln - i,
    {
        if contains_u64(seen_n, nonces[i]) {
            proof {
                assert(flat_nonces(tx@).contains(nonces@[i as int]));
            }
            return true;
        }
        i = i + 1;
    }
    let utxos = collect_utxos(tx);
    let lu = utxos.len();
    let mut k: usize = 0;
    while k < lu
        invariant
            k <= lu,
            lu == utxos@.len(),
            utxos@ == flat_utxos(tx@),
            nonces@ == flat_nonces(tx@),
            forall|j: int| 0 <= j < nonces@.len() ==> !seen_n@.contains(#[trigger] nonces@[j]),
            forall|j: int| 0 <= j < k ==> !seen_u@.contains(#[trigger] utxos@[j]),
        decreases lu - k,
    {
        if contains_utxo(seen_u, &utxos[k]) {
            proof {
                assert(flat_utxos(tx@).contains(utxos@[k as int]));
            }
            return true;
        }
        k = k + 1;
    }
    proof {
        assert forall|n: u64| !(seen_n@.contains(n) && flat_nonces(tx@).contains(n)) by {
            if flat_nonces(tx@).contains(n) {
                let j = choose|j: int| 0 <= j < nonces@.len() && nonces@[j] == n;
                assert(!seen_n@.contains(nonces@[j]));
            }
        }
        assert forall|u: UtxoRef| !(seen_u@.contains(u) && flat_utxos(tx@).contains(u)) by {
            if flat_utxos(tx@).contains(u) {
                let j = choose|j: int| 0 <= j < utxos@.len() && utxos@[j] == u;
                assert(!seen_u@.contains(utxos@[j]));
            }
        }
    }
    false
}

/// Filters one epoch's `(peer, transaction)` sequence: keeps each
/// transaction that conflicts with no earlier-kept one.
pub fn filter_conflicts(items: Vec<(u64, Transaction)>) -> (r: Vec<(u64, Transaction)>)
    ensures
        pairs_view(r@) == filter_spec(pairs_view(items@)),
{
    let ghost all = pairs_view(items@);
    let mut rest = items;
    let mut kept: Vec<(u64, Transaction)> = Vec::new();
    let mut seen_n: Vec<u64> = Vec::new();
    let mut seen_u: Vec<UtxoRef> = Vec::new();
    proof {
        assert(pairs_view(rest@) =~= all);
        assert(pairs_view(kept@) =~= Seq::<(u64, TransactionV)>::empty());
    }
    while rest.len() > 0
        invariant
            filter_rec(pairs_view(rest@), pairs_view(kept@)) == filter_spec(all),
            forall|n: u64|
                seen_n@.contains(n) <==> exists|k: int|
                    0 <= k < pairs_view(kept@).len() && flat_nonces(
                        (#[trigger] pairs_view(kept@)[k]).1,
                    ).contains(n),
            forall|u: UtxoRef|
                seen_u@.contains(u) <==> exists|k: int|
                    0 <= k < pairs_view(kept@).len() && flat_utxos(
                        (#[trigger] pairs_view(kept@)[k]).1,
                    ).contains(u),
        decreases rest@.len(),
    {
        let ghost before = pairs_view(rest@);
        let it = rest.remove(0);
        let ghost prev_rest = seq![(it.0, it.1@)] + pairs_view(rest@);
        proof {
            assert(before =~= prev_rest);
            assert(prev_rest[0] == (it.0, it.1@));
            assert(prev_rest.drop_first() =~= pairs_view(rest@));
        }
        let hit = hits_seen(&seen_n, &seen_u, &it.1);
        proof {
            let keptv = pairs_view(kept@);
            if hit {
                if exists|n: u64| seen_n@.contains(n) && flat_nonces(it.1@).contains(n) {
                    let n = choose|n: u64| seen_n@.contains(n) && flat_nonces(it.1@).contains(n);
                    let k = choose|k: int|
                        0 <= k < keptv.len() && flat_nonces(keptv[k].1).contains(n);
                    assert(conflicts(keptv[k].1, it.1@));
                } else {
                    let u = choose|u: UtxoRef|
                        seen_u@.contains(u) && flat_utxos(it.1@).contains(u);
                    let k = choose|k: int|
                        0 <= k < keptv.len() && flat_utxos(keptv[k].1).contains(u);
                    assert(conflicts(keptv[k].1, it.1@));
                }
                assert(conflicts_with_any(keptv, it.1@));
            } else {
                assert forall|k: int| 0 <= k < keptv.len() implies !conflicts(
                    (#[trigger] keptv[k]).1,
                    it.1@,
                ) by {
                    if exists|n: u64|
                        flat_nonces(keptv[k].1).contains(n) && flat_nonces(it.1@).contains(n) {
                        let n = choose|n: u64|
                            flat_nonces(keptv[k].1).contains(n) && flat_nonces(it.1@).contains(n);
                        assert(seen_n@.contains(n));
                    }
                    if exists|u: UtxoRef|
                        flat_utxos(keptv[k].1).contains(u) && flat_utxos(it.1@).contains(u) {
                        let u = choose|u: UtxoRef|
                            flat_utxos(keptv[k].1).contains(u) && flat_utxos(it.1@).contains(u);
                        assert(seen_u@.contains(u));
                    }
                }
                assert(!conflicts_with_any(keptv, it.1@));
            }
        }
        if !hit {
            let mut add_n = collect_nonces(&it.1);
            let mut add_u = collect_utxos(&it.1);
            let ghost old_seen_n = seen_n@;
            let ghost old_seen_u = seen_u@;
            let ghost old_keptv = pairs_view(kept@);
            seen_n.append(&mut add_n);
            seen_u.append(&mut add_u);
            kept.push(it);
            proof {
                let keptv = pairs_view(kept@);
                assert(keptv =~= old_keptv.push((it.0, it.1@)));
                assert forall|n: u64|
                    seen_n@.contains(n) <==> exists|k: int|
                        0 <= k < keptv.len() && flat_nonces(
                            (#[trigger] keptv[k]).1,
                        ).contains(n) by {
                    if seen_n@.contains(n) {
                        let j = choose|j: int| 0 <= j < seen_n@.len() && seen_n@[j] == n;
                        if j < old_seen_n.len() {
                            assert(old_seen_n.contains(n));
                            let k = choose|k: int|
                                0 <= k < old_keptv.len() && flat_nonces(
                                    old_keptv[k].1,
                                ).contains(n);
                            assert(keptv[k].1 == old_keptv[k].1);
                            assert(flat_nonces(keptv[k].1).contains(n));
                        } else {
                            assert(flat_nonces(it.1@).contains(n));
                            assert(keptv[keptv.len() - 1].1 == it.1@);
                        }
                    }
                    if exists|k: int|
                        0 <= k < keptv.len() && flat_nonces((#[trigger] keptv[k]).1).contains(n) {
                        let k = choose|k: int|
                            0 <= k < keptv.len() && flat_nonces(
                                (#[trigger] keptv[k]).1,
                            ).contains(n);
                        if k < old_keptv.len() {
                            assert(old_keptv[k] == keptv[k]);
                            assert(old_seen_n.contains(n));
                            let j = choose|j: int|
                                0 <= j < old_seen_n.len() && old_seen_n[j] == n;
                            assert(seen_n@[j] == n);
                            assert(seen_n@.contains(n));
                        } else {
                            assert(keptv[k].1 == it.1@);
                            let j = choose|j: int|
                                0 <= j < flat_nonces(it.1@).len() && flat_nonces(it.1@)[j] == n;
                            assert(seen_n@[old_seen_n.len() + j] == n);
                            assert(seen_n@.contains(n));
                        }
                    }
                }
                assert forall|u: UtxoRef|
                    seen_u@.contains(u) <==> exists|k: int|
                        0 <= k < keptv.len() && flat_utxos(
                            (#[trigger] keptv[k]).1,
                        ).contains(u) by {
                    if seen_u@.contains(u) {
                        let j = choose|j: int| 0 <= j < seen_u@.len() && seen_u@[j] == u;
                        if j < old_seen_u.len() {
                            assert(old_seen_u.contains(u));
                            let k = choose|k: int|
                                0 <= k < old_keptv.len() && flat_utxos(
                                    old_keptv[k].1,
                                ).contains(u);
                            assert(keptv[k].1 == old_keptv[k].1);
                            assert(flat_utxos(keptv[k].1).contains(u));
                        } else {
                            assert(flat_utxos(it.1@).contains(u));
                            assert(keptv[keptv.len() - 1].1 == it.1@);
                        }
                    }
                    if exists|k: int|
                        0 <= k < keptv.len() && flat_utxos((#[trigger] keptv[k]).1).contains(u) {
                        let k = choose|k: int|
                            0 <= k < keptv.len() && flat_utxos(
                                (#[trigger] keptv[k]).1,
                            ).contains(u);
                        if k < old_keptv.len() {
                            assert(old_keptv[k] == keptv[k]);
                            assert(old_seen_u.contains(u));
                            let j = choose|j: int|
                                0 <= j < old_seen_u.len() && old_seen_u[j] == u;
                            assert(seen_u@[j] == u);
                            assert(seen_u@.contains(u));
                        } else {
                            assert(keptv[k].1 == it.1@);
                            let j = choose|j: int|
                                0 <= j < flat_utxos(it.1@).len() && flat_utxos(it.1@)[j] == u;
                            assert(seen_u@[old_seen_u.len() + j] == u);
                            assert(seen_u@.contains(u));
                        }
                    }
                }
            }
        }
    }
    proof {
        assert(pairs_view(rest@) =~= Seq::<(u64, TransactionV)>::empty());
    }
    kept
}

/// When no two transactions of the outcome conflict at all, the filter
/// keeps every one of them, in order.
pub proof fn lemma_filter_rec_no_conflicts(
    items: Seq<(u64, TransactionV)>,
    kept: Seq<(u64, TransactionV)>,
)
    requires
        pairwise_nonconflicting(items),
        forall|k: int, i: int|
            0 <= k < kept.len() && 0 <= i < items.len() ==> !conflicts(
                (#[trigger] kept[k]).1,
                (#[trigger] items[i]).1,
            ),
    ensures
        filter_rec(items, kept) == kept + items,
    decreases items.len(),
{
    if items.len() == 0 {
        assert(kept + items =~= kept);
    } else {
        let h = items[0];
        let tail = items.drop_first();
        assert(!conflicts_with_any(kept, h.1));
        let kept2 = kept.push(h);
        assert forall|i: int, j: int| 0 <= i < j < tail.len() implies !conflicts(
            (#[trigger] tail[i]).1,
            (#[trigger] tail[j]).1,
        ) by {
            assert(tail[i] == items[i + 1]);
            assert(tail[j] == items[j + 1]);
        }
        assert forall|k: int, i: int|
            0 <= k < kept2.len() && 0 <= i < tail.len() implies !conflicts(
            (#[trigger] kept2[k]).1,
            (#[trigger] tail[i]).1,
        ) by {
            assert(tail[i] == items[i + 1]);
            if k < kept.len() {
                assert(kept2[k] == kept[k]);
            } else {
                assert(kept2[k] == items[0]);
            }
        }
        lemma_filter_rec_no_conflicts(tail, kept2);
        assert(kept2 + tail =~= kept + items);
    }
}

/// The filter never drops anything from a conflict-free outcome.
pub proof fn lemma_filter_no_conflicts(items: Seq<(u64, TransactionV)>)
    requires
        pairwise_nonconflicting(items),
    ensures
        filter_spec(items) == items,
{
    lemma_filter_rec_no_conflicts(items, Seq::empty());
    assert(Seq::<(u64, TransactionV)>::empty() + items =~= items);
}

pub proof fn lemma_filter_rec_pairwise(
    items: Seq<(u64, TransactionV)>,
    kept: Seq<(u64, TransactionV)>,
)
    requires
        pairwise_nonconflicting(kept),
    ensures
        pairwise_nonconflicting(filter_rec(items, kept)),
    decreases items.len(),
{
    if items.len() == 0 {
    } else {
        let h = items[0];
        let tail = items.drop_first();
        if conflicts_with_any(kept, h.1) {
            lemma_filter_rec_pairwise(tail, kept);
        } else {
            let kept2 = kept.push(h);
            assert forall|i: int, j: int| 0 <= i < j < kept2.len() implies !conflicts(
                (#[trigger] kept2[i]).1,
                (#[trigger] kept2[j]).1,
            ) by {
                if j < kept.len() {
                    assert(kept2[i] == kept[i] && kept2[j] == kept[j]);
                } else {
                    assert(kept2[j] == h);
                    assert(kept2[i] == kept[i]);
                    assert(!conflicts_with_any(kept, h.1));
                    assert(!conflicts(kept[i].1, h.1));
                }
            }
            lemma_filter_rec_pairwise(tail, kept2);
        }
    }
}

/// What the filter keeps is pairwise conflict-free: within one epoch no
/// coin note and no peg-in output is consumed by two surviving
/// transactions.
pub proof fn lemma_filter_pairwise(items: Seq<(u64, TransactionV)>)
    ensures
        pairwise_nonconflicting(filter_spec(items)),
{
    lemma_filter_rec_pairwise(items, Seq::empty());
}

pub proof fn lemma_filter_rec_elements(
    items: Seq<(u64, TransactionV)>,
    kept: Seq<(u64, TransactionV)>,
)
    ensures
        forall|e: (u64, TransactionV)|
            #[trigger] filter_rec(items, kept).contains(e) ==> kept.contains(e)
                || items.contains(e),
    decreases items.len(),
{
    if items.len() == 0 {
    } else {
        let h = items[0];
        let tail = items.drop_first();
        if conflicts_with_any(kept, h.1) {
            lemma_filter_rec_elements(tail, kept);
            assert forall|e: (u64, TransactionV)|
                #[trigger] filter_rec(items, kept).contains(e) implies kept.contains(e)
                || items.contains(e) by {
                assert(filter_rec(tail, kept).contains(e));
                if tail.contains(e) {
                    let j = choose|j: int| 0 <= j < tail.len() && tail[j] == e;
                    assert(items[j + 1] == e);
                }
            }
        } else {
            lemma_filter_rec_elements(tail, kept.push(h));
            assert forall|e: (u64, TransactionV)|
                #[trigger] filter_rec(items, kept).contains(e) implies kept.contains(e)
                || items.contains(e) by {
                assert(filter_rec(tail, kept.push(h)).contains(e));
                if kept.push(h).contains(e) {
                    let j = choose|j: int| 0 <= j < kept.push(h).len() && kept.push(h)[j] == e;
                    if j < kept.len() {
                        assert(kept[j] == e);
                    } else {
                        assert(items[0] == e);
                    }
                } else if tail.contains(e) {
                    let j = choose|j: int| 0 <= j < tail.len() && tail[j] == e;
                    assert(items[j + 1] == e);
                }
            }
        }
    }
}

/// Every transaction the filter keeps came from the epoch's outcome.
pub proof fn lemma_filter_elements(items: Seq<(u64, TransactionV)>)
    ensures
        forall|e: (u64, TransactionV)|
            #[trigger] filter_spec(items).contains(e) ==> items.contains(e),
{
    lemma_filter_rec_elements(items, Seq::empty());
}

/// When no two transactions of an outcome conflict, any two orderings of
/// the same items survive as the same multiset: the kept set depends only
/// on which items were delivered, not on how the peers' contributions were
/// interleaved.
pub proof fn lemma_filter_multiset_invariant(
    a: Seq<(u64, TransactionV)>,
    b: Seq<(u64, TransactionV)>,
)
    requires
        a.to_multiset() == b.to_multiset(),
        pairwise_nonconflicting(a),
        pairwise_nonconflicting(b),
    ensures
        filter_spec(a).to_multiset() == filter_spec(b).to_multiset(),
{
    lemma_filter_no_conflicts(a);
    lemma_filter_no_conflicts(b);
}

} // verus!
