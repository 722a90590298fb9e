//! Ordering of the trade stream.
//!
//! Replay assumes fills arrive in the order they occurred, so the stream is
//! first sorted ascending by identifier. Ties between equal identifiers are
//! broken by original input order (the sort is stable), which makes the
//! result deterministic for every input.

use vstd::prelude::*;
use vstd::multiset::Multiset;
use crate::types::{TradeView, TradingHistoryItem, trade_views};

verus! {

/// Ascending by identifier.
pub open spec fn sorted_by_id(s: Seq<TradeView>) -> bool {
    forall|i: int, j: int| 0 <= i < j < s.len() ==> s[i].id <= s[j].id
}

/// No two fills share an identifier.
pub open spec fn distinct_ids(s: Seq<TradeView>) -> bool {
    forall|i: int, j: int| 0 <= i < j < s.len() ==> s[i].id != s[j].id
}

/// Insert `t` after every element whose identifier is at most `t.id`.
pub open spec fn insert_by_id(s: Seq<TradeView>, t: TradeView) -> Seq<TradeView>
    decreases s.len(),
{
    if s.len() == 0 {
        seq![t]
    } else if s.last().id <= t.id {
        s.push(t)
    } else {
        insert_by_id(s.drop_last(), t).push(s.last())
    }
}

/// Stable insertion sort by identifier: later input positions land after
/// earlier ones when identifiers tie.
pub open spec fn sort_by_id(s: Seq<TradeView>) -> Seq<TradeView>
    decreases s.len(),
{
    if s.len() == 0 {
        Seq::empty()
    } else {
        insert_by_id(sort_by_id(s.drop_last()), s.last())
    }
}

/// Each identifier occurs at most once in the multiset, and no two distinct
/// members share an identifier.
pub open spec fn unique_ids_multiset(m: Multiset<TradeView>) -> bool {
    (forall|x: TradeView| #[trigger] m.count(x) <= 1) && (forall|x: TradeView, y: TradeView|
        m.contains(x) && m.contains(y) && x != y ==> #[trigger] x.id != #[trigger] y.id)
}

pub proof fn lemma_insert_by_id_multiset(s: Seq<TradeView>, t: TradeView)
    ensures
        insert_by_id(s, t).to_multiset() == s.to_multiset().insert(t),
    decreases s.len(),
{
    broadcast use vstd::seq_lib::group_to_multiset_ensures;
    broadcast use vstd::multiset::group_multiset_axioms;

    if s.len() == 0 {
        assert(seq![t] =~= Seq::<TradeView>::empty().push(t));
        assert(Seq::<TradeView>::empty().to_multiset() =~= Multiset::<TradeView>::empty());
        assert(s =~= Seq::<TradeView>::empty());
        assert(insert_by_id(s, t).to_multiset() =~= s.to_multiset().insert(t));
    } else if s.last().id <= t.id {
        assert(insert_by_id(s, t).to_multiset() =~= s.to_multiset().insert(t));
    } else {
        let d = s.drop_last();
        lemma_insert_by_id_multiset(d, t);
        assert(s =~= d.push(s.last()));
        assert(s.to_multiset() =~= d.to_multiset().insert(s.last()));
        assert(insert_by_id(s, t).to_multiset() =~= insert_by_id(d, t).to_multiset().insert(
            s.last(),
        ));
        assert(d.to_multiset().insert(t).insert(s.last()) =~= d.to_multiset().insert(
            s.last(),
        ).insert(t));
        assert(insert_by_id(s, t).to_multiset() =~= s.to_multiset().insert(t));
    }
}

pub proof fn lemma_insert_by_id_sorted(s: Seq<TradeView>, t: TradeView)
    requires
        sorted_by_id(s),
    ensures
        sorted_by_id(insert_by_id(s, t)),
    decreases s.len(),
{
    broadcast use vstd::seq_lib::group_to_multiset_ensures;
    broadcast use vstd::multiset::group_multiset_axioms;

    if s.len() == 0 {
    } else if s.last().id <= t.id {
        assert forall|i: int, j: int|
            0 <= i < j < s.push(t).len() implies s.push(t)[i].id <= s.push(t)[j].id by {
            if j < s.len() {
            } else {
                assert(s.push(t)[j] == t);
                if i < s.len() - 1 {
                    assert(s[i].id <= s.last().id);
                }
            }
        }
    } else {
        let d = s.drop_last();
        assert(sorted_by_id(d));
        lemma_insert_by_id_sorted(d, t);
        lemma_insert_by_id_multiset(d, t);
        let r = insert_by_id(d, t);
        // every member of r is a member of d, or t itself; either way its
        // identifier is below s.last().id
        assert forall|k: int| 0 <= k < r.len() implies r[k].id <= s.last().id by {
            assert(r.contains(r[k]));
            assert(r.to_multiset().count(r[k]) > 0);
            if r[k] != t {
                assert(d.to_multiset().count(r[k]) > 0);
                assert(d.contains(r[k]));
                let m = choose|m: int| 0 <= m < d.len() && d[m] == r[k];
                assert(s[m].id <= s.last().id);
            }
        }
        assert forall|i: int, j: int|
            0 <= i < j < r.push(s.last()).len() implies r.push(s.last())[i].id <= r.push(
            s.last(),
        )[j].id by {
            if j < r.len() {
            } else {
                assert(r.push(s.last())[j] == s.last());
            }
        }
    }
}

pub proof fn lemma_sort_by_id_multiset(s: Seq<TradeView>)
    ensures
        sort_by_id(s).to_multiset() == s.to_multiset(),
    decreases s.len(),
{
    broadcast use vstd::seq_lib::group_to_multiset_ensures;
    broadcast use vstd::multiset::group_multiset_axioms;

    if s.len() == 0 {
        assert(sort_by_id(s).to_multiset() =~= s.to_multiset());
    } else {
        let d = s.drop_last();
        lemma_sort_by_id_multiset(d);
        lemma_insert_by_id_multiset(sort_by_id(d), s.last());
        assert(s =~= d.push(s.last()));
        assert(s.to_multiset() =~= d.to_multiset().insert(s.last()));
    }
}

pub proof fn lemma_sort_by_id_sorted(s: Seq<TradeView>)
    ensures
        sorted_by_id(sort_by_id(s)),
    decreases s.len(),
{
    if s.len() == 0 {
    } else {
        lemma_sort_by_id_sorted(s.drop_last());
        lemma_insert_by_id_sorted(sort_by_id(s.drop_last()), s.last());
    }
}

/// A sequence whose identifiers are pairwise distinct converts to a multiset
/// in which identifiers are unique.
pub proof fn lemma_distinct_ids_multiset(s: Seq<TradeView>)
    requires
        distinct_ids(s),
    ensures
        unique_ids_multiset(s.to_multiset()),
{
    broadcast use vstd::seq_lib::group_to_multiset_ensures;
    broadcast use vstd::multiset::group_multiset_axioms;

    assert forall|i: int, j: int|
        0 <= i < s.len() && 0 <= j < s.len() && i != j implies s[i] != s[j] by {
        if i < j {
            assert(s[i].id != s[j].id);
        } else {
            assert(s[j].id != s[i].id);
        }
    }
    assert(s.no_duplicates());
    s.lemma_multiset_has_no_duplicates();
    assert forall|x: TradeView| #[trigger] s.to_multiset().count(x) <= 1 by {
        if s.to_multiset().count(x) > 0 {
            assert(s.to_multiset().contains(x));
        }
    }
    assert forall|x: TradeView, y: TradeView|
        s.to_multiset().contains(x) && s.to_multiset().contains(y) && x != y implies #[trigger] x.id
        != #[trigger] y.id by {
        assert(s.contains(x));
        assert(s.contains(y));
        let i = choose|i: int| 0 <= i < s.len() && s[i] == x;
        let j = choose|j: int| 0 <= j < s.len() && s[j] == y;
        if i < j {
            assert(s[i].id != s[j].id);
        } else {
            assert(s[j].id != s[i].id);
        }
    }
}

/// Two sequences sorted by identifier, drawn from the same multiset whose
/// identifiers are unique, are the same sequence.
pub proof fn lemma_sorted_unique(s1: Seq<TradeView>, s2: Seq<TradeView>)
    requires
        sorted_by_id(s1),
        sorted_by_id(s2),
        s1.to_multiset() == s2.to_multiset(),
        unique_ids_multiset(s1.to_multiset()),
    ensures
        s1 == s2,
    decreases s1.len(),
{
    broadcast use vstd::seq_lib::group_to_multiset_ensures;
    broadcast use vstd::multiset::group_multiset_axioms;

    if s1.len() == 0 {
        assert(s2.len() == s2.to_multiset().len());
        assert(s1 =~= s2);
    } else {
        assert(s1.len() == s1.to_multiset().len());
        assert(s2.len() == s2.to_multiset().len());
        let e1 = s1.last();
        let e2 = s2.last();
        assert(s1.contains(e1));
        assert(s2.contains(e2));
        assert(s1.to_multiset().contains(e1));
        assert(s2.to_multiset().contains(e2));
        assert(s1.to_multiset().contains(e2));
        assert(s2.to_multiset().contains(e1));
        assert(s1.contains(e2));
        assert(s2.contains(e1));
        let i = choose|i: int| 0 <= i < s1.len() && s1[i] == e2;
        let j = choose|j: int| 0 <= j < s2.len() && s2[j] == e1;
        assert(s1[i].id <= e1.id);
        assert(s2[j].id <= e2.id);
        assert(e1.id == e2.id);
        assert(e1 == e2);
        let t1 = s1.drop_last();
        let t2 = s2.drop_last();
        assert(s1 =~= t1.push(e1));
        assert(s2 =~= t2.push(e1));
        assert(s1.to_multiset() =~= t1.to_multiset().insert(e1));
        assert(s2.to_multiset() =~= t2.to_multiset().insert(e1));
        assert forall|x: TradeView| #[trigger] t1.to_multiset().count(x) == t2.to_multiset().count(
            x,
        ) by {
            assert(t1.to_multiset().insert(e1).count(x) == t2.to_multiset().insert(e1).count(x));
        }
        assert(t1.to_multiset() =~= t2.to_multiset());
        assert forall|x: TradeView| #[trigger] t1.to_multiset().count(x) <= 1 by {
            assert(t1.to_multiset().count(x) <= s1.to_multiset().count(x));
        }
        assert forall|x: TradeView, y: TradeView|
            t1.to_multiset().contains(x) && t1.to_multiset().contains(y) && x != y implies #[trigger] x.id
            != #[trigger] y.id by {
            assert(s1.to_multiset().count(x) >= t1.to_multiset().count(x));
            assert(s1.to_multiset().count(y) >= t1.to_multiset().count(y));
            assert(s1.to_multiset().contains(x));
            assert(s1.to_multiset().contains(y));
        }
        assert(sorted_by_id(t1)) by {
            assert(forall|a: int, b: int|
                0 <= a < b < t1.len() ==> t1[a] == s1[a] && t1[b] == s1[b]);
        }
        assert(sorted_by_id(t2)) by {
            assert(forall|a: int, b: int|
                0 <= a < b < t2.len() ==> t2[a] == s2[a] && t2[b] == s2[b]);
        }
        lemma_sorted_unique(t1, t2);
        assert(s1 =~= s2);
    }
}

/// Where `insert_by_id` lands: if every element from `j` on has an
/// identifier above `t.id`, and the element before `j` (if any) does not,
/// the insertion is exactly `Seq::insert` at `j`.
proof fn lemma_insert_by_id_at(s: Seq<TradeView>, t: TradeView, j: int)
    requires
        0 <= j <= s.len(),
        forall|k: int| j <= k < s.len() ==> s[k].id > t.id,
        j > 0 ==> s[j - 1].id <= t.id,
    ensures
        insert_by_id(s, t) == s.insert(j, t),
    decreases s.len(),
{
    if j == s.len() {
        if s.len() == 0 {
            assert(insert_by_id(s, t) =~= s.insert(j, t));
        } else {
            assert(s.last().id <= t.id);
            assert(insert_by_id(s, t) =~= s.insert(j, t));
        }
    } else {
        assert(s.last().id > t.id);
        let d = s.drop_last();
        lemma_insert_by_id_at(d, t, j);
        assert(insert_by_id(s, t) =~= s.insert(j, t)) by {
            assert(insert_by_id(s, t) == d.insert(j, t).push(s.last()));
            assert forall|k: int| 0 <= k < s.insert(j, t).len() implies d.insert(j, t).push(
                s.last(),
            )[k] == s.insert(j, t)[k] by {}
        }
    }
}

/// Sort the fills ascending by identifier, in place; equal identifiers
/// keep their input order.
pub fn sort_trades(trades: &mut Vec<TradingHistoryItem>)
    ensures
        trade_views(final(trades)@) == sort_by_id(trade_views(old(trades)@)),
{
    let ghost orig: Seq<TradingHistoryItem> = trades@;
    let mut out: Vec<TradingHistoryItem> = Vec::new();
    while trades.len() > 0
        invariant
            orig.len() >= trades@.len(),
            trades@ == orig.skip(orig.len() - trades@.len()),
            trade_views(out@) == sort_by_id(trade_views(orig.take(orig.len() - trades@.len()))),
        decreases trades.len(),
    {
        let ghost k = orig.len() - trades@.len();
        let t = trades.remove(0);
        proof {
            assert(orig.skip(k).remove(0) =~= orig.skip(k + 1));
            assert(t == orig[k]);
            let prev = trade_views(orig.take(k));
            let cur = trade_views(orig.take(k + 1));
            assert(cur.drop_last() =~= prev);
            assert(cur.last() == orig[k]@);
            assert(sort_by_id(cur) == insert_by_id(sort_by_id(prev), t@));
        }
        insert_trade(&mut out, t);
    }
    proof {
        assert(orig.take(orig.len() as int) =~= orig);
    }
    *trades = out;
}

/// Insert one fill into an already built prefix, after every element whose
/// identifier is at most its own.
fn insert_trade(out: &mut Vec<TradingHistoryItem>, t: TradingHistoryItem)
    ensures
        trade_views(final(out)@) == insert_by_id(trade_views(old(out)@), t@),
{
    let mut j: usize = out.len();
    while j > 0 && out[j - 1].id > t.id
        invariant
            j <= out.len(),
            forall|k: int| j <= k < out@.len() ==> out@[k].id > t.id,
        decreases j,
    {
        j -= 1;
    }
    proof {
        let s = trade_views(out@);
        assert forall|k: int| j <= k < s.len() implies s[k].id > t@.id by {
            assert(s[k] == out@[k]@);
        }
        if j > 0 {
            assert(s[j - 1] == out@[j - 1]@);
        }
        lemma_insert_by_id_at(s, t@, j as int);
    }
    let ghost prev = out@;
    out.insert(j, t);
    proof {
        assert(trade_views(out@) =~= trade_views(prev).insert(j as int, t@));
    }
}

} // verus!
