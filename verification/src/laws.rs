//! Properties of the aggregation, stated and proved once and for all
//! inputs they cover.

use vstd::prelude::*;
use crate::aggregate::{
    finalize,
    mark_lookup,
    replay,
    replay_step,
    spec_aggregate,
    spec_unrealized,
};
use crate::fixed::{OverflowPolicy, div_trunc, in_range, lemma_div_trunc_in_range_pos};
use crate::sort::{
    distinct_ids,
    insert_by_id,
    lemma_distinct_ids_multiset,
    lemma_sort_by_id_multiset,
    lemma_sort_by_id_sorted,
    lemma_sorted_unique,
    sort_by_id,
};
use crate::types::{MarkPriceView, PositionView, TradeView, zero_position_view};

verus! {

/// Feeding the same trade set in any permutation yields the same output:
/// replay always sorts by identifier first, and identifiers are unique, so
/// every permutation replays the same sequence.
pub proof fn lemma_order_independence(
    p: OverflowPolicy,
    t1: Seq<TradeView>,
    t2: Seq<TradeView>,
    marks: Seq<MarkPriceView>,
)
    requires
        t1.to_multiset() == t2.to_multiset(),
        distinct_ids(t1),
    ensures
        spec_aggregate(p, t1, marks) == spec_aggregate(p, t2, marks),
{
    lemma_sort_by_id_sorted(t1);
    lemma_sort_by_id_sorted(t2);
    lemma_sort_by_id_multiset(t1);
    lemma_sort_by_id_multiset(t2);
    lemma_distinct_ids_multiset(t1);
    lemma_sorted_unique(sort_by_id(t1), sort_by_id(t2));
}

/// Flat round trip: a fill of positive size `s` long at price `pr`,
/// followed by an opposing fill of the same size short at price `q` on the
/// same instrument, emits exactly one closed snapshot, whose realized PnL
/// is `s * (q - pr)`, and leaves the running position reset to zero.
pub proof fn lemma_flat_round_trip(
    p: OverflowPolicy,
    t1: TradeView,
    t2: TradeView,
    marks: Seq<MarkPriceView>,
)
    requires
        t1.underlying == t2.underlying,
        t1.id < t2.id,
        t1.is_long,
        !t2.is_long,
        t1.size == t2.size,
        t1.size > 0,
        in_range(t2.price - t1.price),
        in_range(t1.size * (t2.price - t1.price)),
    ensures
        replay(p, Seq::empty(), Seq::empty(), sort_by_id(seq![t1, t2])) == Some(
            (
                seq![zero_position_view(t1.underlying)],
                seq![
                    PositionView {
                        size: t1.size,
                        avg_entry_price: t1.price,
                        is_long: true,
                        unrealized_pnl: 0,
                        realized_pnl: t1.size * (t2.price - t1.price),
                        underlying: t1.underlying,
                    },
                ],
            ),
        ),
        spec_aggregate(p, seq![t1, t2], marks) == Some(
            seq![
                PositionView {
                    size: t1.size,
                    avg_entry_price: t1.price,
                    is_long: true,
                    unrealized_pnl: 0,
                    realized_pnl: t1.size * (t2.price - t1.price),
                    underlying: t1.underlying,
                },
            ],
        ),
{
    let s = seq![t1, t2];
    lemma_sort_two(t1, t2);
    let opened = PositionView {
        size: t1.size,
        avg_entry_price: t1.price,
        is_long: true,
        unrealized_pnl: 0,
        realized_pnl: 0,
        underlying: t1.underlying,
    };
    let closed = PositionView {
        size: t1.size,
        avg_entry_price: t1.price,
        is_long: true,
        unrealized_pnl: 0,
        realized_pnl: t1.size * (t2.price - t1.price),
        underlying: t1.underlying,
    };
    assert(replay_step(p, Seq::empty(), Seq::empty(), t1) == Some(
        (seq![opened], Seq::<PositionView>::empty()),
    )) by {
        assert(Seq::<PositionView>::empty().push(zero_position_view(t1.underlying)).update(
            0,
            opened,
        ) =~= seq![opened]);
    }
    assert(replay_step(p, seq![opened], Seq::<PositionView>::empty(), t2) == Some(
        (seq![zero_position_view(t1.underlying)], seq![closed]),
    )) by {
        assert(seq![opened][0].underlying == t2.underlying);
        assert(seq![opened].update(0, zero_position_view(t2.underlying)) =~= seq![
            zero_position_view(t1.underlying),
        ]);
        assert(Seq::<PositionView>::empty().push(closed) =~= seq![closed]);
    }
    assert(s.drop_first() =~= seq![t2]);
    assert(seq![t2].drop_first() =~= Seq::<TradeView>::empty());
    let zp = seq![zero_position_view(t1.underlying)];
    assert(replay(p, Seq::empty(), Seq::empty(), s) == replay(
        p,
        seq![opened],
        Seq::<PositionView>::empty(),
        seq![t2],
    ));
    assert(replay(p, seq![opened], Seq::<PositionView>::empty(), seq![t2]) == replay(
        p,
        zp,
        seq![closed],
        Seq::<TradeView>::empty(),
    ));
    assert(replay(p, zp, seq![closed], Seq::<TradeView>::empty()) == Some((zp, seq![closed])));
    assert(zp.drop_first() =~= Seq::<PositionView>::empty());
    assert(finalize(p, zp, marks, seq![closed]) == finalize(
        p,
        Seq::<PositionView>::empty(),
        marks,
        seq![closed],
    ));
    assert(finalize(p, Seq::<PositionView>::empty(), marks, seq![closed]) == Some(seq![closed]));
}

/// Weighted-average invariant: two same-side fills of positive sizes `s1`,
/// `s2` at prices `p1`, `p2` leave one open position of size `s1 + s2`
/// whose average entry price is `(p1*s1 + p2*s2) / (s1 + s2)`, truncated
/// toward zero, with nothing emitted.
pub proof fn lemma_weighted_average(p: OverflowPolicy, t1: TradeView, t2: TradeView)
    requires
        t1.underlying == t2.underlying,
        t1.id < t2.id,
        t1.is_long == t2.is_long,
        t1.size > 0,
        t2.size > 0,
        in_range(t1.price * t1.size),
        in_range(t2.price * t2.size),
        in_range(t1.price * t1.size + t2.price * t2.size),
        in_range(t1.size + t2.size),
    ensures
        replay(p, Seq::empty(), Seq::empty(), sort_by_id(seq![t1, t2])) == Some(
            (
                seq![
                    PositionView {
                        size: t1.size + t2.size,
                        avg_entry_price: div_trunc(
                            t1.price * t1.size + t2.price * t2.size,
                            t1.size + t2.size,
                        ),
                        is_long: t1.is_long,
                        unrealized_pnl: 0,
                        realized_pnl: 0,
                        underlying: t1.underlying,
                    },
                ],
                Seq::<PositionView>::empty(),
            ),
        ),
{
    let s = seq![t1, t2];
    lemma_sort_two(t1, t2);
    let opened = PositionView {
        size: t1.size,
        avg_entry_price: t1.price,
        is_long: t1.is_long,
        unrealized_pnl: 0,
        realized_pnl: 0,
        underlying: t1.underlying,
    };
    let added = PositionView {
        size: t1.size + t2.size,
        avg_entry_price: div_trunc(t1.price * t1.size + t2.price * t2.size, t1.size + t2.size),
        is_long: t1.is_long,
        unrealized_pnl: 0,
        realized_pnl: 0,
        underlying: t1.underlying,
    };
    assert(replay_step(p, Seq::empty(), Seq::empty(), t1) == Some(
        (seq![opened], Seq::<PositionView>::empty()),
    )) by {
        assert(Seq::<PositionView>::empty().push(zero_position_view(t1.underlying)).update(
            0,
            opened,
        ) =~= seq![opened]);
    }
    assert(replay_step(p, seq![opened], Seq::<PositionView>::empty(), t2) == Some(
        (seq![added], Seq::<PositionView>::empty()),
    )) by {
        assert(seq![opened][0].underlying == t2.underlying);
        lemma_div_trunc_in_range_pos(t1.price * t1.size + t2.price * t2.size, t1.size + t2.size);
        assert(seq![opened].update(0, added) =~= seq![added]);
    }
    assert(s.drop_first() =~= seq![t2]);
    assert(seq![t2].drop_first() =~= Seq::<TradeView>::empty());
    assert(replay(p, Seq::empty(), Seq::empty(), s) == replay(
        p,
        seq![opened],
        Seq::<PositionView>::empty(),
        seq![t2],
    ));
    assert(replay(p, seq![opened], Seq::<PositionView>::empty(), seq![t2]) == replay(
        p,
        seq![added],
        Seq::<PositionView>::empty(),
        Seq::<TradeView>::empty(),
    ));
    assert(replay(p, seq![added], Seq::<PositionView>::empty(), Seq::<TradeView>::empty())
        == Some((seq![added], Seq::<PositionView>::empty())));
}

/// Missing mark price: an instrument for which no mark price was supplied
/// is never emitted by the end-of-stream pass — the emitted prefix is kept
/// and every new snapshot is for some other instrument — and if the pass
/// fails, the failure comes from an instrument that does have a mark price.
pub proof fn lemma_missing_mark_skipped(
    p: OverflowPolicy,
    slots: Seq<PositionView>,
    marks: Seq<MarkPriceView>,
    emitted: Seq<PositionView>,
    u: Seq<char>,
)
    requires
        mark_lookup(marks, u) is None,
    ensures
        match finalize(p, slots, marks, emitted) {
            Some(out) => out.len() >= emitted.len() && out.take(emitted.len() as int) == emitted
                && (forall|k: int|
                emitted.len() <= k < out.len() ==> #[trigger] out[k].underlying != u),
            None => exists|k: int|
                0 <= k < slots.len() && #[trigger] slots[k].underlying != u && slots[k].size > 0
                    && mark_lookup(marks, slots[k].underlying) is Some,
        },
    decreases slots.len(),
{
    if slots.len() == 0 {
        assert(finalize(p, slots, marks, emitted) == Some(emitted));
        assert(emitted.take(emitted.len() as int) =~= emitted);
    } else {
        let pos = slots[0];
        let rest = slots.drop_first();
        if pos.size > 0 && mark_lookup(marks, pos.underlying) is Some {
            assert(pos.underlying != u);
            let m = mark_lookup(marks, pos.underlying)->Some_0;
            match spec_unrealized(p, pos, m) {
                None => {
                    assert(finalize(p, slots, marks, emitted) is None);
                    assert(slots[0].underlying != u && slots[0].size > 0 && mark_lookup(
                        marks,
                        slots[0].underlying,
                    ) is Some);
                },
                Some(un) => {
                    let snap = PositionView { unrealized_pnl: un, ..pos };
                    let pushed = emitted.push(snap);
                    lemma_missing_mark_skipped(p, rest, marks, pushed, u);
                    match finalize(p, rest, marks, pushed) {
                        Some(out) => {
                            assert(out.take(pushed.len() as int) == pushed);
                            assert(emitted.len() < out.len());
                            assert forall|k: int|
                                emitted.len() <= k < out.len() implies #[trigger] out[k].underlying
                                != u by {
                                if k < pushed.len() {
                                    assert(out[k] == out.take(pushed.len() as int)[k]);
                                    assert(out[k] == snap);
                                }
                            }
                            assert(out.take(emitted.len() as int) =~= emitted) by {
                                assert forall|k: int|
                                    0 <= k < emitted.len() implies out.take(
                                    emitted.len() as int,
                                )[k] == emitted[k] by {
                                    assert(out[k] == out.take(pushed.len() as int)[k]);
                                }
                            }
                        },
                        None => {
                            let k = choose|k: int|
                                0 <= k < rest.len() && #[trigger] rest[k].underlying != u
                                    && rest[k].size > 0 && mark_lookup(
                                    marks,
                                    rest[k].underlying,
                                ) is Some;
                            assert(slots[k + 1] == rest[k]);
                        },
                    }
                },
            }
        } else {
            lemma_missing_mark_skipped(p, rest, marks, emitted, u);
            match finalize(p, rest, marks, emitted) {
                Some(out) => {},
                None => {
                    let k = choose|k: int|
                        0 <= k < rest.len() && #[trigger] rest[k].underlying != u && rest[k].size
                            > 0 && mark_lookup(marks, rest[k].underlying) is Some;
                    assert(slots[k + 1] == rest[k]);
                },
            }
        }
    }
}

/// Sorting a two-element stream whose first identifier is smaller keeps
/// the pair in place.
proof fn lemma_sort_two(t1: TradeView, t2: TradeView)
    requires
        t1.id <= t2.id,
    ensures
        sort_by_id(seq![t1, t2]) == seq![t1, t2],
{
    let s = seq![t1, t2];
    assert(s.drop_last() =~= seq![t1]);
    assert(seq![t1].drop_last() =~= Seq::<TradeView>::empty());
    assert(sort_by_id(Seq::<TradeView>::empty()) == Seq::<TradeView>::empty());
    assert(sort_by_id(seq![t1]) == insert_by_id(Seq::empty(), t1));
    assert(insert_by_id(Seq::empty(), t1) == seq![t1]);
    assert(sort_by_id(s) == insert_by_id(seq![t1], t2));
    assert(seq![t1].last().id <= t2.id);
    assert(insert_by_id(seq![t1], t2) == seq![t1].push(t2));
    assert(seq![t1].push(t2) =~= s);
}

} // verus!
