//! Replay of the sorted trade stream against one running position per
//! instrument.
//!
//! For each fill, in identifier order: a fill that trades against the whole
//! open quantity (its size equals the position's size, or is the zero
//! "flatten" sentinel) closes the position — realized PnL is accumulated,
//! a snapshot is emitted, and the slot is reset, the fill doing no further
//! sizing work. Otherwise a flat position adopts the fill's side, size and
//! price; a same-side fill recomputes the volume-weighted average entry
//! price; an opposite-side fill reduces the size and overwrites realized
//! PnL with the PnL of the reduced quantity (the overwrite, and the absence
//! of a non-negativity guard on the reduced size, are documented behaviour).
//! After the last fill, every instrument still holding a positive size and
//! having a supplied mark price is emitted once more with its unrealized
//! PnL; an instrument without a mark price is skipped without failing the
//! run.

use vstd::prelude::*;
use crate::fixed::{
    OverflowPolicy,
    fp_add,
    fp_div,
    fp_mul,
    fp_sub,
    opt_val,
    spec_add,
    spec_div,
    spec_mul,
    spec_sub,
};
use crate::sort::{sort_by_id, sort_trades};
use crate::types::{
    MarkPrice,
    MarkPriceView,
    Position,
    PositionView,
    TradeView,
    TradingHistoryItem,
    mark_views,
    position_views,
    trade_views,
    zero_position_view,
};

verus! {

/// Index of the running position for instrument `u`, or -1 if none exists.
pub open spec fn slot_index(slots: Seq<PositionView>, u: Seq<char>) -> int
    decreases slots.len(),
{
    if slots.len() == 0 {
        -1
    } else if slots[0].underlying == u {
        0
    } else {
        let r = slot_index(slots.drop_first(), u);
        if r == -1 {
            -1
        } else {
            r + 1
        }
    }
}

/// The close/flatten condition: the fill trades against the current side
/// and its size is the zero sentinel or exactly the open size.
pub open spec fn close_fires(pos: PositionView, t: TradeView) -> bool {
    (t.size == 0 || t.size == pos.size) && t.is_long != pos.is_long
}

/// One fill applied to the running state. `None` means the arithmetic
/// policy abandoned the run.
pub open spec fn replay_step(
    p: OverflowPolicy,
    slots: Seq<PositionView>,
    emitted: Seq<PositionView>,
    t: TradeView,
) -> Option<(Seq<PositionView>, Seq<PositionView>)> {
    let i0 = slot_index(slots, t.underlying);
    let slots1 = if i0 == -1 {
        slots.push(zero_position_view(t.underlying))
    } else {
        slots
    };
    let i = if i0 == -1 {
        slots.len() as int
    } else {
        i0
    };
    let pos = slots1[i];
    if close_fires(pos, t) {
        match spec_sub(p, t.price, pos.avg_entry_price) {
            None => None,
            Some(d) => match spec_mul(p, pos.size, d) {
                None => None,
                Some(m) => match spec_add(p, pos.realized_pnl, m) {
                    None => None,
                    Some(re) => {
                        let closed = PositionView { unrealized_pnl: 0, realized_pnl: re, ..pos };
                        Some(
                            (
                                slots1.update(i, zero_position_view(t.underlying)),
                                emitted.push(closed),
                            ),
                        )
                    },
                },
            },
        }
    } else if pos.size == 0 {
        Some(
            (
                slots1.update(
                    i,
                    PositionView {
                        is_long: t.is_long,
                        size: t.size,
                        avg_entry_price: t.price,
                        ..pos
                    },
                ),
                emitted,
            ),
        )
    } else if pos.is_long == t.is_long {
        match spec_mul(p, pos.avg_entry_price, pos.size) {
            None => None,
            Some(m1) => match spec_mul(p, t.price, t.size) {
                None => None,
                Some(m2) => match spec_add(p, m1, m2) {
                    None => None,
                    Some(num) => match spec_add(p, pos.size, t.size) {
                        None => None,
                        Some(den) => match spec_div(p, num, den) {
                            None => None,
                            Some(avg) => Some(
                                (
                                    slots1.update(
                                        i,
                                        PositionView { size: den, avg_entry_price: avg, ..pos },
                                    ),
                                    emitted,
                                ),
                            ),
                        },
                    },
                },
            },
        }
    } else {
        match spec_sub(p, pos.size, t.size) {
            None => None,
            Some(sz) => match spec_sub(p, t.price, pos.avg_entry_price) {
                None => None,
                Some(d) => match spec_mul(p, t.size, d) {
                    None => None,
                    Some(re) => Some(
                        (
                            slots1.update(i, PositionView { size: sz, realized_pnl: re, ..pos }),
                            emitted,
                        ),
                    ),
                },
            },
        }
    }
}

/// The fills of `trades` applied in order, front first.
pub open spec fn replay(
    p: OverflowPolicy,
    slots: Seq<PositionView>,
    emitted: Seq<PositionView>,
    trades: Seq<TradeView>,
) -> Option<(Seq<PositionView>, Seq<PositionView>)>
    decreases trades.len(),
{
    if trades.len() == 0 {
        Some((slots, emitted))
    } else {
        match replay_step(p, slots, emitted, trades[0]) {
            None => None,
            Some(se) => replay(p, se.0, se.1, trades.drop_first()),
        }
    }
}

/// The mark price recorded for instrument `u`: first matching entry.
pub open spec fn mark_lookup(marks: Seq<MarkPriceView>, u: Seq<char>) -> Option<int>
    decreases marks.len(),
{
    if marks.len() == 0 {
        None
    } else if marks[0].underlying == u {
        Some(marks[0].price)
    } else {
        mark_lookup(marks.drop_first(), u)
    }
}

/// Mark-to-market PnL of an open position at mark price `mark`:
/// `size * (mark - avg)` for a long, `size * (avg - mark)` for a short.
pub open spec fn spec_unrealized(p: OverflowPolicy, pos: PositionView, mark: int) -> Option<int> {
    if pos.is_long {
        match spec_sub(p, mark, pos.avg_entry_price) {
            None => None,
            Some(d) => spec_mul(p, pos.size, d),
        }
    } else {
        match spec_sub(p, pos.avg_entry_price, mark) {
            None => None,
            Some(d) => spec_mul(p, pos.size, d),
        }
    }
}

/// End-of-stream emission: every slot still holding a positive size and
/// having a mark price is emitted with its unrealized PnL, in the order the
/// instruments were first seen; a slot without a mark price is skipped.
pub open spec fn finalize(
    p: OverflowPolicy,
    slots: Seq<PositionView>,
    marks: Seq<MarkPriceView>,
    emitted: Seq<PositionView>,
) -> Option<Seq<PositionView>>
    decreases slots.len(),
{
    if slots.len() == 0 {
        Some(emitted)
    } else {
        let pos = slots[0];
        if pos.size > 0 {
            match mark_lookup(marks, pos.underlying) {
                None => finalize(p, slots.drop_first(), marks, emitted),
                Some(m) => match spec_unrealized(p, pos, m) {
                    None => None,
                    Some(u) => finalize(
                        p,
                        slots.drop_first(),
                        marks,
                        emitted.push(PositionView { unrealized_pnl: u, ..pos }),
                    ),
                },
            }
        } else {
            finalize(p, slots.drop_first(), marks, emitted)
        }
    }
}

/// The whole aggregation: sort by identifier, replay, emit open positions.
pub open spec fn spec_aggregate(
    p: OverflowPolicy,
    trades: Seq<TradeView>,
    marks: Seq<MarkPriceView>,
) -> Option<Seq<PositionView>> {
    match replay(p, Seq::empty(), Seq::empty(), sort_by_id(trades)) {
        None => None,
        Some(se) => finalize(p, se.0, marks, se.1),
    }
}

/// Appending one fill to a replayed stream applies one further step.
pub proof fn lemma_replay_snoc(
    p: OverflowPolicy,
    slots: Seq<PositionView>,
    emitted: Seq<PositionView>,
    trades: Seq<TradeView>,
    t: TradeView,
)
    ensures
        replay(p, slots, emitted, trades.push(t)) == (match replay(p, slots, emitted, trades) {
            None => None,
            Some(se) => replay_step(p, se.0, se.1, t),
        }),
    decreases trades.len(),
{
    if trades.len() == 0 {
        let pushed = trades.push(t);
        assert(pushed[0] == t);
        assert(pushed.drop_first() =~= trades);
        assert(replay(p, slots, emitted, trades) == Some((slots, emitted)));
        match replay_step(p, slots, emitted, t) {
            None => {
                assert(replay(p, slots, emitted, pushed) is None);
            },
            Some(se) => {
                assert(replay(p, slots, emitted, pushed) == replay(p, se.0, se.1, trades));
                assert(replay(p, se.0, se.1, trades) == Some(se));
            },
        }
    } else {
        let pushed = trades.push(t);
        assert(pushed[0] == trades[0]);
        assert(pushed.drop_first() =~= trades.drop_first().push(t));
        match replay_step(p, slots, emitted, trades[0]) {
            None => {
                assert(replay(p, slots, emitted, pushed) is None);
                assert(replay(p, slots, emitted, trades) is None);
            },
            Some(se) => {
                lemma_replay_snoc(p, se.0, se.1, trades.drop_first(), t);
                assert(replay(p, slots, emitted, pushed) == replay(
                    p,
                    se.0,
                    se.1,
                    trades.drop_first().push(t),
                ));
                assert(replay(p, slots, emitted, trades) == replay(
                    p,
                    se.0,
                    se.1,
                    trades.drop_first(),
                ));
            },
        }
    }
}

/// A replay that fails on a prefix fails on the whole stream.
pub proof fn lemma_replay_none_prefix(
    p: OverflowPolicy,
    slots: Seq<PositionView>,
    emitted: Seq<PositionView>,
    pre: Seq<TradeView>,
    whole: Seq<TradeView>,
)
    requires
        pre.len() <= whole.len(),
        pre == whole.take(pre.len() as int),
        replay(p, slots, emitted, pre) is None,
    ensures
        replay(p, slots, emitted, whole) is None,
    decreases pre.len(),
{
    assert(pre.len() > 0);
    assert(pre[0] == whole[0]);
    match replay_step(p, slots, emitted, pre[0]) {
        None => {},
        Some(se) => {
            assert(pre.drop_first() =~= whole.drop_first().take(pre.len() - 1));
            lemma_replay_none_prefix(p, se.0, se.1, pre.drop_first(), whole.drop_first());
        },
    }
}

/// Characterization of `slot_index` by a linear scan: if the first `i`
/// slots are for other instruments, the index is decided at `i`.
proof fn lemma_slot_index_at(slots: Seq<PositionView>, u: Seq<char>, i: int)
    requires
        0 <= i <= slots.len(),
        forall|k: int| 0 <= k < i ==> slots[k].underlying != u,
        i < slots.len() ==> slots[i].underlying == u,
    ensures
        i == slots.len() ==> slot_index(slots, u) == -1,
        i < slots.len() ==> slot_index(slots, u) == i,
    decreases slots.len(),
{
    if slots.len() == 0 {
    } else if slots[0].underlying == u {
        assert(i == 0);
    } else {
        assert(i >= 1);
        let d = slots.drop_first();
        assert(forall|k: int| 0 <= k < i - 1 ==> d[k] == slots[k + 1]);
        lemma_slot_index_at(d, u, i - 1);
    }
}

/// Find the running position for instrument `u`.
fn find_slot(slots: &Vec<Position>, u: &String) -> (r: Option<usize>)
    ensures
        match r {
            Some(i) => i < slots@.len() && slot_index(position_views(slots@), u@) == i as int
                && position_views(slots@)[i as int].underlying == u@,
            None => slot_index(position_views(slots@), u@) == -1,
        },
{
    let ghost sv = position_views(slots@);
    let mut i: usize = 0;
    while i < slots.len()
        invariant
            i <= slots@.len(),
            sv == position_views(slots@),
            forall|k: int| 0 <= k < i ==> sv[k].underlying != u@,
        decreases slots@.len() - i,
    {
        if slots[i].underlying == *u {
            proof {
                assert(sv[i as int] == slots@[i as int]@);
                lemma_slot_index_at(sv, u@, i as int);
            }
            return Some(i);
        }
        proof {
            assert(sv[i as int] == slots@[i as int]@);
        }
        i += 1;
    }
    proof {
        lemma_slot_index_at(sv, u@, i as int);
    }
    None
}

/// Mark-to-market PnL of `current_position` at `current_price` under the
/// chosen policy; `None` when the policy abandons the computation.
pub fn calculate_unrealized_pnl(
    policy: OverflowPolicy,
    current_position: &Position,
    current_price: i128,
) -> (r: Option<i128>)
    ensures
        opt_val(r) == spec_unrealized(policy, current_position@, current_price as int),
{
    if current_position.is_long {
        match fp_sub(policy, current_price, current_position.avg_entry_price) {
            None => None,
            Some(d) => fp_mul(policy, current_position.size, d),
        }
    } else {
        match fp_sub(policy, current_position.avg_entry_price, current_price) {
            None => None,
            Some(d) => fp_mul(policy, current_position.size, d),
        }
    }
}

/// The mark price supplied for instrument `u`, if any.
pub fn lookup_mark(marks: &Vec<MarkPrice>, u: &String) -> (r: Option<i128>)
    ensures
        match r {
            Some(v) => mark_lookup(mark_views(marks@), u@) == Some(v as int),
            None => mark_lookup(mark_views(marks@), u@) is None,
        },
{
    let ghost mv = mark_views(marks@);
    proof {
        assert(mv.skip(0) =~= mv);
    }
    let mut i: usize = 0;
    while i < marks.len()
        invariant
            i <= marks@.len(),
            mv == mark_views(marks@),
            mark_lookup(mv, u@) == mark_lookup(mv.skip(i as int), u@),
        decreases marks@.len() - i,
    {
        proof {
            assert(mv.skip(i as int)[0] == mv[i as int]);
            assert(mv.skip(i as int).drop_first() =~= mv.skip(i as int + 1));
            assert(mv[i as int] == marks@[i as int]@);
        }
        if marks[i].underlying == *u {
            proof {
                assert(mark_lookup(mv.skip(i as int), u@) == Some(mv[i as int].price));
            }
            return Some(marks[i].price);
        }
        i += 1;
    }
    proof {
        assert(mv.skip(i as int).len() == 0);
        assert(mark_lookup(mv.skip(i as int), u@) is None);
    }
    None
}

/// Apply one fill to the running state. On `true` the state advanced by one
/// replay step; on `false` the step's arithmetic failed under the policy.
fn apply_trade(
    policy: OverflowPolicy,
    slots: &mut Vec<Position>,
    emitted: &mut Vec<Position>,
    t: &TradingHistoryItem,
) -> (ok: bool)
    ensures
        ok ==> replay_step(
            policy,
            position_views(old(slots)@),
            position_views(old(emitted)@),
            t@,
        ) == Some((position_views(final(slots)@), position_views(final(emitted)@))),
        !ok ==> replay_step(
            policy,
            position_views(old(slots)@),
            position_views(old(emitted)@),
            t@,
        ) is None,
{
    let ghost sv0 = position_views(slots@);
    let idx: usize;
    match find_slot(slots, &t.underlying) {
        Some(i) => {
            idx = i;
        },
        None => {
            idx = slots.len();
            slots.push(
                Position {
                    size: 0,
                    avg_entry_price: 0,
                    is_long: false,
                    unrealized_pnl: 0,
                    realized_pnl: 0,
                    underlying: t.underlying.clone(),
                },
            );
        },
    }
    let ghost sv1 = position_views(slots@);
    proof {
        if slot_index(sv0, t@.underlying) == -1 {
            assert(sv1 =~= sv0.push(zero_position_view(t@.underlying)));
        }
        assert(idx < slots@.len());
        assert(sv1[idx as int] == slots@[idx as int]@);
        assert(sv1[idx as int].underlying == t@.underlying);
    }
    let ghost pos = sv1[idx as int];
    let pos_size = slots[idx].size;
    let pos_avg = slots[idx].avg_entry_price;
    let pos_is_long = slots[idx].is_long;
    let pos_re = slots[idx].realized_pnl;
    if (t.size == 0 || t.size == pos_size) && t.is_long != pos_is_long {
        let d = match fp_sub(policy, t.price, pos_avg) {
            Some(v) => v,
            None => {
                return false;
            },
        };
        let m = match fp_mul(policy, pos_size, d) {
            Some(v) => v,
            None => {
                return false;
            },
        };
        let re = match fp_add(policy, pos_re, m) {
            Some(v) => v,
            None => {
                return false;
            },
        };
        emitted.push(
            Position {
                size: pos_size,
                avg_entry_price: pos_avg,
                is_long: pos_is_long,
                unrealized_pnl: 0,
                realized_pnl: re,
                underlying: t.underlying.clone(),
            },
        );
        slots.remove(idx);
        slots.insert(
            idx,
            Position {
                size: 0,
                avg_entry_price: 0,
                is_long: false,
                unrealized_pnl: 0,
                realized_pnl: 0,
                underlying: t.underlying.clone(),
            },
        );
        proof {
            assert(position_views(slots@) =~= sv1.update(
                idx as int,
                zero_position_view(t@.underlying),
            ));
            assert(position_views(emitted@) =~= position_views(old(emitted)@).push(
                PositionView { unrealized_pnl: 0, realized_pnl: re as int, ..pos },
            ));
        }
        true
    } else if pos_size == 0 {
        let un = slots[idx].unrealized_pnl;
        slots.remove(idx);
        slots.insert(
            idx,
            Position {
                size: t.size,
                avg_entry_price: t.price,
                is_long: t.is_long,
                unrealized_pnl: un,
                realized_pnl: pos_re,
                underlying: t.underlying.clone(),
            },
        );
        proof {
            assert(position_views(slots@) =~= sv1.update(
                idx as int,
                PositionView {
                    is_long: t@.is_long,
                    size: t@.size,
                    avg_entry_price: t@.price,
                    ..pos
                },
            ));
        }
        true
    } else if pos_is_long == t.is_long {
        let m1 = match fp_mul(policy, pos_avg, pos_size) {
            Some(v) => v,
            None => {
                return false;
            },
        };
        let m2 = match fp_mul(policy, t.price, t.size) {
            Some(v) => v,
            None => {
                return false;
            },
        };
        let num = match fp_add(policy, m1, m2) {
            Some(v) => v,
            None => {
                return false;
            },
        };
        let den = match fp_add(policy, pos_size, t.size) {
            Some(v) => v,
            None => {
                return false;
            },
        };
        let avg = match fp_div(policy, num, den) {
            Some(v) => v,
            None => {
                return false;
            },
        };
        let un = slots[idx].unrealized_pnl;
        slots.remove(idx);
        slots.insert(
            idx,
            Position {
                size: den,
                avg_entry_price: avg,
                is_long: pos_is_long,
                unrealized_pnl: un,
                realized_pnl: pos_re,
                underlying: t.underlying.clone(),
            },
        );
        proof {
            assert(position_views(slots@) =~= sv1.update(
                idx as int,
                PositionView { size: den as int, avg_entry_price: avg as int, ..pos },
            ));
        }
        true
    } else {
        let sz = match fp_sub(policy, pos_size, t.size) {
            Some(v) => v,
            None => {
                return false;
            },
        };
        let d = match fp_sub(policy, t.price, pos_avg) {
            Some(v) => v,
            None => {
                return false;
            },
        };
        let re = match fp_mul(policy, t.size, d) {
            Some(v) => v,
            None => {
                return false;
            },
        };
        let un = slots[idx].unrealized_pnl;
        slots.remove(idx);
        slots.insert(
            idx,
            Position {
                size: sz,
                avg_entry_price: pos_avg,
                is_long: pos_is_long,
                unrealized_pnl: un,
                realized_pnl: re,
                underlying: t.underlying.clone(),
            },
        );
        proof {
            assert(position_views(slots@) =~= sv1.update(
                idx as int,
                PositionView { size: sz as int, realized_pnl: re as int, ..pos },
            ));
        }
        true
    }
}

/// Aggregate a collection of trade fills, supplied in any order, into the
/// sequence of position snapshots its replay emits, valued at the supplied
/// mark prices. The input is left sorted by identifier. `None` exactly when
/// the arithmetic policy abandons the run (an overflow under the strict
/// policy, or a division by zero).
pub fn aggregate(
    trades: &mut Vec<TradingHistoryItem>,
    mark_prices: &Vec<MarkPrice>,
    policy: OverflowPolicy,
) -> (r: Option<Vec<Position>>)
    ensures
        match r {
            Some(out) => spec_aggregate(
                policy,
                trade_views(old(trades)@),
                mark_views(mark_prices@),
            ) == Some(position_views(out@)),
            None => spec_aggregate(
                policy,
                trade_views(old(trades)@),
                mark_views(mark_prices@),
            ) is None,
        },
        trade_views(final(trades)@) == sort_by_id(trade_views(old(trades)@)),
{
    let ghost tv = trade_views(trades@);
    sort_trades(trades);
    let ghost sv = trade_views(trades@);
    let mut slots: Vec<Position> = Vec::new();
    let mut emitted: Vec<Position> = Vec::new();
    proof {
        assert(sv.take(0) =~= Seq::<TradeView>::empty());
        assert(position_views(slots@) =~= Seq::<PositionView>::empty());
        assert(position_views(emitted@) =~= Seq::<PositionView>::empty());
    }
    let mut i: usize = 0;
    while i < trades.len()
        invariant
            i <= trades@.len(),
            sv == trade_views(trades@),
            sv == sort_by_id(tv),
            tv == trade_views(old(trades)@),
            replay(policy, Seq::empty(), Seq::empty(), sv.take(i as int)) == Some(
                (position_views(slots@), position_views(emitted@)),
            ),
        decreases trades@.len() - i,
    {
        let ghost slots_pre = position_views(slots@);
        let ghost emitted_pre = position_views(emitted@);
        let ok = apply_trade(policy, &mut slots, &mut emitted, &trades[i]);
        proof {
            assert(sv.take(i + 1) =~= sv.take(i as int).push(sv[i as int]));
            assert(sv[i as int] == trades@[i as int]@);
            lemma_replay_snoc(policy, Seq::empty(), Seq::empty(), sv.take(i as int), sv[i as int]);
        }
        if !ok {
            proof {
                assert(replay_step(policy, slots_pre, emitted_pre, sv[i as int]) is None);
                assert(replay(policy, Seq::empty(), Seq::empty(), sv.take(i + 1)) is None);
                lemma_replay_none_prefix(
                    policy,
                    Seq::empty(),
                    Seq::empty(),
                    sv.take(i + 1),
                    sv,
                );
                assert(spec_aggregate(policy, tv, mark_views(mark_prices@)) is None);
            }
            return None;
        }
        i += 1;
    }
    proof {
        assert(sv.take(sv.len() as int) =~= sv);
    }
    let ghost slotsv = position_views(slots@);
    let ghost target = finalize(policy, slotsv, mark_views(mark_prices@), position_views(emitted@));
    proof {
        assert(slotsv.skip(0) =~= slotsv);
        assert(spec_aggregate(policy, tv, mark_views(mark_prices@)) == target);
    }
    let mut j: usize = 0;
    while j < slots.len()
        invariant
            j <= slots@.len(),
            slotsv == position_views(slots@),
            tv == trade_views(old(trades)@),
            trade_views(trades@) == sort_by_id(tv),
            spec_aggregate(policy, tv, mark_views(mark_prices@)) == target,
            target == finalize(
                policy,
                slotsv.skip(j as int),
                mark_views(mark_prices@),
                position_views(emitted@),
            ),
        decreases slots@.len() - j,
    {
        proof {
            assert(slotsv.skip(j as int)[0] == slotsv[j as int]);
            assert(slotsv.skip(j as int).drop_first() =~= slotsv.skip(j as int + 1));
            assert(slotsv[j as int] == slots@[j as int]@);
        }
        let ghost emitted_pre = position_views(emitted@);
        if slots[j].size > 0 {
            match lookup_mark(mark_prices, &slots[j].underlying) {
                Some(m) => {
                    match calculate_unrealized_pnl(policy, &slots[j], m) {
                        Some(u) => {
                            let snap = Position {
                                size: slots[j].size,
                                avg_entry_price: slots[j].avg_entry_price,
                                is_long: slots[j].is_long,
                                unrealized_pnl: u,
                                realized_pnl: slots[j].realized_pnl,
                                underlying: slots[j].underlying.clone(),
                            };
                            emitted.push(snap);
                            proof {
                                assert(position_views(emitted@) =~= emitted_pre.push(
                                    PositionView {
                                        unrealized_pnl: u as int,
                                        ..slotsv[j as int]
                                    },
                                ));
                            }
                        },
                        None => {
                            return None;
                        },
                    }
                },
                None => {},
            }
        }
        j += 1;
    }
    proof {
        assert(slotsv.skip(slotsv.len() as int).len() == 0);
    }
    Some(emitted)
}

} // verus!
