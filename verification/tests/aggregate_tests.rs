use perp_settler::aggregate::{aggregate, calculate_unrealized_pnl, lookup_mark};
use perp_settler::fixed::OverflowPolicy;
use perp_settler::types::{MarkPrice, Position, TradingHistoryItem};

const ONE: i128 = 1_000_000_000_000_000_000;

fn fill(id: i128, is_long: bool, price: i128, size: i128, underlying: &str) -> TradingHistoryItem {
    TradingHistoryItem { id, is_long, price, size, underlying: String::from(underlying) }
}

fn mark(underlying: &str, price: i128) -> MarkPrice {
    MarkPrice { underlying: String::from(underlying), price }
}

fn snapshot_fields(p: &Position) -> (i128, i128, bool, i128, i128, String) {
    (p.size, p.avg_entry_price, p.is_long, p.unrealized_pnl, p.realized_pnl, p.underlying.clone())
}

#[test]
fn empty_stream_emits_nothing() {
    let mut trades: Vec<TradingHistoryItem> = vec![];
    let marks = vec![mark("lBTC", 100 * ONE)];
    let out = aggregate(&mut trades, &marks, OverflowPolicy::Strict).unwrap();
    assert_eq!(out.len(), 0);
}

#[test]
fn flat_round_trip_emits_one_closed_snapshot() {
    // long 5 at 100, then short 5 at 120: one closed position with
    // realized PnL 5 * (120 - 100) = 100 (in 36-decimal units)
    let mut trades = vec![
        fill(1, true, 100 * ONE, 5 * ONE, "lETH"),
        fill(2, false, 120 * ONE, 5 * ONE, "lETH"),
    ];
    let marks: Vec<MarkPrice> = vec![];
    let out = aggregate(&mut trades, &marks, OverflowPolicy::Strict).unwrap();
    assert_eq!(out.len(), 1);
    let p = &out[0];
    assert_eq!(p.size, 5 * ONE);
    assert_eq!(p.avg_entry_price, 100 * ONE);
    assert!(p.is_long);
    assert_eq!(p.unrealized_pnl, 0);
    assert_eq!(p.realized_pnl, 100 * ONE * ONE);
    assert_eq!(p.underlying, "lETH");
}

#[test]
fn flatten_sentinel_closes_position() {
    // a zero-size opposing fill flattens the whole position
    let mut trades = vec![
        fill(1, true, 100 * ONE, 5 * ONE, "lETH"),
        fill(2, false, 90 * ONE, 0, "lETH"),
    ];
    let marks: Vec<MarkPrice> = vec![];
    let out = aggregate(&mut trades, &marks, OverflowPolicy::Strict).unwrap();
    assert_eq!(out.len(), 1);
    assert_eq!(out[0].realized_pnl, -50 * ONE * ONE);
}

#[test]
fn weighted_average_on_same_side_add() {
    // sizes 1 and 3 at prices 100 and 200: avg = (100 + 600) / 4 = 175
    let mut trades = vec![
        fill(1, true, 100, ONE, "lBTC"),
        fill(2, true, 200, 3 * ONE, "lBTC"),
    ];
    let marks = vec![mark("lBTC", 175)];
    let out = aggregate(&mut trades, &marks, OverflowPolicy::Strict).unwrap();
    assert_eq!(out.len(), 1);
    let p = &out[0];
    assert_eq!(p.size, 4 * ONE);
    assert_eq!(p.avg_entry_price, 175);
    // mark price equals the average entry: unrealized PnL is zero
    assert_eq!(p.unrealized_pnl, 0);
}

#[test]
fn order_independence_of_input() {
    let a = vec![
        fill(3, false, 110 * ONE, 2 * ONE, "lETH"),
        fill(1, true, 100 * ONE, 5 * ONE, "lETH"),
        fill(2, true, 104 * ONE, ONE, "lBTC"),
    ];
    let b = vec![
        fill(2, true, 104 * ONE, ONE, "lBTC"),
        fill(3, false, 110 * ONE, 2 * ONE, "lETH"),
        fill(1, true, 100 * ONE, 5 * ONE, "lETH"),
    ];
    let marks = vec![mark("lETH", 120 * ONE), mark("lBTC", 104 * ONE)];
    let mut ta = a;
    let mut tb = b;
    let out_a = aggregate(&mut ta, &marks, OverflowPolicy::Strict).unwrap();
    let out_b = aggregate(&mut tb, &marks, OverflowPolicy::Strict).unwrap();
    assert_eq!(out_a.len(), out_b.len());
    for (pa, pb) in out_a.iter().zip(out_b.iter()) {
        assert_eq!(snapshot_fields(pa), snapshot_fields(pb));
    }
    // the inputs themselves are left identically sorted by identifier
    let ids_a: Vec<i128> = ta.iter().map(|t| t.id).collect();
    let ids_b: Vec<i128> = tb.iter().map(|t| t.id).collect();
    assert_eq!(ids_a, vec![1, 2, 3]);
    assert_eq!(ids_a, ids_b);
}

#[test]
fn unrealized_pnl_sign_long_and_short() {
    // long: avg 100, size 5, mark 120 -> +100; short, same numbers -> -100
    let long_pos = Position {
        size: 5 * ONE,
        avg_entry_price: 100 * ONE,
        is_long: true,
        unrealized_pnl: 0,
        realized_pnl: 0,
        underlying: String::from("lETH"),
    };
    let short_pos = Position {
        size: 5 * ONE,
        avg_entry_price: 100 * ONE,
        is_long: false,
        unrealized_pnl: 0,
        realized_pnl: 0,
        underlying: String::from("lETH"),
    };
    let up = calculate_unrealized_pnl(OverflowPolicy::Strict, &long_pos, 120 * ONE).unwrap();
    let down = calculate_unrealized_pnl(OverflowPolicy::Strict, &short_pos, 120 * ONE).unwrap();
    assert_eq!(up, 100 * ONE * ONE);
    assert_eq!(down, -100 * ONE * ONE);
}

#[test]
fn unrealized_pnl_emitted_at_end_of_stream() {
    let mut trades = vec![fill(1, true, 100 * ONE, 5 * ONE, "lETH")];
    let marks = vec![mark("lETH", 120 * ONE)];
    let out = aggregate(&mut trades, &marks, OverflowPolicy::Strict).unwrap();
    assert_eq!(out.len(), 1);
    assert_eq!(out[0].unrealized_pnl, 100 * ONE * ONE);
    assert_eq!(out[0].size, 5 * ONE);
}

#[test]
fn missing_mark_price_skips_instrument_only() {
    // both instruments end open; only lBTC has a mark price
    let mut trades = vec![
        fill(1, true, 100 * ONE, 5 * ONE, "lETH"),
        fill(2, true, 50 * ONE, 2 * ONE, "lBTC"),
    ];
    let marks = vec![mark("lBTC", 60 * ONE)];
    let out = aggregate(&mut trades, &marks, OverflowPolicy::Strict).unwrap();
    assert_eq!(out.len(), 1);
    assert_eq!(out[0].underlying, "lBTC");
    assert_eq!(out[0].unrealized_pnl, 20 * ONE * ONE);
}

#[test]
fn partial_reduce_overwrites_realized_pnl() {
    // reduce 2 of 5 at 110, then 1 more at 130: realized PnL is
    // overwritten by the last reduction, not accumulated
    let mut trades = vec![
        fill(1, true, 100 * ONE, 5 * ONE, "lETH"),
        fill(2, false, 110 * ONE, 2 * ONE, "lETH"),
        fill(3, false, 130 * ONE, ONE, "lETH"),
    ];
    let marks: Vec<MarkPrice> = vec![];
    let out = aggregate(&mut trades, &marks, OverflowPolicy::Strict).unwrap();
    // nothing closed, and the surviving position has no mark price
    assert_eq!(out.len(), 0);

    // close the remainder to observe the running state: realized PnL of the
    // close accumulates onto the overwritten value 1 * (130 - 100) = 30
    let mut trades2 = vec![
        fill(1, true, 100 * ONE, 5 * ONE, "lETH"),
        fill(2, false, 110 * ONE, 2 * ONE, "lETH"),
        fill(3, false, 130 * ONE, ONE, "lETH"),
        fill(4, false, 150 * ONE, 2 * ONE, "lETH"),
    ];
    let out2 = aggregate(&mut trades2, &vec![], OverflowPolicy::Strict).unwrap();
    assert_eq!(out2.len(), 1);
    // 30 (overwritten) + 2 * (150 - 100) = 130
    assert_eq!(out2[0].realized_pnl, 130 * ONE * ONE);
    assert_eq!(out2[0].size, 2 * ONE);
}

#[test]
fn close_resets_slot_for_reuse() {
    // after a close, the same instrument opens a fresh position
    let mut trades = vec![
        fill(1, true, 100 * ONE, 5 * ONE, "lETH"),
        fill(2, false, 120 * ONE, 5 * ONE, "lETH"),
        fill(3, false, 200 * ONE, 3 * ONE, "lETH"),
    ];
    let marks = vec![mark("lETH", 190 * ONE)];
    let out = aggregate(&mut trades, &marks, OverflowPolicy::Strict).unwrap();
    assert_eq!(out.len(), 2);
    // first snapshot: the closed long
    assert_eq!(out[0].realized_pnl, 100 * ONE * ONE);
    // second snapshot: the reopened short, marked at 190: 3 * (200 - 190)
    assert!(!out[1].is_long);
    assert_eq!(out[1].size, 3 * ONE);
    assert_eq!(out[1].avg_entry_price, 200 * ONE);
    assert_eq!(out[1].unrealized_pnl, 30 * ONE * ONE);
}

#[test]
fn saturation_boundary_clamps_instead_of_failing() {
    // the close PnL 4e18 * (i128::MAX/2e18-ish spread) overflows: the
    // saturating policy clamps to i128::MAX, the strict policy gives None
    let big = i128::MAX / 2;
    let trades = vec![
        fill(1, true, 0, 4 * ONE, "lETH"),
        fill(2, false, big, 4 * ONE, "lETH"),
    ];
    let mut t1 = trades.clone();
    let out = aggregate(&mut t1, &vec![], OverflowPolicy::Saturate).unwrap();
    assert_eq!(out.len(), 1);
    assert_eq!(out[0].realized_pnl, i128::MAX);

    let mut t2 = trades;
    assert!(aggregate(&mut t2, &vec![], OverflowPolicy::Strict).is_none());
}

#[test]
fn saturation_clamps_to_minimum_on_negative_overflow() {
    let big = i128::MAX / 2;
    let mut trades = vec![
        fill(1, true, big, 4 * ONE, "lETH"),
        fill(2, false, 0, 4 * ONE, "lETH"),
    ];
    let out = aggregate(&mut trades, &vec![], OverflowPolicy::Saturate).unwrap();
    assert_eq!(out.len(), 1);
    assert_eq!(out[0].realized_pnl, i128::MIN);
}

#[test]
fn division_by_zero_is_fatal_under_both_policies() {
    // a same-side fill of exactly opposite signed size makes the average
    // recomputation divide by zero: the run is abandoned
    let trades = vec![
        fill(1, true, 100 * ONE, 5 * ONE, "lETH"),
        fill(2, true, 90 * ONE, -5 * ONE, "lETH"),
    ];
    let mut t1 = trades.clone();
    assert!(aggregate(&mut t1, &vec![], OverflowPolicy::Strict).is_none());
    let mut t2 = trades;
    assert!(aggregate(&mut t2, &vec![], OverflowPolicy::Saturate).is_none());
}

#[test]
fn lookup_mark_finds_first_entry() {
    let marks = vec![mark("lETH", 10), mark("lBTC", 20), mark("lETH", 30)];
    assert_eq!(lookup_mark(&marks, &String::from("lETH")), Some(10));
    assert_eq!(lookup_mark(&marks, &String::from("lBTC")), Some(20));
    assert_eq!(lookup_mark(&marks, &String::from("lDOGE")), None);
}

#[test]
fn zero_size_same_side_fill_leaves_nothing_open() {
    // a zero-size fill on a flat slot adopts size zero: nothing is ever
    // emitted for the instrument
    let mut trades = vec![fill(1, false, 100 * ONE, 0, "lETH")];
    let marks = vec![mark("lETH", 120 * ONE)];
    let out = aggregate(&mut trades, &marks, OverflowPolicy::Strict).unwrap();
    assert_eq!(out.len(), 0);
}
