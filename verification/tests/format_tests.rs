use perp_settler::fixed::OverflowPolicy;
use perp_settler::format::{format_fixed, format_positions};
use perp_settler::aggregate::aggregate;
use perp_settler::types::{FormattedPosition, MarkPrice, Position, TradingHistoryItem};

const ONE: i128 = 1_000_000_000_000_000_000;

fn pos(
    size: i128,
    avg_entry_price: i128,
    is_long: bool,
    unrealized_pnl: i128,
    realized_pnl: i128,
    underlying: &str,
) -> Position {
    Position {
        size,
        avg_entry_price,
        is_long,
        unrealized_pnl,
        realized_pnl,
        underlying: String::from(underlying),
    }
}

fn formatted_fields(p: &FormattedPosition) -> (String, String, bool, String, String, String) {
    (
        p.size.clone(),
        p.avg_entry_price.clone(),
        p.is_long,
        p.unrealized_pnl.clone(),
        p.realized_pnl.clone(),
        p.underlying.clone(),
    )
}

#[test]
fn format_fixed_whole_and_fraction() {
    assert_eq!(format_fixed(0, 18), "0.000000000000000000");
    assert_eq!(format_fixed(ONE, 18), "1.000000000000000000");
    assert_eq!(format_fixed(ONE + ONE / 2, 18), "1.500000000000000000");
    assert_eq!(format_fixed(123, 18), "0.000000000000000123");
    assert_eq!(format_fixed(100 * ONE * ONE, 36), "100.000000000000000000000000000000000000");
}

#[test]
fn format_fixed_negative_carries_sign_prefix() {
    assert_eq!(format_fixed(-ONE, 18), "-1.000000000000000000");
    assert_eq!(format_fixed(-5, 18), "-0.000000000000000005");
    assert_eq!(format_fixed(-(100 * ONE * ONE), 36), "-100.000000000000000000000000000000000000");
}

#[test]
fn format_fixed_extremes() {
    assert_eq!(
        format_fixed(i128::MAX, 18),
        "170141183460469231731.687303715884105727",
    );
    assert_eq!(
        format_fixed(i128::MIN, 18),
        "-170141183460469231731.687303715884105728",
    );
}

#[test]
fn format_positions_renders_every_field() {
    let ps = vec![pos(5 * ONE, 100 * ONE, true, 100 * ONE * ONE, 0, "lETH")];
    let out = format_positions(&ps).unwrap();
    assert_eq!(out.len(), 1);
    let f = &out[0];
    assert_eq!(f.size, "5.000000000000000000");
    assert_eq!(f.avg_entry_price, "100.000000000000000000");
    assert!(f.is_long);
    assert_eq!(f.unrealized_pnl, "100.000000000000000000000000000000000000");
    assert_eq!(f.realized_pnl, "0.000000000000000000000000000000000000");
    assert_eq!(f.underlying, "lETH");
}

#[test]
fn format_is_deterministic() {
    let ps = vec![
        pos(5 * ONE, 100 * ONE, true, 0, -42, "lETH"),
        pos(2 * ONE, 7, false, -3 * ONE, 9 * ONE, "lBTC"),
    ];
    let a = format_positions(&ps).unwrap();
    let b = format_positions(&ps).unwrap();
    assert_eq!(a.len(), b.len());
    for (fa, fb) in a.iter().zip(b.iter()) {
        assert_eq!(formatted_fields(fa), formatted_fields(fb));
    }
}

#[test]
fn aggregate_then_format_round() {
    let mut trades = vec![
        TradingHistoryItem {
            id: 1,
            is_long: true,
            price: 100 * ONE,
            size: 5 * ONE,
            underlying: String::from("lETH"),
        },
        TradingHistoryItem {
            id: 2,
            is_long: false,
            price: 120 * ONE,
            size: 5 * ONE,
            underlying: String::from("lETH"),
        },
    ];
    let marks: Vec<MarkPrice> = vec![];
    let out = aggregate(&mut trades, &marks, OverflowPolicy::Strict).unwrap();
    let formatted = format_positions(&out).unwrap();
    assert_eq!(formatted.len(), 1);
    assert_eq!(formatted[0].realized_pnl, "100.000000000000000000000000000000000000");
    assert_eq!(formatted[0].size, "5.000000000000000000");
}
