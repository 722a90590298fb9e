//! Data model: trade fills, running / emitted positions, mark prices, and
//! the display form of an emitted position.

use vstd::prelude::*;

verus! {

/// One trade fill. `id` defines replay order; `price` and `size` are signed
/// fixed-point values with 18 implied decimal places; a `size` of zero is a
/// sentinel meaning "flatten". `underlying` routes the fill to its
/// instrument's running position.
#[derive(Clone, Debug)]
pub struct TradingHistoryItem {
    pub id: i128,
    pub is_long: bool,
    pub price: i128,
    pub size: i128,
    pub underlying: String,
}

/// Mathematical model of a trade fill.
pub ghost struct TradeView {
    pub id: int,
    pub is_long: bool,
    pub price: int,
    pub size: int,
    pub underlying: Seq<char>,
}

impl View for TradingHistoryItem {
    type V = TradeView;

    open spec fn view(&self) -> TradeView {
        TradeView {
            id: self.id as int,
            is_long: self.is_long,
            price: self.price as int,
            size: self.size as int,
            underlying: self.underlying@,
        }
    }
}

/// A position: either the running accounting state for one instrument during
/// replay, or an emitted point-in-time snapshot. `size` carries the held
/// magnitude; the side is carried separately in `is_long`. `avg_entry_price`
/// is the volume-weighted cost basis of the open quantity. The PnL fields are
/// fixed-point with 36 implied decimal places (a product of two 18-decimal
/// quantities).
#[derive(Clone, Debug)]
pub struct Position {
    pub size: i128,
    pub avg_entry_price: i128,
    pub is_long: bool,
    pub unrealized_pnl: i128,
    pub realized_pnl: i128,
    pub underlying: String,
}

/// Mathematical model of a position.
pub ghost struct PositionView {
    pub size: int,
    pub avg_entry_price: int,
    pub is_long: bool,
    pub unrealized_pnl: int,
    pub realized_pnl: int,
    pub underlying: Seq<char>,
}

impl View for Position {
    type V = PositionView;

    open spec fn view(&self) -> PositionView {
        PositionView {
            size: self.size as int,
            avg_entry_price: self.avg_entry_price as int,
            is_long: self.is_long,
            unrealized_pnl: self.unrealized_pnl as int,
            realized_pnl: self.realized_pnl as int,
            underlying: self.underlying@,
        }
    }
}

/// The current mark price of one instrument, fixed-point with 18 implied
/// decimal places, used only for unrealized-PnL valuation.
#[derive(Clone, Debug)]
pub struct MarkPrice {
    pub underlying: String,
    pub price: i128,
}

/// Mathematical model of a mark price entry.
pub ghost struct MarkPriceView {
    pub underlying: Seq<char>,
    pub price: int,
}

impl View for MarkPrice {
    type V = MarkPriceView;

    open spec fn view(&self) -> MarkPriceView {
        MarkPriceView { underlying: self.underlying@, price: self.price as int }
    }
}

/// The display form of an emitted position: each fixed-point field as a
/// decimal string, sign carried by a leading `-`.
#[derive(Clone, Debug)]
pub struct FormattedPosition {
    pub size: String,
    pub avg_entry_price: String,
    pub is_long: bool,
    pub unrealized_pnl: String,
    pub realized_pnl: String,
    pub underlying: String,
}

/// Mathematical model of a formatted position.
pub ghost struct FormattedPositionView {
    pub size: Seq<char>,
    pub avg_entry_price: Seq<char>,
    pub is_long: bool,
    pub unrealized_pnl: Seq<char>,
    pub realized_pnl: Seq<char>,
    pub underlying: Seq<char>,
}

impl View for FormattedPosition {
    type V = FormattedPositionView;

    open spec fn view(&self) -> FormattedPositionView {
        FormattedPositionView {
            size: self.size@,
            avg_entry_price: self.avg_entry_price@,
            is_long: self.is_long,
            unrealized_pnl: self.unrealized_pnl@,
            realized_pnl: self.realized_pnl@,
            underlying: self.underlying@,
        }
    }
}

/// The zero position for an instrument: flat, no cost basis, no PnL.
pub open spec fn zero_position_view(u: Seq<char>) -> PositionView {
    PositionView {
        size: 0,
        avg_entry_price: 0,
        is_long: false,
        unrealized_pnl: 0,
        realized_pnl: 0,
        underlying: u,
    }
}

/// The models of a sequence of trade fills.
pub open spec fn trade_views(s: Seq<TradingHistoryItem>) -> Seq<TradeView> {
    s.map_values(|t: TradingHistoryItem| t@)
}

/// The models of a sequence of positions.
pub open spec fn position_views(s: Seq<Position>) -> Seq<PositionView> {
    s.map_values(|p: Position| p@)
}

/// The models of a sequence of mark price entries.
pub open spec fn mark_views(s: Seq<MarkPrice>) -> Seq<MarkPriceView> {
    s.map_values(|m: MarkPrice| m@)
}

/// The models of a sequence of formatted positions.
pub open spec fn formatted_views(s: Seq<FormattedPosition>) -> Seq<FormattedPositionView> {
    s.map_values(|p: FormattedPosition| p@)
}

} // verus!
