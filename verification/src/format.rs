//! Decimal display of emitted positions.
//!
//! Each fixed-point field becomes a decimal string: the magnitude's integer
//! part, a point, and exactly as many fraction digits as the field's implied
//! decimal places (18 for sizes and prices, 36 for PnL values). The sign is
//! handled separately from the magnitude: a negative value gets a literal
//! `-` prefix, the magnitude rendering itself never carries a sign. The
//! conversion is total for this representation, so formatting always
//! succeeds, and its result is a function of the input alone: formatting
//! the same positions twice yields identical strings.

use vstd::prelude::*;
use crate::types::{
    FormattedPosition,
    FormattedPositionView,
    Position,
    PositionView,
    formatted_views,
    position_views,
};

verus! {

/// Ten to the power `n`.
pub open spec fn pow10(n: nat) -> nat
    decreases n,
{
    if n == 0 {
        1
    } else {
        10 * pow10((n - 1) as nat)
    }
}

pub proof fn lemma_pow10_positive(n: nat)
    ensures
        pow10(n) >= 1,
    decreases n,
{
    if n > 0 {
        lemma_pow10_positive((n - 1) as nat);
    }
}

pub proof fn lemma_pow10_monotonic(a: nat, b: nat)
    requires
        a <= b,
    ensures
        pow10(a) <= pow10(b),
    decreases b,
{
    if a < b {
        lemma_pow10_monotonic(a, (b - 1) as nat);
        lemma_pow10_positive((b - 1) as nat);
    }
}

/// Both decimal widths used by the display form fit a `u128` scale factor.
pub proof fn lemma_pow10_36_fits()
    ensures
        pow10(18) <= u128::MAX,
        pow10(36) <= u128::MAX,
{
    reveal_with_fuel(pow10, 37);
    lemma_pow10_monotonic(18, 36);
}

/// The character of one decimal digit.
pub open spec fn digit_char(d: int) -> char {
    if d == 0 {
        '0'
    } else if d == 1 {
        '1'
    } else if d == 2 {
        '2'
    } else if d == 3 {
        '3'
    } else if d == 4 {
        '4'
    } else if d == 5 {
        '5'
    } else if d == 6 {
        '6'
    } else if d == 7 {
        '7'
    } else if d == 8 {
        '8'
    } else {
        '9'
    }
}

/// Decimal digits of `n`, most significant first; a single `0` for zero.
pub open spec fn dec_seq(n: nat) -> Seq<char>
    decreases n,
{
    if n < 10 {
        seq![digit_char(n as int)]
    } else {
        dec_seq(n / 10).push(digit_char((n % 10) as int))
    }
}

/// `s` left-padded with `0` to width `w`.
pub open spec fn pad_left_zeros(s: Seq<char>, w: nat) -> Seq<char> {
    if s.len() >= w {
        s
    } else {
        Seq::new((w - s.len()) as nat, |i: int| '0') + s
    }
}

/// Decimal rendering of the fixed-point value `x` with `decimals` implied
/// places: magnitude integer part, a point, exactly `decimals` fraction
/// digits, and a `-` prefix when `x` is negative.
pub open spec fn spec_format_fixed(x: int, decimals: nat) -> Seq<char> {
    let mag: int = if x < 0 {
        -x
    } else {
        x
    };
    let scale = pow10(decimals) as int;
    let body = dec_seq((mag / scale) as nat) + seq!['.'] + pad_left_zeros(
        dec_seq((mag % scale) as nat),
        decimals,
    );
    if x < 0 {
        seq!['-'] + body
    } else {
        body
    }
}

/// The display form of one position: sizes and prices with 18 decimal
/// places, PnL values with 36; side and instrument pass through unchanged.
pub open spec fn spec_format_position(pv: PositionView) -> FormattedPositionView {
    FormattedPositionView {
        size: spec_format_fixed(pv.size, 18),
        avg_entry_price: spec_format_fixed(pv.avg_entry_price, 18),
        is_long: pv.is_long,
        unrealized_pnl: spec_format_fixed(pv.unrealized_pnl, 36),
        realized_pnl: spec_format_fixed(pv.realized_pnl, 36),
        underlying: pv.underlying,
    }
}

/// The display forms of a sequence of positions.
pub open spec fn spec_format_positions(s: Seq<PositionView>) -> Seq<FormattedPositionView> {
    s.map_values(|pv: PositionView| spec_format_position(pv))
}

/// One decimal digit as a string slice.
fn digit_str(d: u128) -> (r: &'static str)
    requires
        d < 10,
    ensures
        r@ == seq![digit_char(d as int)],
{
    if d == 0 {
        proof {
            reveal_strlit("0");
            assert(("0")@ =~= seq![digit_char(0)]);
        }
        "0"
    } else if d == 1 {
        proof {
            reveal_strlit("1");
            assert(("1")@ =~= seq![digit_char(1)]);
        }
        "1"
    } else if d == 2 {
        proof {
            reveal_strlit("2");
            assert(("2")@ =~= seq![digit_char(2)]);
        }
        "2"
    } else if d == 3 {
        proof {
            reveal_strlit("3");
            assert(("3")@ =~= seq![digit_char(3)]);
        }
        "3"
    } else if d == 4 {
        proof {
            reveal_strlit("4");
            assert(("4")@ =~= seq![digit_char(4)]);
        }
        "4"
    } else if d == 5 {
        proof {
            reveal_strlit("5");
            assert(("5")@ =~= seq![digit_char(5)]);
        }
        "5"
    } else if d == 6 {
        proof {
            reveal_strlit("6");
            assert(("6")@ =~= seq![digit_char(6)]);
        }
        "6"
    } else if d == 7 {
        proof {
            reveal_strlit("7");
            assert(("7")@ =~= seq![digit_char(7)]);
        }
        "7"
    } else if d == 8 {
        proof {
            reveal_strlit("8");
            assert(("8")@ =~= seq![digit_char(8)]);
        }
        "8"
    } else {
        proof {
            reveal_strlit("9");
            assert(("9")@ =~= seq![digit_char(9)]);
        }
        "9"
    }
}

/// The digit characters of `digs` read back to front.
spec fn rev_digit_chars(digs: Seq<u128>) -> Seq<char> {
    Seq::new(digs.len(), |i: int| digit_char(digs[digs.len() - 1 - i] as int))
}

/// Append the decimal rendering of `n`, left-padded with zeros to at least
/// `min_width` characters.
fn append_dec(s: &mut String, n: u128, min_width: usize)
    ensures
        final(s)@ == old(s)@ + pad_left_zeros(dec_seq(n as nat), min_width as nat),
{
    let ghost base = s@;
    let mut digs: Vec<u128> = Vec::new();
    let mut m: u128 = n;
    digs.push(m % 10);
    m = m / 10;
    proof {
        if m > 0 {
            assert(dec_seq(n as nat) =~= dec_seq(m as nat) + rev_digit_chars(digs@));
        } else {
            assert(dec_seq(n as nat) =~= rev_digit_chars(digs@));
        }
    }
    while m > 0
        invariant
            digs@.len() >= 1,
            forall|k: int| 0 <= k < digs@.len() ==> digs@[k] < 10,
            m > 0 ==> dec_seq(n as nat) == dec_seq(m as nat) + rev_digit_chars(digs@),
            m == 0 ==> dec_seq(n as nat) == rev_digit_chars(digs@),
        decreases m,
    {
        let ghost digs_pre = digs@;
        let ghost m_pre = m as nat;
        digs.push(m % 10);
        m = m / 10;
        proof {
            assert(rev_digit_chars(digs@) =~= seq![digit_char((m_pre % 10) as int)]
                + rev_digit_chars(digs_pre));
            if m > 0 {
                assert(dec_seq(m_pre) == dec_seq(m_pre / 10).push(
                    digit_char((m_pre % 10) as int),
                ));
                assert(dec_seq(m_pre) + rev_digit_chars(digs_pre) =~= dec_seq(m as nat)
                    + rev_digit_chars(digs@));
            } else {
                assert(dec_seq(m_pre) + rev_digit_chars(digs_pre) =~= rev_digit_chars(digs@));
            }
        }
    }
    let pad: usize = if digs.len() < min_width {
        min_width - digs.len()
    } else {
        0
    };
    let ghost padded = pad_left_zeros(dec_seq(n as nat), min_width as nat);
    proof {
        assert(dec_seq(n as nat).len() == digs@.len());
        assert(padded =~= Seq::new(pad as nat, |i: int| '0') + rev_digit_chars(digs@));
    }
    let mut k: usize = 0;
    while k < pad
        invariant
            k <= pad,
            s@ == base + Seq::new(k as nat, |i: int| '0'),
        decreases pad - k,
    {
        proof {
            reveal_strlit("0");
        }
        s.append("0");
        proof {
            assert(s@ =~= base + Seq::new((k + 1) as nat, |i: int| '0'));
        }
        k += 1;
    }
    let ghost zeros = Seq::new(pad as nat, |i: int| '0');
    let mut i: usize = digs.len();
    while i > 0
        invariant
            i <= digs@.len(),
            forall|k: int| 0 <= k < digs@.len() ==> digs@[k] < 10,
            s@ == base + zeros + rev_digit_chars(digs@).take(digs@.len() - i),
        decreases i,
    {
        let ghost done = digs@.len() - i;
        i -= 1;
        s.append(digit_str(digs[i]));
        proof {
            assert(rev_digit_chars(digs@)[done] == digit_char(digs@[i as int] as int));
            assert(rev_digit_chars(digs@).take(done + 1) =~= rev_digit_chars(digs@).take(
                done,
            ).push(digit_char(digs@[i as int] as int)));
            assert(s@ =~= base + zeros + rev_digit_chars(digs@).take(done + 1));
        }
    }
    proof {
        assert(rev_digit_chars(digs@).take(digs@.len() as int) =~= rev_digit_chars(digs@));
        assert(s@ =~= base + padded);
    }
}

/// The unsigned magnitude of `x`.
fn unsigned_magnitude(x: i128) -> (m: u128)
    ensures
        m as int == if x < 0 {
            -(x as int)
        } else {
            x as int
        },
{
    if x >= 0 {
        x as u128
    } else {
        ((-1 - x) as u128) + 1
    }
}

/// Ten to the power `d`, as a machine value.
fn pow10_u128(d: u32) -> (r: u128)
    requires
        pow10(d as nat) <= u128::MAX,
    ensures
        r as nat == pow10(d as nat),
{
    let mut r: u128 = 1;
    let mut i: u32 = 0;
    while i < d
        invariant
            i <= d,
            r as nat == pow10(i as nat),
            pow10(d as nat) <= u128::MAX,
        decreases d - i,
    {
        proof {
            lemma_pow10_monotonic((i + 1) as nat, d as nat);
        }
        r = r * 10;
        i += 1;
    }
    r
}

/// Render one fixed-point value with `decimals` implied decimal places.
pub fn format_fixed(x: i128, decimals: u32) -> (s: String)
    requires
        pow10(decimals as nat) <= u128::MAX,
    ensures
        s@ == spec_format_fixed(x as int, decimals as nat),
{
    let scale = pow10_u128(decimals);
    proof {
        lemma_pow10_positive(decimals as nat);
    }
    let mag = unsigned_magnitude(x);
    let ip = mag / scale;
    let fp = mag % scale;
    let mut s = String::new();
    if x < 0 {
        proof {
            reveal_strlit("-");
        }
        s.append("-");
        proof {
            assert(s@ =~= seq!['-']);
        }
    }
    let ghost sign_part = s@;
    append_dec(&mut s, ip, 0);
    proof {
        assert(pad_left_zeros(dec_seq(ip as nat), 0) == dec_seq(ip as nat));
        reveal_strlit(".");
    }
    s.append(".");
    append_dec(&mut s, fp, decimals as usize);
    proof {
        assert((".")@ =~= seq!['.']);
        assert(s@ =~= sign_part + dec_seq(ip as nat) + seq!['.'] + pad_left_zeros(
            dec_seq(fp as nat),
            decimals as nat,
        ));
        assert(s@ =~= spec_format_fixed(x as int, decimals as nat));
    }
    s
}

/// Render every emitted position for display. The conversion is total for
/// this fixed-width representation, so the result is always `Some`, and it
/// is exactly the display form of the input — formatting is deterministic.
pub fn format_positions(all_positions: &Vec<Position>) -> (r: Option<Vec<FormattedPosition>>)
    ensures
        match r {
            Some(out) => formatted_views(out@) == spec_format_positions(
                position_views(all_positions@),
            ),
            None => false,
        },
{
    let ghost pv = position_views(all_positions@);
    let mut out: Vec<FormattedPosition> = Vec::new();
    proof {
        lemma_pow10_36_fits();
        assert(formatted_views(out@) =~= spec_format_positions(pv.take(0)));
    }
    let mut i: usize = 0;
    while i < all_positions.len()
        invariant
            i <= all_positions@.len(),
            pv == position_views(all_positions@),
            pow10(18) <= u128::MAX,
            pow10(36) <= u128::MAX,
            formatted_views(out@) == spec_format_positions(pv.take(i as int)),
        decreases all_positions@.len() - i,
    {
        let ghost out_pre = formatted_views(out@);
        let p = &all_positions[i];
        let f = FormattedPosition {
            size: format_fixed(p.size, 18),
            avg_entry_price: format_fixed(p.avg_entry_price, 18),
            is_long: p.is_long,
            unrealized_pnl: format_fixed(p.unrealized_pnl, 36),
            realized_pnl: format_fixed(p.realized_pnl, 36),
            underlying: p.underlying.clone(),
        };
        out.push(f);
        proof {
            assert(pv[i as int] == all_positions@[i as int]@);
            assert(formatted_views(out@) =~= out_pre.push(spec_format_position(pv[i as int])));
            assert(spec_format_positions(pv.take(i + 1)) =~= spec_format_positions(
                pv.take(i as int),
            ).push(spec_format_position(pv[i as int])));
        }
        i += 1;
    }
    proof {
        assert(pv.take(pv.len() as int) =~= pv);
    }
    Some(out)
}

} // verus!
