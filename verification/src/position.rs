//! Per-instrument running position state.
//!
//! A position carries a signed quantity (positive = long, negative =
//! short, zero = flat), the average cost of the open exposure, the
//! cumulative realized profit and loss, and the invested cost of the
//! current directional leg. `update_position` applies one trade's
//! effect, exactly as `spec_apply` states it:
//!
//! * a trade in the position's direction (or from flat) blends into the
//!   weighted-average cost and realizes nothing;
//! * a trade against the position closes the smaller of its quantity and
//!   the open exposure, realizing the price difference on the closed
//!   part; a remainder beyond the exposure flips the position, opening
//!   the remainder at the trade's price;
//! * a quantity reaching exactly zero resets average price and invested
//!   cost to zero.

use vstd::prelude::*;
use crate::money::{
    Money, Rational, rat_add, rat_sub, rat_mul_int, rat_div_int, rat_eq, rat_zero, rat_wf,
    rat_fits, in_i64_range,
};
use crate::trade::{Trade, TradeModel, TradeError, Side, trade_valid};

verus! {

/// Mathematical model of a position.
pub struct PositionModel {
    pub instrument: Seq<char>,
    pub quantity: int,
    pub average_price: Rational,
    pub realized_pnl: Rational,
    pub total_cost: Rational,
}

/// Running position for one instrument.
#[derive(Debug)]
pub struct TradePosition {
    pub instrument: String,
    pub quantity: i64,
    pub average_price: Money,
    pub realized_pnl: Money,
    pub total_cost: Money,
}

impl View for TradePosition {
    type V = PositionModel;

    open spec fn view(&self) -> PositionModel {
        PositionModel {
            instrument: self.instrument@,
            quantity: self.quantity as int,
            average_price: self.average_price@,
            realized_pnl: self.realized_pnl@,
            total_cost: self.total_cost@,
        }
    }
}

pub open spec fn abs_of(x: int) -> int {
    if x >= 0 {
        x
    } else {
        -x
    }
}

/// The flat (empty) position of an instrument.
pub open spec fn flat_position(instrument: Seq<char>) -> PositionModel {
    PositionModel {
        instrument: instrument,
        quantity: 0,
        average_price: rat_zero(),
        realized_pnl: rat_zero(),
        total_cost: rat_zero(),
    }
}

/// Position invariants: well-formed amounts, a non-negative average
/// price whatever the position's direction, zero average price and cost
/// when flat, and an invested cost equal in value to the average price
/// times the absolute open quantity.
pub open spec fn pos_wf(p: PositionModel) -> bool {
    &&& rat_wf(p.average_price)
    &&& rat_wf(p.realized_pnl)
    &&& rat_wf(p.total_cost)
    &&& p.average_price.num >= 0
    &&& p.total_cost.num >= 0
    &&& p.quantity == 0 ==> p.average_price.num == 0 && p.total_cost.num == 0
    &&& rat_eq(p.total_cost, rat_mul_int(p.average_price, abs_of(p.quantity)))
}

/// The effect of one trade on a position.
pub open spec fn spec_apply(p: PositionModel, t: TradeModel) -> PositionModel {
    let q = t.quantity;
    match t.side {
        Side::Buy => {
            if p.quantity > 0 {
                // extend the long: blend the cost, spread it over the new size
                let cost = rat_add(p.total_cost, rat_mul_int(t.price, q));
                PositionModel {
                    quantity: p.quantity + q,
                    average_price: rat_div_int(cost, p.quantity + q),
                    total_cost: cost,
                    ..p
                }
            } else if p.quantity == 0 {
                // open a long at the trade's price
                PositionModel {
                    quantity: q,
                    average_price: t.price,
                    total_cost: rat_mul_int(t.price, q),
                    ..p
                }
            } else if q < -p.quantity {
                // cover part of the short: realize (average − price) per unit
                PositionModel {
                    quantity: p.quantity + q,
                    realized_pnl: rat_add(
                        p.realized_pnl,
                        rat_mul_int(rat_sub(p.average_price, t.price), q),
                    ),
                    total_cost: rat_mul_int(p.average_price, -(p.quantity + q)),
                    ..p
                }
            } else if q == -p.quantity {
                // cover the short exactly: flatten
                PositionModel {
                    quantity: 0,
                    average_price: rat_zero(),
                    realized_pnl: rat_add(
                        p.realized_pnl,
                        rat_mul_int(rat_sub(p.average_price, t.price), q),
                    ),
                    total_cost: rat_zero(),
                    ..p
                }
            } else {
                // flip: cover the whole short, open a long with the rest
                let rem = q + p.quantity;
                PositionModel {
                    quantity: rem,
                    average_price: t.price,
                    realized_pnl: rat_add(
                        p.realized_pnl,
                        rat_mul_int(rat_sub(p.average_price, t.price), -p.quantity),
                    ),
                    total_cost: rat_mul_int(t.price, rem),
                    ..p
                }
            }
        },
        Side::Sell => {
            if p.quantity < 0 {
                // extend the short: blend the cost, spread it over the new size
                let cost = rat_add(p.total_cost, rat_mul_int(t.price, q));
                PositionModel {
                    quantity: p.quantity - q,
                    average_price: rat_div_int(cost, -(p.quantity - q)),
                    total_cost: cost,
                    ..p
                }
            } else if p.quantity == 0 {
                // open a short at the trade's price
                PositionModel {
                    quantity: -q,
                    average_price: t.price,
                    total_cost: rat_mul_int(t.price, q),
                    ..p
                }
            } else if q < p.quantity {
                // reduce the long: realize (price − average) per unit
                PositionModel {
                    quantity: p.quantity - q,
                    realized_pnl: rat_add(
                        p.realized_pnl,
                        rat_mul_int(rat_sub(t.price, p.average_price), q),
                    ),
                    total_cost: rat_mul_int(p.average_price, p.quantity - q),
                    ..p
                }
            } else if q == p.quantity {
                // sell the long exactly: flatten
                PositionModel {
                    quantity: 0,
                    average_price: rat_zero(),
                    realized_pnl: rat_add(
                        p.realized_pnl,
                        rat_mul_int(rat_sub(t.price, p.average_price), q),
                    ),
                    total_cost: rat_zero(),
                    ..p
                }
            } else {
                // flip: sell the whole long, open a short with the rest
                let rem = q - p.quantity;
                PositionModel {
                    quantity: -rem,
                    average_price: t.price,
                    realized_pnl: rat_add(
                        p.realized_pnl,
                        rat_mul_int(rat_sub(t.price, p.average_price), p.quantity),
                    ),
                    total_cost: rat_mul_int(t.price, rem),
                    ..p
                }
            }
        },
    }
}

/// Whether every exact intermediate of `spec_apply` fits the 64-bit
/// representation; `update_position` succeeds exactly on these inputs.
pub open spec fn apply_fits(p: PositionModel, t: TradeModel) -> bool {
    let q = t.quantity;
    match t.side {
        Side::Buy => {
            if p.quantity > 0 {
                let cost = rat_add(p.total_cost, rat_mul_int(t.price, q));
                &&& in_i64_range(t.price.num * q)
                &&& rat_fits(cost)
                &&& in_i64_range(p.quantity + q)
                &&& in_i64_range(cost.den * (p.quantity + q))
            } else if p.quantity == 0 {
                in_i64_range(t.price.num * q)
            } else if q < -p.quantity {
                let gain = rat_mul_int(rat_sub(p.average_price, t.price), q);
                &&& rat_fits(rat_sub(p.average_price, t.price))
                &&& in_i64_range(gain.num)
                &&& rat_fits(rat_add(p.realized_pnl, gain))
                &&& in_i64_range(p.average_price.num * (-(p.quantity + q)))
            } else if q == -p.quantity {
                let gain = rat_mul_int(rat_sub(p.average_price, t.price), q);
                &&& rat_fits(rat_sub(p.average_price, t.price))
                &&& in_i64_range(gain.num)
                &&& rat_fits(rat_add(p.realized_pnl, gain))
            } else {
                let gain = rat_mul_int(rat_sub(p.average_price, t.price), -p.quantity);
                &&& in_i64_range(-p.quantity)
                &&& rat_fits(rat_sub(p.average_price, t.price))
                &&& in_i64_range(gain.num)
                &&& rat_fits(rat_add(p.realized_pnl, gain))
                &&& in_i64_range(t.price.num * (q + p.quantity))
            }
        },
        Side::Sell => {
            if p.quantity < 0 {
                let cost = rat_add(p.total_cost, rat_mul_int(t.price, q));
                &&& in_i64_range(t.price.num * q)
                &&& rat_fits(cost)
                &&& in_i64_range(p.quantity - q)
                &&& in_i64_range(-(p.quantity - q))
                &&& in_i64_range(cost.den * (-(p.quantity - q)))
            } else if p.quantity == 0 {
                in_i64_range(t.price.num * q)
            } else if q < p.quantity {
                let gain = rat_mul_int(rat_sub(t.price, p.average_price), q);
                &&& rat_fits(rat_sub(t.price, p.average_price))
                &&& in_i64_range(gain.num)
                &&& rat_fits(rat_add(p.realized_pnl, gain))
                &&& in_i64_range(p.average_price.num * (p.quantity - q))
            } else if q == p.quantity {
                let gain = rat_mul_int(rat_sub(t.price, p.average_price), q);
                &&& rat_fits(rat_sub(t.price, p.average_price))
                &&& in_i64_range(gain.num)
                &&& rat_fits(rat_add(p.realized_pnl, gain))
            } else {
                let gain = rat_mul_int(rat_sub(t.price, p.average_price), p.quantity);
                &&& rat_fits(rat_sub(t.price, p.average_price))
                &&& in_i64_range(gain.num)
                &&& rat_fits(rat_add(p.realized_pnl, gain))
                &&& in_i64_range(t.price.num * (q - p.quantity))
            }
        },
    }
}

proof fn lemma_mul_pos(a: int, b: int)
    requires
        a > 0,
        b > 0,
    ensures
        a * b > 0,
{
    assert(a * b > 0) by (nonlinear_arith)
        requires
            a > 0,
            b > 0,
    ;
}

proof fn lemma_mul_nonneg(a: int, b: int)
    requires
        a >= 0,
        b >= 0,
    ensures
        a * b >= 0,
{
    assert(a * b >= 0) by (nonlinear_arith)
        requires
            a >= 0,
            b >= 0,
    ;
}

/// `(a / b) * k == (a * k) / b` as values: cross-multiplied equality of
/// the cost and the derived average times the size.
proof fn lemma_div_mul_cancel(n: int, d: int, k: int)
    ensures
        n * (d * k) == (n * k) * d,
{
    assert(n * (d * k) == (n * k) * d) by (nonlinear_arith);
}

/// Applying an accepted trade preserves the position invariants.
pub proof fn lemma_apply_preserves_wf(p: PositionModel, t: TradeModel)
    requires
        pos_wf(p),
        trade_valid(t),
    ensures
        pos_wf(spec_apply(p, t)),
{
    let q = t.quantity;
    let pr = t.price;
    let res = spec_apply(p, t);
    match t.side {
        Side::Buy => {
            if p.quantity > 0 {
                let cost = rat_add(p.total_cost, rat_mul_int(pr, q));
                lemma_mul_pos(p.total_cost.den, pr.den);
                lemma_mul_nonneg(p.total_cost.num, pr.den);
                lemma_mul_pos(pr.num, q);
                lemma_mul_nonneg(pr.num * q, p.total_cost.den);
                assert(cost.num >= 0);
                lemma_mul_pos(cost.den, p.quantity + q);
                lemma_div_mul_cancel(cost.num, cost.den, p.quantity + q);
                assert(rat_eq(res.total_cost, rat_mul_int(res.average_price, abs_of(res.quantity))));
            } else if p.quantity == 0 {
                lemma_mul_pos(pr.num, q);
                assert(rat_eq(res.total_cost, rat_mul_int(res.average_price, abs_of(res.quantity))));
            } else if q < -p.quantity {
                lemma_mul_pos(p.average_price.den, pr.den);
                lemma_mul_pos(p.realized_pnl.den, p.average_price.den * pr.den);
                lemma_mul_nonneg(p.average_price.num, -(p.quantity + q));
                assert(rat_eq(res.total_cost, rat_mul_int(res.average_price, abs_of(res.quantity))));
            } else if q == -p.quantity {
                lemma_mul_pos(p.average_price.den, pr.den);
                lemma_mul_pos(p.realized_pnl.den, p.average_price.den * pr.den);
                assert(rat_eq(res.total_cost, rat_mul_int(res.average_price, abs_of(res.quantity))));
            } else {
                let rem = q + p.quantity;
                lemma_mul_pos(p.average_price.den, pr.den);
                lemma_mul_pos(p.realized_pnl.den, p.average_price.den * pr.den);
                lemma_mul_pos(pr.num, rem);
                assert(rat_eq(res.total_cost, rat_mul_int(res.average_price, abs_of(res.quantity))));
            }
        },
        Side::Sell => {
            if p.quantity < 0 {
                let cost = rat_add(p.total_cost, rat_mul_int(pr, q));
                lemma_mul_pos(p.total_cost.den, pr.den);
                lemma_mul_nonneg(p.total_cost.num, pr.den);
                lemma_mul_pos(pr.num, q);
                lemma_mul_nonneg(pr.num * q, p.total_cost.den);
                assert(cost.num >= 0);
                lemma_mul_pos(cost.den, -(p.quantity - q));
                lemma_div_mul_cancel(cost.num, cost.den, -(p.quantity - q));
                assert(rat_eq(res.total_cost, rat_mul_int(res.average_price, abs_of(res.quantity))));
            } else if p.quantity == 0 {
                lemma_mul_pos(pr.num, q);
                assert(rat_eq(res.total_cost, rat_mul_int(res.average_price, abs_of(res.quantity))));
            } else if q < p.quantity {
                lemma_mul_pos(pr.den, p.average_price.den);
                lemma_mul_pos(p.realized_pnl.den, pr.den * p.average_price.den);
                lemma_mul_nonneg(p.average_price.num, p.quantity - q);
                assert(rat_eq(res.total_cost, rat_mul_int(res.average_price, abs_of(res.quantity))));
            } else if q == p.quantity {
                lemma_mul_pos(pr.den, p.average_price.den);
                lemma_mul_pos(p.realized_pnl.den, pr.den * p.average_price.den);
                assert(rat_eq(res.total_cost, rat_mul_int(res.average_price, abs_of(res.quantity))));
            } else {
                let rem = q - p.quantity;
                lemma_mul_pos(pr.den, p.average_price.den);
                lemma_mul_pos(p.realized_pnl.den, pr.den * p.average_price.den);
                lemma_mul_pos(pr.num, rem);
                assert(rat_eq(res.total_cost, rat_mul_int(res.average_price, abs_of(res.quantity))));
            }
        },
    }
}

/// Paper profit and loss of the open exposure against a market price:
/// `(market − average) × quantity`, zero when flat. The sign is correct
/// for long and short positions alike.
pub open spec fn spec_unrealized(p: PositionModel, market: Rational) -> Rational {
    if p.quantity == 0 {
        rat_zero()
    } else {
        rat_mul_int(rat_sub(market, p.average_price), p.quantity)
    }
}

pub open spec fn unrealized_fits(p: PositionModel, market: Rational) -> bool {
    p.quantity != 0 ==> rat_fits(rat_sub(market, p.average_price)) && in_i64_range(
        rat_sub(market, p.average_price).num * p.quantity,
    )
}

/// Market value of the position: `quantity × market price`.
pub open spec fn spec_market_value(p: PositionModel, market: Rational) -> Rational {
    rat_mul_int(market, p.quantity)
}

/// Paper profit and loss of a well-formed position against a
/// well-formed market price is well-formed.
pub proof fn lemma_unrealized_wf(p: PositionModel, market: Rational)
    requires
        pos_wf(p),
        rat_wf(market),
    ensures
        rat_wf(spec_unrealized(p, market)),
{
    if p.quantity != 0 {
        lemma_mul_pos(market.den, p.average_price.den);
    }
}

/// Law: selling less than the open long quantity leaves the average
/// price unchanged, reduces the quantity by the sold amount, and
/// realizes `(price − average) × sold`.
pub proof fn lemma_sell_preserves_average(p: PositionModel, t: TradeModel)
    requires
        t.side == Side::Sell,
        0 < t.quantity < p.quantity,
    ensures
        spec_apply(p, t).average_price == p.average_price,
        spec_apply(p, t).quantity == p.quantity - t.quantity,
        spec_apply(p, t).realized_pnl == rat_add(
            p.realized_pnl,
            rat_mul_int(rat_sub(t.price, p.average_price), t.quantity),
        ),
{
}

/// Law: selling exactly the remaining long quantity always drives the
/// average price and the invested cost to zero.
pub proof fn lemma_flatten_resets_cost_basis(p: PositionModel, t: TradeModel)
    requires
        t.side == Side::Sell,
        p.quantity > 0,
        t.quantity == p.quantity,
    ensures
        spec_apply(p, t).quantity == 0,
        spec_apply(p, t).average_price == rat_zero(),
        spec_apply(p, t).total_cost == rat_zero(),
{
}

/// Law: buying into an open long position yields the weighted-average
/// cost `(old_avg × old_qty + price × qty) / new_qty`, as a rational
/// value.
#[verifier::rlimit(100)]
pub proof fn lemma_buy_blend_average(p: PositionModel, t: TradeModel)
    requires
        pos_wf(p),
        trade_valid(t),
        t.side == Side::Buy,
        p.quantity > 0,
    ensures
        rat_eq(
            spec_apply(p, t).average_price,
            rat_div_int(
                rat_add(rat_mul_int(p.average_price, p.quantity), rat_mul_int(t.price, t.quantity)),
                p.quantity + t.quantity,
            ),
        ),
{
    let q = t.quantity;
    let qty = p.quantity;
    let tc = p.total_cost;
    let avg = p.average_price;
    let pr = t.price;
    assert(tc.num * avg.den == (avg.num * qty) * tc.den);
    lemma_blend_core(tc.num, tc.den, avg.num, avg.den, pr.num, pr.den, q, qty);
    lemma_scale(
        tc.num * pr.den + (pr.num * q) * tc.den,
        (avg.num * qty) * pr.den + (pr.num * q) * avg.den,
        avg.den,
        tc.den,
        pr.den,
        qty + q,
    );
}

/// Cross-multiplied equality of the blended cost and the weighted sum,
/// from the cost invariant `tn / td == (an × qty) / ad`.
proof fn lemma_blend_core(tn: int, td: int, an: int, ad: int, pn: int, pd: int, q: int, qty: int)
    requires
        tn * ad == (an * qty) * td,
    ensures
        (tn * pd + (pn * q) * td) * ad == ((an * qty) * pd + (pn * q) * ad) * td,
{
    assert((tn * pd + (pn * q) * td) * ad == ((an * qty) * pd + (pn * q) * ad) * td)
        by (nonlinear_arith)
        requires
            tn * ad == (an * qty) * td,
    ;
}

/// An equal cross-product stays equal when both denominators take the
/// same two extra factors.
proof fn lemma_scale(a1: int, c1: int, x: int, y: int, s1: int, s2: int)
    requires
        a1 * x == c1 * y,
    ensures
        a1 * ((x * s1) * s2) == c1 * ((y * s1) * s2),
{
    assert(a1 * ((x * s1) * s2) == c1 * ((y * s1) * s2)) by (nonlinear_arith)
        requires
            a1 * x == c1 * y,
    ;
}

impl Clone for TradePosition {
    fn clone(&self) -> (p: TradePosition)
        ensures
            p == *self,
    {
        TradePosition {
            instrument: self.instrument.clone(),
            quantity: self.quantity,
            average_price: self.average_price,
            realized_pnl: self.realized_pnl,
            total_cost: self.total_cost,
        }
    }
}

impl TradePosition {
    /// The flat position of an instrument.
    pub fn new(instrument: String) -> (p: TradePosition)
        ensures
            p@ == flat_position(instrument@),
            pos_wf(p@),
    {
        TradePosition {
            instrument,
            quantity: 0,
            average_price: Money::from_int(0),
            realized_pnl: Money::from_int(0),
            total_cost: Money::from_int(0),
        }
    }

    /// Paper profit and loss against a market price; `None` exactly
    /// when the exact result does not fit.
    pub fn unrealized_pnl(&self, market_price: &Money) -> (r: Option<Money>)
        ensures
            r is Some <==> unrealized_fits(self@, market_price@),
            r matches Some(m) ==> m@ == spec_unrealized(self@, market_price@),
    {
        if self.quantity == 0 {
            Some(Money::from_int(0))
        } else {
            let diff: Money = match market_price.sub_rat(&self.average_price) {
                Some(m) => m,
                None => {
                    return None;
                },
            };
            diff.mul_int(self.quantity)
        }
    }

    /// Realized plus unrealized profit and loss; `None` exactly when
    /// the exact result does not fit.
    pub fn total_pnl(&self, market_price: &Money) -> (r: Option<Money>)
        ensures
            r is Some <==> unrealized_fits(self@, market_price@) && rat_fits(
                rat_add(self@.realized_pnl, spec_unrealized(self@, market_price@)),
            ),
            r matches Some(m) ==> m@ == rat_add(
                self@.realized_pnl,
                spec_unrealized(self@, market_price@),
            ),
    {
        let unreal: Money = match self.unrealized_pnl(market_price) {
            Some(m) => m,
            None => {
                return None;
            },
        };
        self.realized_pnl.add_rat(&unreal)
    }

    /// Market value of the position: `quantity × market price`; `None`
    /// exactly when the exact result does not fit.
    pub fn market_value(&self, market_price: &Money) -> (r: Option<Money>)
        ensures
            r is Some <==> in_i64_range(market_price@.num * self@.quantity),
            r matches Some(m) ==> m@ == spec_market_value(self@, market_price@),
    {
        market_price.mul_int(self.quantity)
    }

    /// Apply one trade's effect, exactly as `spec_apply` states it.
    /// Rejects a trade with a non-positive quantity or price, and
    /// reports `Overflow` (leaving the position unchanged) exactly when
    /// an intermediate value does not fit.
    pub fn update_position(&mut self, trade: &Trade) -> (r: Result<(), TradeError>)
        ensures
            !trade_valid(trade@) <==> r == Err::<(), TradeError>(TradeError::InvalidTrade),
            trade_valid(trade@) && !apply_fits(old(self)@, trade@) <==> r == Err::<(), TradeError>(
                TradeError::Overflow,
            ),
            r is Ok <==> trade_valid(trade@) && apply_fits(old(self)@, trade@),
            r is Ok ==> final(self)@ == spec_apply(old(self)@, trade@),
            r is Err ==> final(self)@ == old(self)@,
            r is Ok && pos_wf(old(self)@) ==> pos_wf(final(self)@),
            final(self)@.instrument == old(self)@.instrument,
    {
        proof {
            if trade_valid(trade@) && pos_wf(old(self)@) {
                lemma_apply_preserves_wf(old(self)@, trade@);
            }
        }
        if trade.quantity <= 0 || trade.price.num <= 0 || trade.price.den <= 0 {
            return Err(TradeError::InvalidTrade);
        }
        let q: i64 = trade.quantity;
        match trade.side {
            Side::Buy => {
                if self.quantity > 0 {
                    let pq: Money = match trade.price.mul_int(q) {
                        Some(m) => m,
                        None => {
                            return Err(TradeError::Overflow);
                        },
                    };
                    let cost: Money = match self.total_cost.add_rat(&pq) {
                        Some(m) => m,
                        None => {
                            return Err(TradeError::Overflow);
                        },
                    };
                    let new_qty: i64 = match self.quantity.checked_add(q) {
                        Some(v) => v,
                        None => {
                            return Err(TradeError::Overflow);
                        },
                    };
                    let avg: Money = match cost.div_int(new_qty) {
                        Some(m) => m,
                        None => {
                            return Err(TradeError::Overflow);
                        },
                    };
                    self.quantity = new_qty;
                    self.average_price = avg;
                    self.total_cost = cost;
                    Ok(())
                } else if self.quantity == 0 {
                    let cost: Money = match trade.price.mul_int(q) {
                        Some(m) => m,
                        None => {
                            return Err(TradeError::Overflow);
                        },
                    };
                    self.quantity = q;
                    self.average_price = trade.price;
                    self.total_cost = cost;
                    Ok(())
                } else {
                    // the position is short: cover, and perhaps flip
                    let short_size: i128 = -(self.quantity as i128);
                    if (q as i128) < short_size {
                        let diff: Money = match self.average_price.sub_rat(&trade.price) {
                            Some(m) => m,
                            None => {
                                return Err(TradeError::Overflow);
                            },
                        };
                        let gain: Money = match diff.mul_int(q) {
                            Some(m) => m,
                            None => {
                                return Err(TradeError::Overflow);
                            },
                        };
                        let realized: Money = match self.realized_pnl.add_rat(&gain) {
                            Some(m) => m,
                            None => {
                                return Err(TradeError::Overflow);
                            },
                        };
                        let new_qty: i64 = self.quantity + q;
                        let cost: Money = match self.average_price.mul_int(-new_qty) {
                            Some(m) => m,
                            None => {
                                return Err(TradeError::Overflow);
                            },
                        };
                        self.quantity = new_qty;
                        self.realized_pnl = realized;
                        self.total_cost = cost;
                        Ok(())
                    } else if (q as i128) == short_size {
                        let diff: Money = match self.average_price.sub_rat(&trade.price) {
                            Some(m) => m,
                            None => {
                                return Err(TradeError::Overflow);
                            },
                        };
                        let gain: Money = match diff.mul_int(q) {
                            Some(m) => m,
                            None => {
                                return Err(TradeError::Overflow);
                            },
                        };
                        let realized: Money = match self.realized_pnl.add_rat(&gain) {
                            Some(m) => m,
                            None => {
                                return Err(TradeError::Overflow);
                            },
                        };
                        self.quantity = 0;
                        self.average_price = Money::from_int(0);
                        self.realized_pnl = realized;
                        self.total_cost = Money::from_int(0);
                        Ok(())
                    } else {
                        if short_size > i64::MAX as i128 {
                            return Err(TradeError::Overflow);
                        }
                        let covered: i64 = short_size as i64;
                        let diff: Money = match self.average_price.sub_rat(&trade.price) {
                            Some(m) => m,
                            None => {
                                return Err(TradeError::Overflow);
                            },
                        };
                        let gain: Money = match diff.mul_int(covered) {
                            Some(m) => m,
                            None => {
                                return Err(TradeError::Overflow);
                            },
                        };
                        let realized: Money = match self.realized_pnl.add_rat(&gain) {
                            Some(m) => m,
                            None => {
                                return Err(TradeError::Overflow);
                            },
                        };
                        let rem: i64 = q + self.quantity;
                        let cost: Money = match trade.price.mul_int(rem) {
                            Some(m) => m,
                            None => {
                                return Err(TradeError::Overflow);
                            },
                        };
                        self.quantity = rem;
                        self.average_price = trade.price;
                        self.realized_pnl = realized;
                        self.total_cost = cost;
                        Ok(())
                    }
                }
            },
            Side::Sell => {
                if self.quantity < 0 {
                    let pq: Money = match trade.price.mul_int(q) {
                        Some(m) => m,
                        None => {
                            return Err(TradeError::Overflow);
                        },
                    };
                    let cost: Money = match self.total_cost.add_rat(&pq) {
                        Some(m) => m,
                        None => {
                            return Err(TradeError::Overflow);
                        },
                    };
                    let new_qty: i64 = match self.quantity.checked_sub(q) {
                        Some(v) => v,
                        None => {
                            return Err(TradeError::Overflow);
                        },
                    };
                    let wide_size: i128 = -(new_qty as i128);
                    if wide_size > i64::MAX as i128 {
                        return Err(TradeError::Overflow);
                    }
                    let new_size: i64 = wide_size as i64;
                    let avg: Money = match cost.div_int(new_size) {
                        Some(m) => m,
                        None => {
                            return Err(TradeError::Overflow);
                        },
                    };
                    self.quantity = new_qty;
                    self.average_price = avg;
                    self.total_cost = cost;
                    Ok(())
                } else if self.quantity == 0 {
                    let cost: Money = match trade.price.mul_int(q) {
                        Some(m) => m,
                        None => {
                            return Err(TradeError::Overflow);
                        },
                    };
                    self.quantity = -q;
                    self.average_price = trade.price;
                    self.total_cost = cost;
                    Ok(())
                } else if q < self.quantity {
                    let diff: Money = match trade.price.sub_rat(&self.average_price) {
                        Some(m) => m,
                        None => {
                            return Err(TradeError::Overflow);
                        },
                    };
                    let gain: Money = match diff.mul_int(q) {
                        Some(m) => m,
                        None => {
                            return Err(TradeError::Overflow);
                        },
                    };
                    let realized: Money = match self.realized_pnl.add_rat(&gain) {
                        Some(m) => m,
                        None => {
                            return Err(TradeError::Overflow);
                        },
                    };
                    let new_qty: i64 = self.quantity - q;
                    let cost: Money = match self.average_price.mul_int(new_qty) {
                        Some(m) => m,
                        None => {
                            return Err(TradeError::Overflow);
                        },
                    };
                    self.quantity = new_qty;
                    self.realized_pnl = realized;
                    self.total_cost = cost;
                    Ok(())
                } else if q == self.quantity {
                    let diff: Money = match trade.price.sub_rat(&self.average_price) {
                        Some(m) => m,
                        None => {
                            return Err(TradeError::Overflow);
                        },
                    };
                    let gain: Money = match diff.mul_int(q) {
                        Some(m) => m,
                        None => {
                            return Err(TradeError::Overflow);
                        },
                    };
                    let realized: Money = match self.realized_pnl.add_rat(&gain) {
                        Some(m) => m,
                        None => {
                            return Err(TradeError::Overflow);
                        },
                    };
                    self.quantity = 0;
                    self.average_price = Money::from_int(0);
                    self.realized_pnl = realized;
                    self.total_cost = Money::from_int(0);
                    Ok(())
                } else {
                    let diff: Money = match trade.price.sub_rat(&self.average_price) {
                        Some(m) => m,
                        None => {
                            return Err(TradeError::Overflow);
                        },
                    };
                    let gain: Money = match diff.mul_int(self.quantity) {
                        Some(m) => m,
                        None => {
                            return Err(TradeError::Overflow);
                        },
                    };
                    let realized: Money = match self.realized_pnl.add_rat(&gain) {
                        Some(m) => m,
                        None => {
                            return Err(TradeError::Overflow);
                        },
                    };
                    let rem: i64 = q - self.quantity;
                    let cost: Money = match trade.price.mul_int(rem) {
                        Some(m) => m,
                        None => {
                            return Err(TradeError::Overflow);
                        },
                    };
                    self.quantity = -rem;
                    self.average_price = trade.price;
                    self.realized_pnl = realized;
                    self.total_cost = cost;
                    Ok(())
                }
            },
        }
    }
}

} // verus!
