//! Declarative trade filters.
//!
//! A filter is a set of optional constraints; a trade matches when every
//! constraint that is present holds. Range constraints are inclusive on
//! both bounds; an absent constraint restricts nothing.

use vstd::prelude::*;
use crate::money::{Money, Rational, rat_le};
use crate::trade::{Trade, TradeModel, Side, TradeType, TradeStatus};

verus! {

/// Mathematical model of a filter.
pub struct FilterModel {
    pub instrument: Option<Seq<char>>,
    pub side: Option<Side>,
    pub trade_type: Option<TradeType>,
    pub status: Option<TradeStatus>,
    pub date_from: Option<int>,
    pub date_to: Option<int>,
    pub min_quantity: Option<int>,
    pub max_quantity: Option<int>,
    pub min_price: Option<Rational>,
    pub max_price: Option<Rational>,
}

/// Builder-style set of optional constraints over trades.
#[derive(Debug)]
pub struct TradeFilter {
    pub instrument: Option<String>,
    pub side: Option<Side>,
    pub trade_type: Option<TradeType>,
    pub status: Option<TradeStatus>,
    pub date_from: Option<i64>,
    pub date_to: Option<i64>,
    pub min_quantity: Option<i64>,
    pub max_quantity: Option<i64>,
    pub min_price: Option<Money>,
    pub max_price: Option<Money>,
}

impl View for TradeFilter {
    type V = FilterModel;

    open spec fn view(&self) -> FilterModel {
        FilterModel {
            instrument: match self.instrument {
                Some(ref s) => Some(s@),
                None => None,
            },
            side: self.side,
            trade_type: self.trade_type,
            status: self.status,
            date_from: match self.date_from {
                Some(d) => Some(d as int),
                None => None,
            },
            date_to: match self.date_to {
                Some(d) => Some(d as int),
                None => None,
            },
            min_quantity: match self.min_quantity {
                Some(q) => Some(q as int),
                None => None,
            },
            max_quantity: match self.max_quantity {
                Some(q) => Some(q as int),
                None => None,
            },
            min_price: match self.min_price {
                Some(p) => Some(p@),
                None => None,
            },
            max_price: match self.max_price {
                Some(p) => Some(p@),
                None => None,
            },
        }
    }
}

/// The filter with no constraints.
pub open spec fn empty_filter() -> FilterModel {
    FilterModel {
        instrument: None,
        side: None,
        trade_type: None,
        status: None,
        date_from: None,
        date_to: None,
        min_quantity: None,
        max_quantity: None,
        min_price: None,
        max_price: None,
    }
}

/// A trade matches a filter when all present constraints hold; range
/// constraints are inclusive on both bounds.
pub open spec fn spec_matches(t: TradeModel, f: FilterModel) -> bool {
    &&& (f.instrument matches Some(i) ==> t.instrument == i)
    &&& (f.side matches Some(s) ==> t.side == s)
    &&& (f.trade_type matches Some(ty) ==> t.trade_type == ty)
    &&& (f.status matches Some(st) ==> t.status == st)
    &&& (f.date_from matches Some(d) ==> t.trade_date >= d)
    &&& (f.date_to matches Some(d) ==> t.trade_date <= d)
    &&& (f.min_quantity matches Some(mq) ==> t.quantity >= mq)
    &&& (f.max_quantity matches Some(mq) ==> t.quantity <= mq)
    &&& (f.min_price matches Some(mp) ==> rat_le(mp, t.price))
    &&& (f.max_price matches Some(mp) ==> rat_le(t.price, mp))
}

impl TradeFilter {
    /// The filter with no constraints; it matches every trade.
    pub fn new() -> (f: TradeFilter)
        ensures
            f@ == empty_filter(),
    {
        TradeFilter {
            instrument: None,
            side: None,
            trade_type: None,
            status: None,
            date_from: None,
            date_to: None,
            min_quantity: None,
            max_quantity: None,
            min_price: None,
            max_price: None,
        }
    }

    pub fn instrument(self, instrument: String) -> (f: TradeFilter)
        ensures
            f@ == (FilterModel { instrument: Some(instrument@), ..self@ }),
    {
        TradeFilter { instrument: Some(instrument), ..self }
    }

    pub fn side(self, side: Side) -> (f: TradeFilter)
        ensures
            f@ == (FilterModel { side: Some(side), ..self@ }),
    {
        TradeFilter { side: Some(side), ..self }
    }

    pub fn trade_type(self, trade_type: TradeType) -> (f: TradeFilter)
        ensures
            f@ == (FilterModel { trade_type: Some(trade_type), ..self@ }),
    {
        TradeFilter { trade_type: Some(trade_type), ..self }
    }

    pub fn status(self, status: TradeStatus) -> (f: TradeFilter)
        ensures
            f@ == (FilterModel { status: Some(status), ..self@ }),
    {
        TradeFilter { status: Some(status), ..self }
    }

    /// Constrain the trade date to `[from, to]`, inclusive on both ends.
    pub fn date_range(self, from: i64, to: i64) -> (f: TradeFilter)
        ensures
            f@ == (FilterModel { date_from: Some(from as int), date_to: Some(to as int), ..self@ }),
    {
        TradeFilter { date_from: Some(from), date_to: Some(to), ..self }
    }

    /// Constrain the quantity to `[min, max]`, inclusive on both ends.
    pub fn quantity_range(self, min: i64, max: i64) -> (f: TradeFilter)
        ensures
            f@ == (FilterModel {
                min_quantity: Some(min as int),
                max_quantity: Some(max as int),
                ..self@
            }),
    {
        TradeFilter { min_quantity: Some(min), max_quantity: Some(max), ..self }
    }

    /// Constrain the price to `[min, max]`, inclusive on both ends.
    pub fn price_range(self, min: Money, max: Money) -> (f: TradeFilter)
        ensures
            f@ == (FilterModel { min_price: Some(min@), max_price: Some(max@), ..self@ }),
    {
        TradeFilter { min_price: Some(min), max_price: Some(max), ..self }
    }
}

impl Trade {
    /// Whether this trade satisfies every constraint the filter sets.
    pub fn matches_filter(&self, filter: &TradeFilter) -> (r: bool)
        ensures
            r == spec_matches(self@, filter@),
    {
        if let Some(instr) = &filter.instrument {
            if !(self.instrument == *instr) {
                return false;
            }
        }
        if let Some(s) = &filter.side {
            if !(self.side == *s) {
                return false;
            }
        }
        if let Some(ty) = &filter.trade_type {
            if !(self.trade_type == *ty) {
                return false;
            }
        }
        if let Some(st) = &filter.status {
            if !(self.status == *st) {
                return false;
            }
        }
        if let Some(d) = &filter.date_from {
            if self.trade_date < *d {
                return false;
            }
        }
        if let Some(d) = &filter.date_to {
            if self.trade_date > *d {
                return false;
            }
        }
        if let Some(mq) = &filter.min_quantity {
            if self.quantity < *mq {
                return false;
            }
        }
        if let Some(mq) = &filter.max_quantity {
            if self.quantity > *mq {
                return false;
            }
        }
        if let Some(mp) = &filter.min_price {
            if !mp.le(&self.price) {
                return false;
            }
        }
        if let Some(mp) = &filter.max_price {
            if !self.price.le(mp) {
                return false;
            }
        }
        true
    }
}

} // verus!
