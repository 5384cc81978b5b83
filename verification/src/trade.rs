//! Trade records: a single buy or sell event on one instrument.

use vstd::prelude::*;
use crate::money::{Money, Rational, rat_wf};
use crate::dates::{day_number_of, valid_ymd, ymd_to_day_number};

verus! {

#[derive(Clone, Copy, Debug, PartialEq, Eq, Structural)]
pub enum Side {
    Buy,
    Sell,
}

#[derive(Clone, Copy, Debug, PartialEq, Eq, Structural)]
pub enum TradeType {
    Market,
    Limit,
    Stop,
}

#[derive(Clone, Copy, Debug, PartialEq, Eq, Structural)]
pub enum TradeStatus {
    Active,
    Cancelled,
    Amended,
}

/// Errors the ledger reports. State is never changed by a failing
/// operation.
#[derive(Clone, Copy, Debug, PartialEq, Eq, Structural)]
pub enum TradeError {
    /// No trade matches the requested id or instrument/date key.
    NotFound,
    /// More than one trade matches an instrument/date amendment key.
    AmbiguousMatch,
    /// A trade's quantity or price is not positive and well-formed.
    InvalidTrade,
    /// An exact result does not fit the 64-bit representation.
    Overflow,
}

/// Mathematical model of a trade.
pub struct TradeModel {
    pub trade_id: int,
    pub trade_date: int,
    pub instrument: Seq<char>,
    pub quantity: int,
    pub price: Rational,
    pub side: Side,
    pub trade_type: TradeType,
    pub status: TradeStatus,
}

/// A single buy or sell event. `trade_date` is a day number in the
/// proleptic Gregorian calendar (January 1 of year 1 is day 1); the
/// traded size is carried by `quantity`, the direction by `side`.
#[derive(Debug)]
pub struct Trade {
    pub trade_id: i64,
    pub trade_date: i64,
    pub instrument: String,
    pub quantity: i64,
    pub price: Money,
    pub side: Side,
    pub trade_type: TradeType,
    pub status: TradeStatus,
}

impl View for Trade {
    type V = TradeModel;

    open spec fn view(&self) -> TradeModel {
        TradeModel {
            trade_id: self.trade_id as int,
            trade_date: self.trade_date as int,
            instrument: self.instrument@,
            quantity: self.quantity as int,
            price: self.price@,
            side: self.side,
            trade_type: self.trade_type,
            status: self.status,
        }
    }
}

impl Clone for Trade {
    fn clone(&self) -> (t: Trade)
        ensures
            t == *self,
    {
        Trade {
            trade_id: self.trade_id,
            trade_date: self.trade_date,
            instrument: self.instrument.clone(),
            quantity: self.quantity,
            price: self.price,
            side: self.side,
            trade_type: self.trade_type,
            status: self.status,
        }
    }
}

/// A trade the ledger accepts: positive quantity and a positive,
/// well-formed price.
pub open spec fn trade_valid(t: TradeModel) -> bool {
    t.quantity > 0 && rat_wf(t.price) && t.price.num > 0
}

impl Trade {
    pub fn new(
        trade_id: i64,
        trade_date: i64,
        instrument: String,
        quantity: i64,
        price: Money,
        side: Side,
    ) -> (t: Trade)
        ensures
            t@ == (TradeModel {
                trade_id: trade_id as int,
                trade_date: trade_date as int,
                instrument: instrument@,
                quantity: quantity as int,
                price: price@,
                side: side,
                trade_type: TradeType::Market,
                status: TradeStatus::Active,
            }),
    {
        Trade {
            trade_id,
            trade_date,
            instrument,
            quantity,
            price,
            side,
            trade_type: TradeType::Market,
            status: TradeStatus::Active,
        }
    }

    pub fn new_with_type(
        trade_id: i64,
        trade_date: i64,
        instrument: String,
        quantity: i64,
        price: Money,
        side: Side,
        trade_type: TradeType,
    ) -> (t: Trade)
        ensures
            t@ == (TradeModel {
                trade_id: trade_id as int,
                trade_date: trade_date as int,
                instrument: instrument@,
                quantity: quantity as int,
                price: price@,
                side: side,
                trade_type: trade_type,
                status: TradeStatus::Active,
            }),
    {
        Trade {
            trade_id,
            trade_date,
            instrument,
            quantity,
            price,
            side,
            trade_type,
            status: TradeStatus::Active,
        }
    }

    /// Like `new`, with the date given as a calendar `(year, month, day)`
    /// triple; `None` exactly when that triple is not a valid calendar
    /// date.
    pub fn new_on_ymd(
        trade_id: i64,
        year: i32,
        month: u32,
        day: u32,
        instrument: String,
        quantity: i64,
        price: Money,
        side: Side,
    ) -> (r: Option<Trade>)
        ensures
            r is Some <==> valid_ymd(year as int, month as int, day as int),
            r matches Some(t) ==> t@ == (TradeModel {
                trade_id: trade_id as int,
                trade_date: day_number_of(year as int, month as int, day as int),
                instrument: instrument@,
                quantity: quantity as int,
                price: price@,
                side: side,
                trade_type: TradeType::Market,
                status: TradeStatus::Active,
            }),
    {
        match ymd_to_day_number(year, month, day) {
            Some(d) => Some(Trade::new(trade_id, d, instrument, quantity, price, side)),
            None => None,
        }
    }
}

} // verus!
