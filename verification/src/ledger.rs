//! The trade repository: the ledger of trades and the live positions.
//!
//! The repository owns the trades (keyed by caller-assigned unique ids),
//! a cache of per-instrument positions, and the last known market
//! prices. After every completed operation the position cache equals
//! the chronological replay of all recorded trades — the core
//! consistency property — so amendment and cancellation are exact: they
//! correct the trade list and rebuild the affected state from it.
//!
//! A cancelled trade is removed from the ledger outright: as-of
//! reconstructions made after the cancellation no longer see it.
//! Amendment changes a trade's quantity and price in place; identity,
//! date, instrument and status are unchanged.

use vstd::prelude::*;
use crate::money::{Money, Rational, rat_wf, rat_le, rat_add, rat_zero, rat_fits, in_i64_range};
use crate::trade::{Trade, TradeModel, TradeError, Side, trade_valid};
use crate::position::{
    TradePosition, PositionModel, pos_wf, flat_position, spec_unrealized, spec_market_value,
    unrealized_fits,
};
use crate::replay::{
    models_of, pos_models, positions_map, distinct_instruments, sort_by_date, replay_ok,
    as_of_filter, positions_as_of, live_positions, sort_trades_by_date, replay_positions,
    lemma_positions_map_get, lemma_positions_map_absent,
};

verus! {

/// Mathematical model of the repository: the recorded trades in
/// insertion order, the cached positions in first-trade order, and the
/// known market prices in first-quote order.
pub struct RepoModel {
    pub trades: Seq<TradeModel>,
    pub positions: Seq<PositionModel>,
    pub prices: Seq<(Seq<char>, Rational)>,
}

pub struct TradeRepository {
    trades: Vec<Trade>,
    positions: Vec<TradePosition>,
    market_prices: Vec<(String, Money)>,
}

pub open spec fn price_models(s: Seq<(String, Money)>) -> Seq<(Seq<char>, Rational)> {
    s.map_values(|pr: (String, Money)| (pr.0@, pr.1@))
}

impl View for TradeRepository {
    type V = RepoModel;

    closed spec fn view(&self) -> RepoModel {
        RepoModel {
            trades: models_of(self.trades@),
            positions: pos_models(self.positions@),
            prices: price_models(self.market_prices@),
        }
    }
}

pub open spec fn has_trade_id(s: Seq<TradeModel>, id: int) -> bool {
    exists|k: int| 0 <= k < s.len() && s[k].trade_id == id
}

pub open spec fn trade_index_of(s: Seq<TradeModel>, id: int) -> int {
    choose|k: int| 0 <= k < s.len() && s[k].trade_id == id
}

pub open spec fn unique_trade_ids(s: Seq<TradeModel>) -> bool {
    forall|i: int, j: int| 0 <= i < j < s.len() ==> s[i].trade_id != s[j].trade_id
}

/// The trade list after recording `t`: it replaces the trade with the
/// same id if one exists, and is appended otherwise.
pub open spec fn upsert_trade(s: Seq<TradeModel>, t: TradeModel) -> Seq<TradeModel> {
    if has_trade_id(s, t.trade_id) {
        s.update(trade_index_of(s, t.trade_id), t)
    } else {
        s.push(t)
    }
}

/// The trade as it stands after an amendment: quantity and price
/// replaced, everything else unchanged.
pub open spec fn amended_trade(t: TradeModel, q: int, pr: Rational) -> TradeModel {
    TradeModel { quantity: q, price: pr, ..t }
}

/// Whether amendment arguments are acceptable: a positive quantity and
/// a positive, well-formed price.
pub open spec fn amend_args_valid(q: int, pr: Rational) -> bool {
    q > 0 && rat_wf(pr) && pr.num > 0
}

/// The market-price association list as a map; later quotes win.
pub open spec fn prices_map(s: Seq<(Seq<char>, Rational)>) -> Map<Seq<char>, Rational>
    decreases s.len(),
{
    if s.len() == 0 {
        Map::empty()
    } else {
        prices_map(s.drop_last()).insert(s.last().0, s.last().1)
    }
}

pub open spec fn distinct_price_keys(s: Seq<(Seq<char>, Rational)>) -> bool {
    forall|i: int, j: int| 0 <= i < j < s.len() ==> s[i].0 != s[j].0
}

pub proof fn lemma_prices_map_get(s: Seq<(Seq<char>, Rational)>, i: int)
    requires
        distinct_price_keys(s),
        0 <= i < s.len(),
    ensures
        prices_map(s).dom().contains(s[i].0),
        prices_map(s)[s[i].0] == s[i].1,
    decreases s.len(),
{
    if i < s.len() - 1 {
        lemma_prices_map_get(s.drop_last(), i);
    }
}

pub proof fn lemma_prices_map_absent(s: Seq<(Seq<char>, Rational)>, x: Seq<char>)
    requires
        forall|k: int| 0 <= k < s.len() ==> s[k].0 != x,
    ensures
        !prices_map(s).dom().contains(x),
    decreases s.len(),
{
    if s.len() > 0 {
        lemma_prices_map_absent(s.drop_last(), x);
    }
}

pub proof fn lemma_prices_map_update(s: Seq<(Seq<char>, Rational)>, j: int, v: Rational)
    requires
        distinct_price_keys(s),
        0 <= j < s.len(),
    ensures
        prices_map(s.update(j, (s[j].0, v))) == prices_map(s).insert(s[j].0, v),
    decreases s.len(),
{
    if j == s.len() - 1 {
        assert(s.update(j, (s[j].0, v)).drop_last() =~= s.drop_last());
        assert(prices_map(s.update(j, (s[j].0, v))) =~= prices_map(s).insert(s[j].0, v));
    } else {
        assert(s.update(j, (s[j].0, v)).drop_last() =~= s.drop_last().update(j, (s[j].0, v)));
        lemma_prices_map_update(s.drop_last(), j, v);
        assert(prices_map(s.update(j, (s[j].0, v))) =~= prices_map(s).insert(s[j].0, v));
    }
}

/// Replay consistency at the ledger: in a well-formed repository whose
/// trades were recorded in chronological order, the live position map
/// equals the plain fold of the trades in recorded order, and the
/// as-of reconstruction at any date on or after the last trade yields
/// that same map.
pub proof fn lemma_ledger_replay_consistency(r: &TradeRepository, d: int)
    requires
        r.wf(),
        forall|i: int, j: int|
            0 <= i < j < r@.trades.len() ==> r@.trades[i].trade_date <= r@.trades[j].trade_date,
        forall|i: int| 0 <= i < r@.trades.len() ==> r@.trades[i].trade_date <= d,
    ensures
        positions_map(r@.positions) == crate::replay::replay(r@.trades),
        positions_as_of(r@.trades, d) == positions_map(r@.positions),
{
    crate::replay::lemma_replay_consistency(r@.trades, d);
}

/// Amendment idempotence: amending a trade to its current quantity and
/// price leaves the trade list — and with it every replayed position —
/// unchanged.
pub proof fn lemma_amend_idempotent(s: Seq<TradeModel>, k: int, q: int, pr: Rational)
    requires
        0 <= k < s.len(),
        s[k].quantity == q,
        s[k].price == pr,
    ensures
        s.update(k, amended_trade(s[k], q, pr)) == s,
        live_positions(s.update(k, amended_trade(s[k], q, pr))) == live_positions(s),
{
    assert(amended_trade(s[k], q, pr) == s[k]);
    assert(s.update(k, s[k]) =~= s);
}

/// The unique index carrying a trade id is the one the `choose` picks.
proof fn lemma_trade_index_unique(s: Seq<TradeModel>, k: int, id: int)
    requires
        unique_trade_ids(s),
        0 <= k < s.len(),
        s[k].trade_id == id,
    ensures
        has_trade_id(s, id),
        trade_index_of(s, id) == k,
{
    assert(has_trade_id(s, id));
    let k2 = trade_index_of(s, id);
    if k2 != k {
        assert(false);
    }
}

/// A duplicate of a trade list, element for element.
fn clone_trades(v: &Vec<Trade>) -> (r: Vec<Trade>)
    ensures
        r@ == v@,
{
    let mut out: Vec<Trade> = Vec::new();
    let mut i: usize = 0;
    while i < v.len()
        invariant
            i <= v@.len(),
            out@ == v@.take(i as int),
        decreases v@.len() - i,
    {
        out.push(v[i].clone());
        proof {
            assert(out@ =~= v@.take(i + 1));
        }
        i += 1;
    }
    proof {
        assert(v@.take(v@.len() as int) =~= v@);
    }
    out
}

/// Find the index of the trade carrying an id.
fn find_trade_index(trades: &Vec<Trade>, trade_id: i64) -> (r: Option<usize>)
    ensures
        r matches Some(i) ==> i < trades@.len() && models_of(trades@)[i as int].trade_id
            == trade_id as int,
        r is None ==> !has_trade_id(models_of(trades@), trade_id as int),
{
    let mut i: usize = 0;
    while i < trades.len()
        invariant
            i <= trades@.len(),
            forall|k: int| 0 <= k < i ==> models_of(trades@)[k].trade_id != trade_id as int,
        decreases trades@.len() - i,
    {
        if trades[i].trade_id == trade_id {
            return Some(i);
        }
        i += 1;
    }
    None
}

/// Replay a trade list, date-sorted, into fresh positions: the live
/// position state of that list.
fn build_live_positions(trades: &Vec<Trade>) -> (r: Result<Vec<TradePosition>, TradeError>)
    ensures
        r matches Ok(ps) ==> positions_map(pos_models(ps@)) == live_positions(models_of(trades@)),
        r matches Ok(ps) ==> distinct_instruments(pos_models(ps@)),
        r matches Ok(ps) ==> forall|k: int| 0 <= k < ps@.len() ==> pos_wf(pos_models(ps@)[k]),
        r is Ok <==> replay_ok(sort_by_date(models_of(trades@))),
        r matches Err(e) ==> e == TradeError::InvalidTrade || e == TradeError::Overflow,
        (forall|k: int| 0 <= k < trades@.len() ==> trade_valid(models_of(trades@)[k])) ==> (r
            is Err ==> r == Err::<Vec<TradePosition>, TradeError>(TradeError::Overflow)),
{
    let copy = clone_trades(trades);
    let sorted = sort_trades_by_date(copy);
    proof {
        if forall|k: int| 0 <= k < trades@.len() ==> trade_valid(models_of(trades@)[k]) {
            lemma_sorted_all_valid(models_of(trades@), models_of(sorted@));
        }
    }
    replay_positions(&sorted)
}

/// Sorting keeps every trade, so validity of all trades carries over.
proof fn lemma_sorted_insert_valid(s: Seq<TradeModel>, t: TradeModel)
    requires
        forall|k: int| 0 <= k < s.len() ==> trade_valid(s[k]),
        trade_valid(t),
    ensures
        forall|k: int|
            0 <= k < crate::replay::sorted_insert(s, t).len() ==> trade_valid(
                crate::replay::sorted_insert(s, t)[k],
            ),
    decreases s.len(),
{
    let out = crate::replay::sorted_insert(s, t);
    if s.len() == 0 {
        assert forall|k: int| 0 <= k < out.len() implies trade_valid(out[k]) by {
            assert(out[k] == t);
        }
    } else if s.last().trade_date <= t.trade_date {
        assert forall|k: int| 0 <= k < out.len() implies trade_valid(out[k]) by {
            if k < s.len() {
                assert(out[k] == s[k]);
            } else {
                assert(out[k] == t);
            }
        }
    } else {
        lemma_sorted_insert_valid(s.drop_last(), t);
        let inner = crate::replay::sorted_insert(s.drop_last(), t);
        assert forall|k: int| 0 <= k < out.len() implies trade_valid(out[k]) by {
            if k < inner.len() {
                assert(out[k] == inner[k]);
                assert(trade_valid(inner[k]));
            } else {
                assert(out[k] == s.last());
                assert(trade_valid(s[s.len() - 1]));
            }
        }
    }
}

proof fn lemma_sorted_all_valid(s: Seq<TradeModel>, sorted: Seq<TradeModel>)
    requires
        forall|k: int| 0 <= k < s.len() ==> trade_valid(s[k]),
        sorted == sort_by_date(s),
    ensures
        forall|k: int| 0 <= k < sorted.len() ==> trade_valid(sorted[k]),
    decreases s.len(),
{
    if s.len() > 0 {
        lemma_sorted_all_valid(s.drop_last(), sort_by_date(s.drop_last()));
        lemma_sorted_insert_valid(sort_by_date(s.drop_last()), s.last());
    }
}

impl TradeRepository {
    /// Every operation preserves these invariants: the position cache
    /// equals the chronological replay of all recorded trades, with one
    /// well-formed entry per instrument; trade ids are unique and every
    /// recorded trade is acceptable; market-price keys are unique and
    /// the prices well-formed.
    pub open spec fn wf(&self) -> bool {
        &&& positions_map(self@.positions) == live_positions(self@.trades)
        &&& distinct_instruments(self@.positions)
        &&& forall|k: int| 0 <= k < self@.positions.len() ==> pos_wf(self@.positions[k])
        &&& unique_trade_ids(self@.trades)
        &&& forall|k: int| 0 <= k < self@.trades.len() ==> trade_valid(self@.trades[k])
        &&& distinct_price_keys(self@.prices)
        &&& forall|k: int| 0 <= k < self@.prices.len() ==> rat_wf(self@.prices[k].1)
    }

    /// An empty ledger: no trades, no positions, no market prices.
    pub fn new() -> (r: TradeRepository)
        ensures
            r.wf(),
            r@.trades == Seq::<TradeModel>::empty(),
            r@.positions == Seq::<PositionModel>::empty(),
            r@.prices == Seq::<(Seq<char>, Rational)>::empty(),
    {
        let r = TradeRepository {
            trades: Vec::new(),
            positions: Vec::new(),
            market_prices: Vec::new(),
        };
        proof {
            assert(models_of(r.trades@) =~= Seq::<TradeModel>::empty());
            assert(pos_models(r.positions@) =~= Seq::<PositionModel>::empty());
            assert(price_models(r.market_prices@) =~= Seq::<(Seq<char>, Rational)>::empty());
        }
        r
    }

    /// Record a trade. A trade with an already-recorded id replaces
    /// that trade; otherwise the trade is appended. Rejects a trade
    /// whose quantity or price is not positive; reports `Overflow`,
    /// changing nothing, exactly when the replay of the new trade list
    /// does not fit.
    pub fn add_trade(&mut self, trade: Trade) -> (r: Result<(), TradeError>)
        requires
            old(self).wf(),
        ensures
            final(self).wf(),
            r == Err::<(), TradeError>(TradeError::InvalidTrade) <==> !trade_valid(trade@),
            trade_valid(trade@) ==> (r is Ok <==> replay_ok(
                sort_by_date(upsert_trade(old(self)@.trades, trade@)),
            )),
            r is Ok ==> final(self)@.trades == upsert_trade(old(self)@.trades, trade@),
            r is Ok ==> final(self)@.prices == old(self)@.prices,
            r is Err ==> final(self)@ == old(self)@,
            r matches Err(e) ==> e == TradeError::InvalidTrade || e == TradeError::Overflow,
    {
        if trade.quantity <= 0 || trade.price.num <= 0 || trade.price.den <= 0 {
            return Err(TradeError::InvalidTrade);
        }
        let ghost tm = trade@;
        let mut candidate = clone_trades(&self.trades);
        match find_trade_index(&candidate, trade.trade_id) {
            Some(j) => {
                proof {
                    lemma_trade_index_unique(models_of(candidate@), j as int, tm.trade_id);
                }
                candidate.remove(j);
                candidate.insert(j, trade);
                proof {
                    assert(models_of(candidate@) =~= upsert_trade(old(self)@.trades, tm));
                }
            },
            None => {
                candidate.push(trade);
                proof {
                    assert(models_of(candidate@) =~= upsert_trade(old(self)@.trades, tm));
                }
            },
        }
        match build_live_positions(&candidate) {
            Ok(ps) => {
                self.trades = candidate;
                self.positions = ps;
                Ok(())
            },
            Err(e) => Err(e),
        }
    }

    /// Amend a recorded trade's quantity and price in place, then bring
    /// the positions back in line with the corrected history. The
    /// trade's identity, date, instrument and status are unchanged.
    /// `NotFound` when no trade carries the id; `InvalidTrade` when the
    /// new quantity or price is not positive; `Overflow`, changing
    /// nothing, exactly when the corrected replay does not fit.
    pub fn amend_trade(&mut self, trade_id: i64, new_quantity: i64, new_price: Money) -> (r:
        Result<(), TradeError>)
        requires
            old(self).wf(),
        ensures
            final(self).wf(),
            r == Err::<(), TradeError>(TradeError::NotFound) <==> !has_trade_id(
                old(self)@.trades,
                trade_id as int,
            ),
            has_trade_id(old(self)@.trades, trade_id as int) ==> (r == Err::<(), TradeError>(
                TradeError::InvalidTrade,
            ) <==> !amend_args_valid(new_quantity as int, new_price@)),
            has_trade_id(old(self)@.trades, trade_id as int) && amend_args_valid(
                new_quantity as int,
                new_price@,
            ) ==> (r is Ok <==> replay_ok(
                sort_by_date(
                    old(self)@.trades.update(
                        trade_index_of(old(self)@.trades, trade_id as int),
                        amended_trade(
                            old(self)@.trades[trade_index_of(old(self)@.trades, trade_id as int)],
                            new_quantity as int,
                            new_price@,
                        ),
                    ),
                ),
            )),
            r is Ok ==> final(self)@.trades == old(self)@.trades.update(
                trade_index_of(old(self)@.trades, trade_id as int),
                amended_trade(
                    old(self)@.trades[trade_index_of(old(self)@.trades, trade_id as int)],
                    new_quantity as int,
                    new_price@,
                ),
            ),
            r is Ok ==> final(self)@.prices == old(self)@.prices,
            r is Err ==> final(self)@ == old(self)@,
            r matches Err(e) ==> e == TradeError::NotFound || e == TradeError::InvalidTrade || e
                == TradeError::Overflow,
    {
        let j = match find_trade_index(&self.trades, trade_id) {
            Some(j) => j,
            None => {
                return Err(TradeError::NotFound);
            },
        };
        proof {
            lemma_trade_index_unique(models_of(self.trades@), j as int, trade_id as int);
        }
        if new_quantity <= 0 || new_price.num <= 0 || new_price.den <= 0 {
            return Err(TradeError::InvalidTrade);
        }
        let mut candidate = clone_trades(&self.trades);
        let prev = candidate.remove(j);
        let amended = Trade {
            trade_id: prev.trade_id,
            trade_date: prev.trade_date,
            instrument: prev.instrument,
            quantity: new_quantity,
            price: new_price,
            side: prev.side,
            trade_type: prev.trade_type,
            status: prev.status,
        };
        candidate.insert(j, amended);
        proof {
            assert(models_of(candidate@) =~= old(self)@.trades.update(
                j as int,
                amended_trade(old(self)@.trades[j as int], new_quantity as int, new_price@),
            ));
        }
        match build_live_positions(&candidate) {
            Ok(ps) => {
                self.trades = candidate;
                self.positions = ps;
                Ok(())
            },
            Err(e) => Err(e),
        }
    }

    /// Cancel a recorded trade: remove it from the ledger outright and
    /// bring the positions back in line with the remaining history.
    /// `NotFound` when no trade carries the id; `Overflow`, changing
    /// nothing, exactly when the remaining replay does not fit.
    pub fn cancel_trade(&mut self, trade_id: i64) -> (r: Result<(), TradeError>)
        requires
            old(self).wf(),
        ensures
            final(self).wf(),
            r == Err::<(), TradeError>(TradeError::NotFound) <==> !has_trade_id(
                old(self)@.trades,
                trade_id as int,
            ),
            has_trade_id(old(self)@.trades, trade_id as int) ==> (r is Ok <==> replay_ok(
                sort_by_date(
                    old(self)@.trades.remove(trade_index_of(old(self)@.trades, trade_id as int)),
                ),
            )),
            r is Ok ==> final(self)@.trades == old(self)@.trades.remove(
                trade_index_of(old(self)@.trades, trade_id as int),
            ),
            r is Ok ==> final(self)@.prices == old(self)@.prices,
            r is Err ==> final(self)@ == old(self)@,
            r matches Err(e) ==> e == TradeError::NotFound || e == TradeError::Overflow,
    {
        let j = match find_trade_index(&self.trades, trade_id) {
            Some(j) => j,
            None => {
                return Err(TradeError::NotFound);
            },
        };
        proof {
            lemma_trade_index_unique(models_of(self.trades@), j as int, trade_id as int);
        }
        let mut candidate = clone_trades(&self.trades);
        candidate.remove(j);
        proof {
            assert(models_of(candidate@) =~= old(self)@.trades.remove(j as int));
        }
        match build_live_positions(&candidate) {
            Ok(ps) => {
                self.trades = candidate;
                self.positions = ps;
                Ok(())
            },
            Err(e) => Err(e),
        }
    }

    /// The live position of an instrument, if it has traded.
    pub fn get_position(&self, instrument: &String) -> (r: Option<TradePosition>)
        requires
            self.wf(),
        ensures
            r is Some <==> live_positions(self@.trades).dom().contains(instrument@),
            r matches Some(p) ==> p@ == live_positions(self@.trades)[instrument@],
            r matches Some(p) ==> pos_wf(p@),
    {
        let mut i: usize = 0;
        while i < self.positions.len()
            invariant
                self.wf(),
                i <= self@.positions.len(),
                forall|k: int| 0 <= k < i ==> self@.positions[k].instrument != instrument@,
            decreases self@.positions.len() - i,
        {
            if self.positions[i].instrument == *instrument {
                proof {
                    lemma_positions_map_get(self@.positions, i as int);
                }
                return Some(self.positions[i].clone());
            }
            i += 1;
        }
        proof {
            lemma_positions_map_absent(self@.positions, instrument@);
        }
        None
    }

    /// All live positions, one per instrument that has traded.
    pub fn get_all_positions(&self) -> (r: Vec<TradePosition>)
        requires
            self.wf(),
        ensures
            pos_models(r@) == self@.positions,
            positions_map(pos_models(r@)) == live_positions(self@.trades),
    {
        let mut out: Vec<TradePosition> = Vec::new();
        proof {
            assert(pos_models(out@) =~= self@.positions.take(0));
        }
        let mut i: usize = 0;
        while i < self.positions.len()
            invariant
                self.wf(),
                i <= self@.positions.len(),
                pos_models(out@) == self@.positions.take(i as int),
            decreases self@.positions.len() - i,
        {
            let ghost prev = out@;
            let p = self.positions[i].clone();
            proof {
                assert(p@ == self@.positions[i as int]);
            }
            out.push(p);
            proof {
                assert(pos_models(prev).len() == self@.positions.take(i as int).len());
                assert(prev.len() == i);
                assert(out@.len() == i + 1);
                assert forall|k: int| 0 <= k < i + 1 implies pos_models(out@)[k]
                    == self@.positions.take(i + 1)[k] by {
                    if k < i {
                        assert(pos_models(prev)[k] == self@.positions.take(i as int)[k]);
                        assert(out@[k] == prev[k]);
                    }
                }
                assert(pos_models(out@) =~= self@.positions.take(i + 1));
            }
            i += 1;
        }
        proof {
            assert(self@.positions.take(self@.positions.len() as int) =~= self@.positions);
        }
        out
    }

    /// Reconstruct the position state as of a date: replay, in
    /// chronological order, exactly the trades dated on or before it.
    /// Pure; the ledger is not changed. Succeeds exactly when that
    /// replay fits the 64-bit representation.
    pub fn build_position_map_as_of_date(&self, as_of_date: i64) -> (r: Result<
        Vec<TradePosition>,
        TradeError,
    >)
        requires
            self.wf(),
        ensures
            r matches Ok(ps) ==> positions_map(pos_models(ps@)) == positions_as_of(
                self@.trades,
                as_of_date as int,
            ),
            r matches Ok(ps) ==> distinct_instruments(pos_models(ps@)),
            r matches Ok(ps) ==> forall|k: int| 0 <= k < ps@.len() ==> pos_wf(pos_models(ps@)[k]),
            r is Ok <==> replay_ok(
                sort_by_date(as_of_filter(self@.trades, as_of_date as int)),
            ),
            r matches Err(e) ==> e == TradeError::Overflow,
    {
        let ghost all = self@.trades;
        let mut relevant: Vec<Trade> = Vec::new();
        let mut i: usize = 0;
        while i < self.trades.len()
            invariant
                i <= all.len(),
                all == models_of(self.trades@),
                models_of(relevant@) == as_of_filter(all.take(i as int), as_of_date as int),
                forall|k: int| 0 <= k < all.len() ==> trade_valid(all[k]),
            decreases all.len() - i,
        {
            proof {
                crate::replay::lemma_as_of_filter_push(all, as_of_date as int, i as int);
            }
            if self.trades[i].trade_date <= as_of_date {
                relevant.push(self.trades[i].clone());
                proof {
                    assert(models_of(relevant@) =~= as_of_filter(
                        all.take(i as int),
                        as_of_date as int,
                    ).push(all[i as int]));
                }
            }
            i += 1;
        }
        proof {
            assert(all.take(all.len() as int) =~= all);
            assert(forall|k: int|
                0 <= k < models_of(relevant@).len() ==> trade_valid(
                    #[trigger] models_of(relevant@)[k],
                )) by {
                crate::replay::lemma_filter_members(all, as_of_date as int);
            }
        }
        build_live_positions(&relevant)
    }

    /// All trades dated within `[start_date, end_date]`, inclusive on
    /// both ends, in recorded order.
    pub fn find_trades_by_date(&self, start_date: i64, end_date: i64) -> (r: Vec<Trade>)
        ensures
            models_of(r@) == trades_in_range(self@.trades, start_date as int, end_date as int),
    {
        let ghost all = self@.trades;
        let mut out: Vec<Trade> = Vec::new();
        let mut i: usize = 0;
        while i < self.trades.len()
            invariant
                i <= all.len(),
                all == models_of(self.trades@),
                models_of(out@) == trades_in_range(
                    all.take(i as int),
                    start_date as int,
                    end_date as int,
                ),
            decreases all.len() - i,
        {
            proof {
                lemma_trades_in_range_push(all, start_date as int, end_date as int, i as int);
            }
            if self.trades[i].trade_date >= start_date && self.trades[i].trade_date <= end_date {
                out.push(self.trades[i].clone());
                proof {
                    assert(models_of(out@) =~= trades_in_range(
                        all.take(i as int),
                        start_date as int,
                        end_date as int,
                    ).push(all[i as int]));
                }
            }
            i += 1;
        }
        proof {
            assert(all.take(all.len() as int) =~= all);
        }
        out
    }
}

pub open spec fn matches_key(t: TradeModel, x: Seq<char>, d: int) -> bool {
    t.instrument == x && t.trade_date == d
}

/// How many trades carry a given instrument and date.
pub open spec fn count_matches(s: Seq<TradeModel>, x: Seq<char>, d: int) -> nat
    decreases s.len(),
{
    if s.len() == 0 {
        0
    } else {
        count_matches(s.drop_last(), x, d) + if matches_key(s.last(), x, d) {
            1nat
        } else {
            0nat
        }
    }
}

/// The index of the trade matching an instrument/date key; the unique
/// one when exactly one matches.
pub open spec fn match_index_of(s: Seq<TradeModel>, x: Seq<char>, d: int) -> int {
    choose|k: int| 0 <= k < s.len() && matches_key(s[k], x, d)
}

proof fn lemma_count_ge_one(s: Seq<TradeModel>, a: int, x: Seq<char>, d: int)
    requires
        0 <= a < s.len(),
        matches_key(s[a], x, d),
    ensures
        count_matches(s, x, d) >= 1,
    decreases s.len(),
{
    if a < s.len() - 1 {
        lemma_count_ge_one(s.drop_last(), a, x, d);
    }
}

proof fn lemma_count_two(s: Seq<TradeModel>, a: int, b: int, x: Seq<char>, d: int)
    requires
        0 <= a < b < s.len(),
        matches_key(s[a], x, d),
        matches_key(s[b], x, d),
    ensures
        count_matches(s, x, d) >= 2,
    decreases s.len(),
{
    if b == s.len() - 1 {
        lemma_count_ge_one(s.drop_last(), a, x, d);
    } else {
        lemma_count_two(s.drop_last(), a, b, x, d);
    }
}

/// With exactly one match, any matching index is the one `choose` picks.
proof fn lemma_single_match(s: Seq<TradeModel>, a: int, x: Seq<char>, d: int)
    requires
        0 <= a < s.len(),
        matches_key(s[a], x, d),
        count_matches(s, x, d) == 1,
    ensures
        match_index_of(s, x, d) == a,
{
    assert(0 <= a < s.len() && matches_key(s[a], x, d));
    let k = match_index_of(s, x, d);
    assert(0 <= k < s.len() && matches_key(s[k], x, d));
    if k < a {
        lemma_count_two(s, k, a, x, d);
    } else if a < k {
        lemma_count_two(s, a, k, x, d);
    }
}

pub open spec fn has_price(s: Seq<(Seq<char>, Rational)>, x: Seq<char>) -> bool {
    exists|k: int| 0 <= k < s.len() && s[k].0 == x
}

pub open spec fn price_index_of(s: Seq<(Seq<char>, Rational)>, x: Seq<char>) -> int {
    choose|k: int| 0 <= k < s.len() && s[k].0 == x
}

/// The price list after a quote: it replaces the entry with the same
/// instrument if one exists, and is appended otherwise.
pub open spec fn upsert_price(s: Seq<(Seq<char>, Rational)>, x: Seq<char>, v: Rational) -> Seq<
    (Seq<char>, Rational),
> {
    if has_price(s, x) {
        s.update(price_index_of(s, x), (x, v))
    } else {
        s.push((x, v))
    }
}

proof fn lemma_price_index_unique(s: Seq<(Seq<char>, Rational)>, k: int, x: Seq<char>)
    requires
        distinct_price_keys(s),
        0 <= k < s.len(),
        s[k].0 == x,
    ensures
        has_price(s, x),
        price_index_of(s, x) == k,
{
    assert(has_price(s, x));
    let k2 = price_index_of(s, x);
    if k2 != k {
        assert(false);
    }
}

impl TradeRepository {
    /// Resolve the single trade keyed by instrument and date, and amend
    /// its quantity and price. `NotFound` when no trade matches the
    /// key; `AmbiguousMatch` when more than one does; otherwise exactly
    /// `amend_trade` on the matching trade.
    pub fn amend_trade_by_date(
        &mut self,
        instrument: &String,
        trade_date: i64,
        new_quantity: i64,
        new_price: Money,
    ) -> (r: Result<(), TradeError>)
        requires
            old(self).wf(),
        ensures
            final(self).wf(),
            r == Err::<(), TradeError>(TradeError::NotFound) <==> count_matches(
                old(self)@.trades,
                instrument@,
                trade_date as int,
            ) == 0,
            r == Err::<(), TradeError>(TradeError::AmbiguousMatch) <==> count_matches(
                old(self)@.trades,
                instrument@,
                trade_date as int,
            ) >= 2,
            count_matches(old(self)@.trades, instrument@, trade_date as int) == 1 ==> ({
                let k = match_index_of(old(self)@.trades, instrument@, trade_date as int);
                &&& matches_key(old(self)@.trades[k], instrument@, trade_date as int)
                &&& (r == Err::<(), TradeError>(TradeError::InvalidTrade) <==> !amend_args_valid(
                    new_quantity as int,
                    new_price@,
                ))
                &&& (amend_args_valid(new_quantity as int, new_price@) ==> (r is Ok
                    <==> replay_ok(
                    sort_by_date(
                        old(self)@.trades.update(
                            k,
                            amended_trade(
                                old(self)@.trades[k],
                                new_quantity as int,
                                new_price@,
                            ),
                        ),
                    ),
                )))
                &&& (r is Ok ==> final(self)@.trades == old(self)@.trades.update(
                    k,
                    amended_trade(old(self)@.trades[k], new_quantity as int, new_price@),
                ))
            }),
            r is Ok ==> final(self)@.prices == old(self)@.prices,
            r is Err ==> final(self)@ == old(self)@,
    {
        let ghost all = self@.trades;
        let ghost x = instrument@;
        let ghost dd = trade_date as int;
        let mut count: usize = 0;
        let mut found: usize = 0;
        let mut i: usize = 0;
        while i < self.trades.len()
            invariant
                self.wf(),
                all == self@.trades,
                x == instrument@,
                dd == trade_date as int,
                i <= all.len(),
                count as nat == count_matches(all.take(i as int), x, dd),
                count <= i,
                count > 0 ==> found < i && matches_key(all[found as int], x, dd),
            decreases all.len() - i,
        {
            proof {
                assert(all.take(i + 1).drop_last() =~= all.take(i as int));
                assert(all.take(i + 1).last() == all[i as int]);
            }
            if self.trades[i].instrument == *instrument && self.trades[i].trade_date
                == trade_date {
                count = count + 1;
                found = i;
            }
            i += 1;
        }
        proof {
            assert(all.take(all.len() as int) =~= all);
        }
        if count == 0 {
            return Err(TradeError::NotFound);
        }
        if count > 1 {
            return Err(TradeError::AmbiguousMatch);
        }
        proof {
            lemma_single_match(all, found as int, x, dd);
            lemma_trade_index_unique(
                all,
                found as int,
                all[found as int].trade_id,
            );
        }
        let id = self.trades[found].trade_id;
        self.amend_trade(id, new_quantity, new_price)
    }

    /// Record the last known market price of an instrument, replacing
    /// any earlier quote.
    pub fn update_market_price(&mut self, instrument: &String, price: Money)
        requires
            old(self).wf(),
            price.wf(),
        ensures
            final(self).wf(),
            final(self)@.prices == upsert_price(old(self)@.prices, instrument@, price@),
            final(self)@.trades == old(self)@.trades,
            final(self)@.positions == old(self)@.positions,
    {
        let ghost pm = price_models(self.market_prices@);
        let mut i: usize = 0;
        while i < self.market_prices.len()
            invariant
                self.wf(),
                price.wf(),
                self@.trades == old(self)@.trades,
                self@.positions == old(self)@.positions,
                pm == self@.prices,
                pm == old(self)@.prices,
                i <= pm.len(),
                forall|k: int| 0 <= k < i ==> pm[k].0 != instrument@,
            decreases pm.len() - i,
        {
            if self.market_prices[i].0 == *instrument {
                proof {
                    lemma_price_index_unique(pm, i as int, instrument@);
                }
                let ghost before = self.market_prices@;
                self.market_prices.remove(i);
                self.market_prices.insert(i, (instrument.clone(), price));
                proof {
                    assert forall|k: int| 0 <= k < pm.len() implies price_models(
                        self.market_prices@,
                    )[k] == pm.update(i as int, (instrument@, price@))[k] by {
                        if k != i {
                            assert(self.market_prices@[k] == before[k]);
                            assert(pm[k] == price_models(before)[k]);
                        }
                    }
                    assert(price_models(self.market_prices@) =~= pm.update(
                        i as int,
                        (instrument@, price@),
                    ));
                    assert(price_models(self.market_prices@) == upsert_price(
                        pm,
                        instrument@,
                        price@,
                    ));
                    assert forall|a: int, b: int|
                        0 <= a < b < self@.prices.len() implies self@.prices[a].0
                        != self@.prices[b].0 by {
                        assert(pm[a].0 != pm[b].0);
                    }
                }
                return ;
            }
            i += 1;
        }
        let ghost before = self.market_prices@;
        self.market_prices.push((instrument.clone(), price));
        proof {
            assert(!has_price(pm, instrument@));
            assert forall|k: int| 0 <= k < pm.len() + 1 implies price_models(
                self.market_prices@,
            )[k] == pm.push((instrument@, price@))[k] by {
                if k < pm.len() {
                    assert(self.market_prices@[k] == before[k]);
                    assert(pm[k] == price_models(before)[k]);
                }
            }
            assert(price_models(self.market_prices@) =~= pm.push((instrument@, price@)));
            assert(price_models(self.market_prices@) == upsert_price(pm, instrument@, price@));
            assert forall|a: int, b: int|
                0 <= a < b < self@.prices.len() implies self@.prices[a].0 != self@.prices[b].0 by {
                if b < pm.len() {
                    assert(pm[a].0 != pm[b].0);
                } else {
                    assert(pm[a].0 != instrument@);
                }
            }
        }
    }

    /// The last known market price of an instrument, if one was quoted.
    pub fn get_market_price(&self, instrument: &String) -> (r: Option<Money>)
        requires
            self.wf(),
        ensures
            r is Some <==> prices_map(self@.prices).dom().contains(instrument@),
            r matches Some(m) ==> m@ == prices_map(self@.prices)[instrument@],
            r matches Some(m) ==> m.wf(),
    {
        let mut i: usize = 0;
        while i < self.market_prices.len()
            invariant
                self.wf(),
                i <= self@.prices.len(),
                forall|k: int| 0 <= k < i ==> self@.prices[k].0 != instrument@,
            decreases self@.prices.len() - i,
        {
            if self.market_prices[i].0 == *instrument {
                proof {
                    lemma_prices_map_get(self@.prices, i as int);
                }
                return Some(self.market_prices[i].1);
            }
            i += 1;
        }
        proof {
            lemma_prices_map_absent(self@.prices, instrument@);
        }
        None
    }

    /// All trades matching a filter, in recorded order.
    pub fn filter_trades(&self, filter: &crate::filter::TradeFilter) -> (r: Vec<Trade>)
        ensures
            models_of(r@) == matching_filter(self@.trades, filter@),
    {
        let ghost all = self@.trades;
        let ghost fm = filter@;
        let mut out: Vec<Trade> = Vec::new();
        let mut i: usize = 0;
        while i < self.trades.len()
            invariant
                i <= all.len(),
                all == models_of(self.trades@),
                fm == filter@,
                models_of(out@) == matching_filter(all.take(i as int), fm),
            decreases all.len() - i,
        {
            proof {
                lemma_matching_filter_push(all, fm, i as int);
            }
            if self.trades[i].matches_filter(filter) {
                out.push(self.trades[i].clone());
                proof {
                    assert(models_of(out@) =~= matching_filter(all.take(i as int), fm).push(
                        all[i as int],
                    ));
                }
            }
            i += 1;
        }
        proof {
            assert(all.take(all.len() as int) =~= all);
        }
        out
    }

    /// All trades matching the given criteria — any of the listed
    /// instruments (an empty list restricts nothing), a side, an
    /// inclusive date range — in recorded order.
    pub fn get_trades_by_criteria(
        &self,
        instruments: &Vec<String>,
        side: Option<Side>,
        date_range: Option<(i64, i64)>,
    ) -> (r: Vec<Trade>)
        ensures
            models_of(r@) == matching_criteria(
                self@.trades,
                instrument_views(instruments@),
                side,
                date_range,
            ),
    {
        let ghost all = self@.trades;
        let ghost iv = instrument_views(instruments@);
        let mut out: Vec<Trade> = Vec::new();
        let mut i: usize = 0;
        while i < self.trades.len()
            invariant
                i <= all.len(),
                all == models_of(self.trades@),
                iv == instrument_views(instruments@),
                models_of(out@) == matching_criteria(all.take(i as int), iv, side, date_range),
            decreases all.len() - i,
        {
            proof {
                lemma_matching_criteria_push(all, iv, side, date_range, i as int);
            }
            let t = &self.trades[i];
            let mut keep: bool = true;
            if instruments.len() > 0 && !contains_instrument(instruments, &t.instrument) {
                keep = false;
            }
            if keep {
                if let Some(s) = &side {
                    if !(t.side == *s) {
                        keep = false;
                    }
                }
            }
            if keep {
                if let Some(dr) = &date_range {
                    if t.trade_date < dr.0 || t.trade_date > dr.1 {
                        keep = false;
                    }
                }
            }
            proof {
                assert(keep == criteria_matches(all[i as int], iv, side, date_range));
            }
            if keep {
                out.push(t.clone());
                proof {
                    assert(models_of(out@) =~= matching_criteria(
                        all.take(i as int),
                        iv,
                        side,
                        date_range,
                    ).push(all[i as int]));
                }
            }
            i += 1;
        }
        proof {
            assert(all.take(all.len() as int) =~= all);
        }
        out
    }
}

/// Totals of a portfolio P&L query: realized P&L over all positions;
/// unrealized P&L and market value over the positions whose instrument
/// has a known market price.
#[derive(Clone, Copy, Debug, PartialEq, Eq, Structural)]
pub struct PnlSummary {
    pub realized: Money,
    pub unrealized: Money,
    pub market_value: Money,
}

/// The three portfolio totals, folded over the positions in order:
/// realized P&L always; unrealized P&L and market value only where the
/// instrument has a known price — an absent price excludes the
/// position from those two totals, it is not taken as zero.
pub open spec fn pnl_sums(ps: Seq<PositionModel>, prices: Map<Seq<char>, Rational>) -> (
    Rational,
    Rational,
    Rational,
)
    decreases ps.len(),
{
    if ps.len() == 0 {
        (rat_zero(), rat_zero(), rat_zero())
    } else {
        let prev = pnl_sums(ps.drop_last(), prices);
        let p = ps.last();
        let realized = rat_add(prev.0, p.realized_pnl);
        if prices.dom().contains(p.instrument) {
            let mp = prices[p.instrument];
            (
                realized,
                rat_add(prev.1, spec_unrealized(p, mp)),
                rat_add(prev.2, spec_market_value(p, mp)),
            )
        } else {
            (realized, prev.1, prev.2)
        }
    }
}

/// Whether every step of the portfolio fold fits the 64-bit
/// representation.
pub open spec fn pnl_sums_ok(ps: Seq<PositionModel>, prices: Map<Seq<char>, Rational>) -> bool
    decreases ps.len(),
{
    if ps.len() == 0 {
        true
    } else {
        let prev = pnl_sums(ps.drop_last(), prices);
        let p = ps.last();
        &&& pnl_sums_ok(ps.drop_last(), prices)
        &&& rat_fits(rat_add(prev.0, p.realized_pnl))
        &&& (prices.dom().contains(p.instrument) ==> {
            let mp = prices[p.instrument];
            &&& unrealized_fits(p, mp)
            &&& rat_fits(rat_add(prev.1, spec_unrealized(p, mp)))
            &&& in_i64_range(mp.num * p.quantity)
            &&& rat_fits(rat_add(prev.2, spec_market_value(p, mp)))
        })
    }
}

proof fn lemma_pnl_ok_prefix(ps: Seq<PositionModel>, prices: Map<Seq<char>, Rational>, k: int)
    requires
        pnl_sums_ok(ps, prices),
        0 <= k <= ps.len(),
    ensures
        pnl_sums_ok(ps.take(k), prices),
    decreases ps.len() - k,
{
    if k == ps.len() {
        assert(ps.take(k) =~= ps);
    } else {
        assert(ps.take(k) =~= ps.drop_last().take(k));
        lemma_pnl_ok_prefix(ps.drop_last(), prices, k);
    }
}

/// The position an as-of reconstruction reports for an instrument: its
/// replayed position, or the flat position if it had not traded by
/// that date.
pub open spec fn position_as_of_or_flat(s: Seq<TradeModel>, x: Seq<char>, d: int) -> PositionModel {
    if positions_as_of(s, d).dom().contains(x) {
        positions_as_of(s, d)[x]
    } else {
        flat_position(x)
    }
}

impl TradeRepository {
    /// Sum realized P&L over all positions, and unrealized P&L and
    /// market value over the positions with a known market price.
    /// Reports `Overflow` exactly when a step of the exact fold does
    /// not fit.
    pub fn calculate_portfolio_pnl(&self) -> (r: Result<PnlSummary, TradeError>)
        requires
            self.wf(),
        ensures
            r matches Ok(s) ==> (s.realized@, s.unrealized@, s.market_value@) == pnl_sums(
                self@.positions,
                prices_map(self@.prices),
            ),
            r is Ok <==> pnl_sums_ok(self@.positions, prices_map(self@.prices)),
            r matches Err(e) ==> e == TradeError::Overflow,
    {
        let ghost prices = prices_map(self@.prices);
        let ghost all = self@.positions;
        let mut realized = Money::from_int(0);
        let mut unrealized = Money::from_int(0);
        let mut market_value = Money::from_int(0);
        let mut i: usize = 0;
        while i < self.positions.len()
            invariant
                self.wf(),
                prices == prices_map(self@.prices),
                all == self@.positions,
                i <= all.len(),
                (realized@, unrealized@, market_value@) == pnl_sums(all.take(i as int), prices),
                pnl_sums_ok(all.take(i as int), prices),
            decreases all.len() - i,
        {
            proof {
                assert(all.take(i + 1).drop_last() =~= all.take(i as int));
                assert(all.take(i + 1).last() == all[i as int]);
            }
            let p = &self.positions[i];
            realized = match realized.add_rat(&p.realized_pnl) {
                Some(m) => m,
                None => {
                    proof {
                        assert(!pnl_sums_ok(all, prices)) by {
                            if pnl_sums_ok(all, prices) {
                                lemma_pnl_ok_prefix(all, prices, i + 1);
                            }
                        };
                    }
                    return Err(TradeError::Overflow);
                },
            };
            match self.get_market_price(&p.instrument) {
                Some(mp) => {
                    let u = match p.unrealized_pnl(&mp) {
                        Some(m) => m,
                        None => {
                            proof {
                                assert(!pnl_sums_ok(all, prices)) by {
                                    if pnl_sums_ok(all, prices) {
                                        lemma_pnl_ok_prefix(all, prices, i + 1);
                                    }
                                };
                            }
                            return Err(TradeError::Overflow);
                        },
                    };
                    unrealized = match unrealized.add_rat(&u) {
                        Some(m) => m,
                        None => {
                            proof {
                                assert(!pnl_sums_ok(all, prices)) by {
                                    if pnl_sums_ok(all, prices) {
                                        lemma_pnl_ok_prefix(all, prices, i + 1);
                                    }
                                };
                            }
                            return Err(TradeError::Overflow);
                        },
                    };
                    let mv = match p.market_value(&mp) {
                        Some(m) => m,
                        None => {
                            proof {
                                assert(!pnl_sums_ok(all, prices)) by {
                                    if pnl_sums_ok(all, prices) {
                                        lemma_pnl_ok_prefix(all, prices, i + 1);
                                    }
                                };
                            }
                            return Err(TradeError::Overflow);
                        },
                    };
                    market_value = match market_value.add_rat(&mv) {
                        Some(m) => m,
                        None => {
                            proof {
                                assert(!pnl_sums_ok(all, prices)) by {
                                    if pnl_sums_ok(all, prices) {
                                        lemma_pnl_ok_prefix(all, prices, i + 1);
                                    }
                                };
                            }
                            return Err(TradeError::Overflow);
                        },
                    };
                },
                None => {},
            }
            i += 1;
        }
        proof {
            assert(all.take(all.len() as int) =~= all);
        }
        Ok(PnlSummary { realized, unrealized, market_value })
    }

    /// The instrument's position at each calendar day of
    /// `[start_date, end_date]`, inclusive, each reconstructed by
    /// replaying the trades dated on or before that day; a flat
    /// position where the instrument had not traded by then. An empty
    /// history when the range is empty.
    pub fn get_position_history(&self, instrument: &String, start_date: i64, end_date: i64) -> (r:
        Result<Vec<(i64, TradePosition)>, TradeError>)
        requires
            self.wf(),
        ensures
            r matches Ok(h) ==> h@.len() == (if start_date <= end_date {
                end_date - start_date + 1int
            } else {
                0int
            }),
            r matches Ok(h) ==> forall|k: int|
                0 <= k < h@.len() ==> h@[k].0 == start_date + k && h@[k].1@
                    == position_as_of_or_flat(self@.trades, instrument@, start_date + k),
            r is Ok <==> (forall|dd: int|
                start_date <= dd <= end_date ==> replay_ok(
                    sort_by_date(as_of_filter(self@.trades, dd)),
                )),
            r matches Err(e) ==> e == TradeError::Overflow,
    {
        let mut hist: Vec<(i64, TradePosition)> = Vec::new();
        if start_date > end_date {
            return Ok(hist);
        }
        let total: i128 = end_date as i128 - start_date as i128 + 1;
        let mut k: i128 = 0;
        while k < total
            invariant
                self.wf(),
                start_date <= end_date,
                total == end_date - start_date + 1,
                0 <= k <= total,
                hist@.len() == k,
                forall|n: int|
                    0 <= n < k ==> hist@[n].0 == start_date + n && hist@[n].1@
                        == position_as_of_or_flat(self@.trades, instrument@, start_date + n),
                forall|dd: int|
                    start_date <= dd < start_date + k ==> replay_ok(
                        sort_by_date(as_of_filter(self@.trades, dd)),
                    ),
            decreases total - k,
        {
            let current: i64 = (start_date as i128 + k) as i64;
            let day_positions = match self.build_position_map_as_of_date(current) {
                Ok(ps) => ps,
                Err(_) => {
                    return Err(TradeError::Overflow);
                },
            };
            let pos: TradePosition = match crate::replay::find_position_index(
                &day_positions,
                instrument,
            ) {
                Some(j) => {
                    proof {
                        lemma_positions_map_get(pos_models(day_positions@), j as int);
                    }
                    day_positions[j].clone()
                },
                None => {
                    proof {
                        lemma_positions_map_absent(pos_models(day_positions@), instrument@);
                    }
                    TradePosition::new(instrument.clone())
                },
            };
            hist.push((current, pos));
            k = k + 1;
        }
        Ok(hist)
    }
}

/// A performance entry: instrument, realized P&L, unrealized P&L.
pub open spec fn metric(by_unrealized: bool, e: (Seq<char>, Rational, Rational)) -> Rational {
    if by_unrealized {
        e.2
    } else {
        e.1
    }
}

/// The instruments with a known market price, each with its realized
/// and unrealized P&L, in position order.
pub open spec fn performers(ps: Seq<PositionModel>, prices: Map<Seq<char>, Rational>) -> Seq<
    (Seq<char>, Rational, Rational),
>
    decreases ps.len(),
{
    if ps.len() == 0 {
        Seq::empty()
    } else {
        let prev = performers(ps.drop_last(), prices);
        let p = ps.last();
        if prices.dom().contains(p.instrument) {
            prev.push((p.instrument, p.realized_pnl, spec_unrealized(p, prices[p.instrument])))
        } else {
            prev
        }
    }
}

/// Whether every unrealized P&L of the performance entries fits the
/// 64-bit representation.
pub open spec fn performers_ok(ps: Seq<PositionModel>, prices: Map<Seq<char>, Rational>) -> bool
    decreases ps.len(),
{
    if ps.len() == 0 {
        true
    } else {
        &&& performers_ok(ps.drop_last(), prices)
        &&& (prices.dom().contains(ps.last().instrument) ==> unrealized_fits(
            ps.last(),
            prices[ps.last().instrument],
        ))
    }
}

proof fn lemma_performers_ok_prefix(
    ps: Seq<PositionModel>,
    prices: Map<Seq<char>, Rational>,
    k: int,
)
    requires
        performers_ok(ps, prices),
        0 <= k <= ps.len(),
    ensures
        performers_ok(ps.take(k), prices),
    decreases ps.len() - k,
{
    if k == ps.len() {
        assert(ps.take(k) =~= ps);
    } else {
        assert(ps.take(k) =~= ps.drop_last().take(k));
        lemma_performers_ok_prefix(ps.drop_last(), prices, k);
    }
}

pub open spec fn perf_models(s: Seq<(String, Money, Money)>) -> Seq<(Seq<char>, Rational, Rational)> {
    s.map_values(|e: (String, Money, Money)| (e.0@, e.1@, e.2@))
}

/// Both P&L amounts of a performance entry are well-formed.
pub open spec fn perf_entry_wf(e: (Seq<char>, Rational, Rational)) -> bool {
    rat_wf(e.1) && rat_wf(e.2)
}

/// Ranked from best down: each later entry's metric is no greater.
pub open spec fn sorted_desc(s: Seq<(Seq<char>, Rational, Rational)>, by_unrealized: bool) -> bool {
    forall|i: int, j: int|
        0 <= i < j < s.len() ==> rat_le(metric(by_unrealized, s[j]), metric(by_unrealized, s[i]))
}

pub open spec fn min_len(a: int, b: int) -> int {
    if a <= b {
        a
    } else {
        b
    }
}

impl TradeRepository {
    /// The instruments with known market prices, ranked from best down
    /// by realized (or, on request, unrealized) P&L, cut to the `limit`
    /// best. Every instrument left out ranks no better than any
    /// returned one; the order among equal ranks is unspecified.
    /// Reports `Overflow` exactly when an exact unrealized P&L does not
    /// fit.
    pub fn get_top_performers(&self, limit: usize, sort_by_unrealized: bool) -> (r: Result<
        Vec<(String, Money, Money)>,
        TradeError,
    >)
        requires
            self.wf(),
        ensures
            r is Ok <==> performers_ok(self@.positions, prices_map(self@.prices)),
            r matches Ok(v) ==> v@.len() == min_len(
                limit as int,
                performers(self@.positions, prices_map(self@.prices)).len() as int,
            ),
            r matches Ok(v) ==> sorted_desc(perf_models(v@), sort_by_unrealized),
            r matches Ok(v) ==> perf_models(v@).to_multiset().subset_of(
                performers(self@.positions, prices_map(self@.prices)).to_multiset(),
            ),
            r matches Ok(v) ==> forall|x: (Seq<char>, Rational, Rational)|
                performers(self@.positions, prices_map(self@.prices)).to_multiset().count(x)
                    > perf_models(v@).to_multiset().count(x) ==> forall|n: int|
                    0 <= n < v@.len() ==> rat_le(
                        metric(sort_by_unrealized, x),
                        metric(sort_by_unrealized, perf_models(v@)[n]),
                    ),
            r matches Err(e) ==> e == TradeError::Overflow,
    {
        let ghost prices = prices_map(self@.prices);
        let ghost all = self@.positions;
        let mut cands: Vec<(String, Money, Money)> = Vec::new();
        let mut i: usize = 0;
        while i < self.positions.len()
            invariant
                self.wf(),
                prices == prices_map(self@.prices),
                all == self@.positions,
                i <= all.len(),
                perf_models(cands@) == performers(all.take(i as int), prices),
                performers_ok(all.take(i as int), prices),
                forall|k: int|
                    0 <= k < cands@.len() ==> perf_entry_wf(#[trigger] perf_models(cands@)[k]),
            decreases all.len() - i,
        {
            proof {
                assert(all.take(i + 1).drop_last() =~= all.take(i as int));
                assert(all.take(i + 1).last() == all[i as int]);
            }
            let p = &self.positions[i];
            match self.get_market_price(&p.instrument) {
                Some(mp) => {
                    let u = match p.unrealized_pnl(&mp) {
                        Some(m) => m,
                        None => {
                            proof {
                                assert(!performers_ok(all, prices)) by {
                                    if performers_ok(all, prices) {
                                        lemma_performers_ok_prefix(all, prices, i + 1);
                                    }
                                };
                            }
                            return Err(TradeError::Overflow);
                        },
                    };
                    let ghost prev = cands@;
                    cands.push((p.instrument.clone(), p.realized_pnl, u));
                    proof {
                        crate::position::lemma_unrealized_wf(all[i as int], mp@);
                        assert(rat_wf(u@));
                        assert(rat_wf(all[i as int].realized_pnl));
                        assert(perf_models(cands@) =~= performers(all.take(i as int), prices).push(
                            (all[i as int].instrument, all[i as int].realized_pnl, u@),
                        ));
                        assert forall|k: int| 0 <= k < cands@.len() implies perf_entry_wf(
                            #[trigger] perf_models(cands@)[k],
                        ) by {
                            if k < prev.len() {
                                assert(perf_models(prev)[k] == perf_models(cands@)[k]);
                                assert(perf_entry_wf(perf_models(prev)[k]));
                            } else {
                                assert(perf_models(cands@)[k] == (
                                    all[i as int].instrument,
                                    all[i as int].realized_pnl,
                                    u@,
                                ));
                            }
                        }
                    }
                },
                None => {},
            }
            i += 1;
        }
        proof {
            assert(all.take(all.len() as int) =~= all);
        }
        let ghost full = performers(all, prices);
        // repeatedly pull out the best remaining entry
        let mut out: Vec<(String, Money, Money)> = Vec::new();
        proof {
            broadcast use vstd::seq_lib::group_to_multiset_ensures;

            assert(perf_models(out@) =~= Seq::<(Seq<char>, Rational, Rational)>::empty());
            assert(perf_models(out@).to_multiset().add(perf_models(cands@).to_multiset())
                =~= full.to_multiset());
        }
        while out.len() < limit && cands.len() > 0
            invariant
                out@.len() + cands@.len() == full.len(),
                out@.len() <= limit,
                perf_models(out@).to_multiset().add(perf_models(cands@).to_multiset())
                    == full.to_multiset(),
                sorted_desc(perf_models(out@), sort_by_unrealized),
                forall|a: int, b: int|
                    0 <= a < out@.len() && 0 <= b < cands@.len() ==> rat_le(
                        metric(sort_by_unrealized, #[trigger] perf_models(cands@)[b]),
                        metric(sort_by_unrealized, #[trigger] perf_models(out@)[a]),
                    ),
                forall|k: int|
                    0 <= k < cands@.len() ==> perf_entry_wf(#[trigger] perf_models(cands@)[k]),
            decreases cands@.len(),
        {
            let mut best: usize = 0;
            let mut k: usize = 1;
            while k < cands.len()
                invariant
                    cands@.len() > 0,
                    best < k <= cands@.len(),
                    forall|m: int|
                        0 <= m < k ==> rat_le(
                            metric(sort_by_unrealized, #[trigger] perf_models(cands@)[m]),
                            metric(sort_by_unrealized, perf_models(cands@)[best as int]),
                        ),
                    forall|n: int|
                        0 <= n < cands@.len() ==> perf_entry_wf(
                            #[trigger] perf_models(cands@)[n],
                        ),
                decreases cands@.len() - k,
            {
                let better = if sort_by_unrealized {
                    !cands[k].2.le(&cands[best].2)
                } else {
                    !cands[k].1.le(&cands[best].1)
                };
                proof {
                    assert(perf_models(cands@)[k as int] == (
                        cands@[k as int].0@,
                        cands@[k as int].1@,
                        cands@[k as int].2@,
                    ));
                    assert(perf_models(cands@)[best as int] == (
                        cands@[best as int].0@,
                        cands@[best as int].1@,
                        cands@[best as int].2@,
                    ));
                }
                if better {
                    proof {
                        assert forall|m: int| 0 <= m < k + 1 implies rat_le(
                            metric(sort_by_unrealized, #[trigger] perf_models(cands@)[m]),
                            metric(sort_by_unrealized, perf_models(cands@)[k as int]),
                        ) by {
                            if m < k {
                                assert(perf_entry_wf(perf_models(cands@)[m]));
                                assert(perf_entry_wf(perf_models(cands@)[best as int]));
                                assert(perf_entry_wf(perf_models(cands@)[k as int]));
                                crate::money::lemma_rat_le_trans(
                                    metric(sort_by_unrealized, perf_models(cands@)[m]),
                                    metric(sort_by_unrealized, perf_models(cands@)[best as int]),
                                    metric(sort_by_unrealized, perf_models(cands@)[k as int]),
                                );
                            }
                        }
                    }
                    best = k;
                }
                k += 1;
            }
            let ghost cands_before = cands@;
            let ghost out_before = out@;
            let ghost chosen_model = perf_models(cands@)[best as int];
            let chosen = cands.remove(best);
            out.push(chosen);
            proof {
                broadcast use vstd::seq_lib::group_to_multiset_ensures;

                assert(perf_models(cands@) =~= perf_models(cands_before).remove(best as int));
                assert(perf_models(out@) =~= perf_models(out_before).push(chosen_model));
                assert(perf_models(cands@).to_multiset() =~= perf_models(
                    cands_before,
                ).to_multiset().remove(chosen_model));
                assert(perf_models(out@).to_multiset() =~= perf_models(
                    out_before,
                ).to_multiset().insert(chosen_model));
                assert(perf_models(cands_before).to_multiset().count(chosen_model) >= 1);
                assert(perf_models(out@).to_multiset().add(perf_models(cands@).to_multiset())
                    =~= perf_models(out_before).to_multiset().add(
                    perf_models(cands_before).to_multiset(),
                ));
                assert forall|a: int, b: int|
                    0 <= a < out@.len() && 0 <= b < cands@.len() implies rat_le(
                    metric(sort_by_unrealized, #[trigger] perf_models(cands@)[b]),
                    metric(sort_by_unrealized, #[trigger] perf_models(out@)[a]),
                ) by {
                    let e = perf_models(cands@)[b];
                    if b < best as int {
                        assert(e == perf_models(cands_before)[b]);
                    } else {
                        assert(e == perf_models(cands_before)[b + 1]);
                    }
                    if a < out_before.len() {
                        assert(perf_models(out@)[a] == perf_models(out_before)[a]);
                    } else {
                        assert(perf_models(out@)[a] == chosen_model);
                    }
                }
                assert forall|i2: int, j2: int|
                    0 <= i2 < j2 < perf_models(out@).len() implies rat_le(
                    metric(sort_by_unrealized, perf_models(out@)[j2]),
                    metric(sort_by_unrealized, perf_models(out@)[i2]),
                ) by {
                    if j2 < out_before.len() {
                        assert(perf_models(out@)[i2] == perf_models(out_before)[i2]);
                        assert(perf_models(out@)[j2] == perf_models(out_before)[j2]);
                    } else {
                        assert(perf_models(out@)[j2] == chosen_model);
                        assert(perf_models(out@)[i2] == perf_models(out_before)[i2]);
                        assert(rat_le(
                            metric(sort_by_unrealized, perf_models(cands_before)[best as int]),
                            metric(sort_by_unrealized, perf_models(out_before)[i2]),
                        ));
                    }
                }
                assert forall|n: int| 0 <= n < cands@.len() implies perf_entry_wf(
                    #[trigger] perf_models(cands@)[n],
                ) by {
                    if n < best as int {
                        assert(perf_models(cands@)[n] == perf_models(cands_before)[n]);
                        assert(perf_entry_wf(perf_models(cands_before)[n]));
                    } else {
                        assert(perf_models(cands@)[n] == perf_models(cands_before)[n + 1]);
                        assert(perf_entry_wf(perf_models(cands_before)[n + 1]));
                    }
                }
            }
        }
        proof {
            broadcast use vstd::seq_lib::group_to_multiset_ensures;

            assert forall|x: (Seq<char>, Rational, Rational)| #[trigger]
                perf_models(out@).to_multiset().count(x) <= full.to_multiset().count(x) by {
                assert(full.to_multiset().count(x) == perf_models(out@).to_multiset().count(x)
                    + perf_models(cands@).to_multiset().count(x));
            }
            assert forall|x: (Seq<char>, Rational, Rational)|
                full.to_multiset().count(x) > perf_models(out@).to_multiset().count(x) implies (
            forall|n: int|
                0 <= n < out@.len() ==> rat_le(
                    metric(sort_by_unrealized, x),
                    metric(sort_by_unrealized, #[trigger] perf_models(out@)[n]),
                )) by {
                assert(perf_models(cands@).to_multiset().count(x) > 0);
                assert(perf_models(cands@).contains(x));
                let b = choose|b: int| 0 <= b < perf_models(cands@).len() && perf_models(
                    cands@,
                )[b] == x;
                assert forall|n: int| 0 <= n < out@.len() implies rat_le(
                    metric(sort_by_unrealized, x),
                    metric(sort_by_unrealized, #[trigger] perf_models(out@)[n]),
                ) by {
                    assert(rat_le(
                        metric(sort_by_unrealized, perf_models(cands@)[b]),
                        metric(sort_by_unrealized, perf_models(out@)[n]),
                    ));
                }
            }
        }
        Ok(out)
    }
}

/// The instrument names of a list, as character sequences.
pub open spec fn instrument_views(s: Seq<String>) -> Seq<Seq<char>> {
    s.map_values(|x: String| x@)
}

/// Whether a trade meets the multi-criteria search: one of the listed
/// instruments (an empty list restricts nothing), the side, and the
/// inclusive date range, where given.
pub open spec fn criteria_matches(
    t: TradeModel,
    instrs: Seq<Seq<char>>,
    side: Option<Side>,
    date_range: Option<(i64, i64)>,
) -> bool {
    &&& (instrs.len() > 0 ==> instrs.contains(t.instrument))
    &&& (side matches Some(s) ==> t.side == s)
    &&& (date_range matches Some(dr) ==> dr.0 <= t.trade_date <= dr.1)
}

/// The trades meeting the multi-criteria search, in recorded order.
pub open spec fn matching_criteria(
    s: Seq<TradeModel>,
    instrs: Seq<Seq<char>>,
    side: Option<Side>,
    date_range: Option<(i64, i64)>,
) -> Seq<TradeModel> {
    s.filter(|t: TradeModel| criteria_matches(t, instrs, side, date_range))
}

proof fn lemma_matching_criteria_push(
    s: Seq<TradeModel>,
    instrs: Seq<Seq<char>>,
    side: Option<Side>,
    date_range: Option<(i64, i64)>,
    i: int,
)
    requires
        0 <= i < s.len(),
    ensures
        criteria_matches(s[i], instrs, side, date_range) ==> matching_criteria(
            s.take(i + 1),
            instrs,
            side,
            date_range,
        ) == matching_criteria(s.take(i), instrs, side, date_range).push(s[i]),
        !criteria_matches(s[i], instrs, side, date_range) ==> matching_criteria(
            s.take(i + 1),
            instrs,
            side,
            date_range,
        ) == matching_criteria(s.take(i), instrs, side, date_range),
{
    reveal(Seq::filter);
    assert(s.take(i + 1).drop_last() =~= s.take(i));
    assert(s.take(i + 1).last() == s[i]);
}

/// Whether one of the listed instruments is the given one.
fn contains_instrument(instruments: &Vec<String>, x: &String) -> (r: bool)
    ensures
        r == instrument_views(instruments@).contains(x@),
{
    let mut i: usize = 0;
    while i < instruments.len()
        invariant
            i <= instruments@.len(),
            forall|k: int| 0 <= k < i ==> instrument_views(instruments@)[k] != x@,
        decreases instruments@.len() - i,
    {
        if instruments[i] == *x {
            proof {
                assert(instrument_views(instruments@)[i as int] == x@);
            }
            return true;
        }
        i += 1;
    }
    proof {
        assert(!instrument_views(instruments@).contains(x@));
    }
    false
}

/// The trades matching a filter, in recorded order.
pub open spec fn matching_filter(s: Seq<TradeModel>, f: crate::filter::FilterModel) -> Seq<
    TradeModel,
> {
    s.filter(|t: TradeModel| crate::filter::spec_matches(t, f))
}

proof fn lemma_matching_filter_push(s: Seq<TradeModel>, f: crate::filter::FilterModel, i: int)
    requires
        0 <= i < s.len(),
    ensures
        crate::filter::spec_matches(s[i], f) ==> matching_filter(s.take(i + 1), f)
            == matching_filter(s.take(i), f).push(s[i]),
        !crate::filter::spec_matches(s[i], f) ==> matching_filter(s.take(i + 1), f)
            == matching_filter(s.take(i), f),
{
    reveal(Seq::filter);
    assert(s.take(i + 1).drop_last() =~= s.take(i));
    assert(s.take(i + 1).last() == s[i]);
}

/// The trades dated within `[lo, hi]`, in recorded order.
pub open spec fn trades_in_range(s: Seq<TradeModel>, lo: int, hi: int) -> Seq<TradeModel> {
    s.filter(|t: TradeModel| lo <= t.trade_date <= hi)
}

proof fn lemma_trades_in_range_push(s: Seq<TradeModel>, lo: int, hi: int, i: int)
    requires
        0 <= i < s.len(),
    ensures
        lo <= s[i].trade_date <= hi ==> trades_in_range(s.take(i + 1), lo, hi) == trades_in_range(
            s.take(i),
            lo,
            hi,
        ).push(s[i]),
        !(lo <= s[i].trade_date <= hi) ==> trades_in_range(s.take(i + 1), lo, hi)
            == trades_in_range(s.take(i), lo, hi),
{
    reveal(Seq::filter);
    assert(s.take(i + 1).drop_last() =~= s.take(i));
    assert(s.take(i + 1).last() == s[i]);
}

/// Date-range inclusivity: querying the one-day range `[d, d]` returns
/// exactly the trades dated `d` — every returned trade is dated `d`,
/// and every recorded trade dated `d` is returned.
pub proof fn lemma_date_range_point(s: Seq<TradeModel>, d: int)
    ensures
        forall|k: int|
            0 <= k < trades_in_range(s, d, d).len() ==> #[trigger] trades_in_range(
                s,
                d,
                d,
            )[k].trade_date == d,
        forall|k: int|
            0 <= k < s.len() && s[k].trade_date == d ==> trades_in_range(s, d, d).contains(s[k]),
{
    broadcast use vstd::seq_lib::group_filter_ensures;

    assert forall|k: int|
        0 <= k < s.len() && s[k].trade_date == d implies trades_in_range(s, d, d).contains(
        s[k],
    ) by {
        let pred = |t: TradeModel| d <= t.trade_date <= d;
        assert(pred(s[k]));
        assert(s.filter(pred).contains(s[k]));
    }
}

} // verus!

