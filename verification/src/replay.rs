//! Chronological replay of trades into positions.
//!
//! Positions are a deterministic fold over trades: the trades are
//! stable-sorted by date (same-day trades keep their recorded order)
//! and applied, in that order, to fresh per-instrument positions. The
//! live position map of the ledger and every as-of reconstruction are
//! both defined by this one fold.

use vstd::prelude::*;
use crate::trade::{Trade, TradeModel, TradeError, trade_valid};
use crate::position::{
    TradePosition, PositionModel, spec_apply, apply_fits, flat_position, pos_wf,
};

verus! {

pub open spec fn models_of(s: Seq<Trade>) -> Seq<TradeModel> {
    s.map_values(|t: Trade| t@)
}

pub open spec fn pos_models(s: Seq<TradePosition>) -> Seq<PositionModel> {
    s.map_values(|p: TradePosition| p@)
}

/// Insert a trade after every trade dated on or before it: the
/// insertion step of a stable sort by date.
pub open spec fn sorted_insert(s: Seq<TradeModel>, t: TradeModel) -> Seq<TradeModel>
    decreases s.len(),
{
    if s.len() == 0 {
        seq![t]
    } else if s.last().trade_date <= t.trade_date {
        s.push(t)
    } else {
        sorted_insert(s.drop_last(), t).push(s.last())
    }
}

/// Stable sort by trade date: trades with equal dates keep their
/// recorded order.
pub open spec fn sort_by_date(s: Seq<TradeModel>) -> Seq<TradeModel>
    decreases s.len(),
{
    if s.len() == 0 {
        Seq::empty()
    } else {
        sorted_insert(sort_by_date(s.drop_last()), s.last())
    }
}

/// Fold a trade list, in list order, into a per-instrument position map.
pub open spec fn replay(s: Seq<TradeModel>) -> Map<Seq<char>, PositionModel>
    decreases s.len(),
{
    if s.len() == 0 {
        Map::empty()
    } else {
        let m = replay(s.drop_last());
        let t = s.last();
        let before = if m.dom().contains(t.instrument) {
            m[t.instrument]
        } else {
            flat_position(t.instrument)
        };
        m.insert(t.instrument, spec_apply(before, t))
    }
}

/// Whether every trade of the list is acceptable and every fold step of
/// `replay` stays within the 64-bit representation.
pub open spec fn replay_ok(s: Seq<TradeModel>) -> bool
    decreases s.len(),
{
    if s.len() == 0 {
        true
    } else {
        let m = replay(s.drop_last());
        let t = s.last();
        let before = if m.dom().contains(t.instrument) {
            m[t.instrument]
        } else {
            flat_position(t.instrument)
        };
        replay_ok(s.drop_last()) && trade_valid(t) && apply_fits(before, t)
    }
}

/// The trades dated on or before `d`, in recorded order.
pub open spec fn as_of_filter(s: Seq<TradeModel>, d: int) -> Seq<TradeModel> {
    s.filter(|t: TradeModel| t.trade_date <= d)
}

/// The canonical position truth at a date: chronological replay of all
/// trades dated on or before it.
pub open spec fn positions_as_of(s: Seq<TradeModel>, d: int) -> Map<Seq<char>, PositionModel> {
    replay(sort_by_date(as_of_filter(s, d)))
}

/// The live position state: chronological replay of all trades.
pub open spec fn live_positions(s: Seq<TradeModel>) -> Map<Seq<char>, PositionModel> {
    replay(sort_by_date(s))
}

/// The map an association list of positions denotes: later entries win
/// (entries are unique in a well-formed ledger).
pub open spec fn positions_map(s: Seq<PositionModel>) -> Map<Seq<char>, PositionModel>
    decreases s.len(),
{
    if s.len() == 0 {
        Map::empty()
    } else {
        positions_map(s.drop_last()).insert(s.last().instrument, s.last())
    }
}

pub open spec fn distinct_instruments(s: Seq<PositionModel>) -> bool {
    forall|i: int, j: int| 0 <= i < j < s.len() ==> s[i].instrument != s[j].instrument
}

/// In a duplicate-free association list, each entry is what the map
/// yields for its instrument.
pub proof fn lemma_positions_map_get(s: Seq<PositionModel>, i: int)
    requires
        distinct_instruments(s),
        0 <= i < s.len(),
    ensures
        positions_map(s).dom().contains(s[i].instrument),
        positions_map(s)[s[i].instrument] == s[i],
    decreases s.len(),
{
    if i == s.len() - 1 {
    } else {
        lemma_positions_map_get(s.drop_last(), i);
    }
}

/// An instrument on no entry of the list is not in the map.
pub proof fn lemma_positions_map_absent(s: Seq<PositionModel>, x: Seq<char>)
    requires
        forall|k: int| 0 <= k < s.len() ==> s[k].instrument != x,
    ensures
        !positions_map(s).dom().contains(x),
    decreases s.len(),
{
    if s.len() > 0 {
        lemma_positions_map_absent(s.drop_last(), x);
    }
}

/// Replacing an entry by one for the same instrument updates the map at
/// that instrument alone.
pub proof fn lemma_positions_map_update(s: Seq<PositionModel>, j: int, p: PositionModel)
    requires
        distinct_instruments(s),
        0 <= j < s.len(),
        p.instrument == s[j].instrument,
    ensures
        positions_map(s.update(j, p)) == positions_map(s).insert(p.instrument, p),
    decreases s.len(),
{
    if j == s.len() - 1 {
        assert(s.update(j, p).drop_last() =~= s.drop_last());
        assert(positions_map(s.update(j, p)) =~= positions_map(s).insert(p.instrument, p));
    } else {
        assert(s.update(j, p).drop_last() =~= s.drop_last().update(j, p));
        lemma_positions_map_update(s.drop_last(), j, p);
        assert(s.update(j, p).last() == s.last());
        assert(positions_map(s.update(j, p)) == positions_map(s.drop_last().update(j, p)).insert(
            s.last().instrument,
            s.last(),
        ));
        assert(positions_map(s.update(j, p)) =~= positions_map(s).insert(p.instrument, p));
    }
}

/// A prefix of a replayable trade list is replayable.
pub proof fn lemma_replay_ok_prefix(s: Seq<TradeModel>, k: int)
    requires
        replay_ok(s),
        0 <= k <= s.len(),
    ensures
        replay_ok(s.take(k)),
    decreases s.len() - k,
{
    if k == s.len() {
        assert(s.take(k) =~= s);
    } else {
        assert(s.take(k) =~= s.drop_last().take(k));
        lemma_replay_ok_prefix(s.drop_last(), k);
    }
}

/// `sorted_insert` places the new trade at the index the backward scan
/// finds: after every earlier-or-equal date, before the tail of strictly
/// later dates.
pub proof fn lemma_sorted_insert_at(s: Seq<TradeModel>, t: TradeModel, j: int)
    requires
        0 <= j <= s.len(),
        forall|k: int| j <= k < s.len() ==> s[k].trade_date > t.trade_date,
        j > 0 ==> s[j - 1].trade_date <= t.trade_date,
    ensures
        sorted_insert(s, t) == s.insert(j, t),
    decreases s.len(),
{
    if j == s.len() {
        if s.len() == 0 {
            assert(sorted_insert(s, t) =~= s.insert(j, t));
        } else {
            assert(sorted_insert(s, t) == s.push(t));
            assert(s.push(t) =~= s.insert(j, t));
        }
    } else {
        assert(s[s.len() - 1].trade_date > t.trade_date);
        lemma_sorted_insert_at(s.drop_last(), t, j);
        assert(sorted_insert(s, t) == sorted_insert(s.drop_last(), t).push(s.last()));
        assert(s.drop_last().insert(j, t).push(s.last()) =~= s.insert(j, t));
    }
}

/// Sorting a list already in date order leaves it unchanged.
pub proof fn lemma_sort_of_sorted(s: Seq<TradeModel>)
    requires
        forall|i: int, j: int|
            0 <= i < j < s.len() ==> s[i].trade_date <= s[j].trade_date,
    ensures
        sort_by_date(s) == s,
    decreases s.len(),
{
    if s.len() == 0 {
        assert(sort_by_date(s) =~= s);
    } else {
        lemma_sort_of_sorted(s.drop_last());
        if s.len() == 1 {
            assert(sort_by_date(s) == sorted_insert(s.drop_last(), s.last()));
            assert(sorted_insert(s.drop_last(), s.last()) =~= s);
        } else {
            assert(s.drop_last().last().trade_date <= s.last().trade_date);
            assert(sort_by_date(s) == s.drop_last().push(s.last()));
            assert(s.drop_last().push(s.last()) =~= s);
        }
    }
}

/// Filtering by a date no trade exceeds keeps every trade.
pub proof fn lemma_as_of_filter_all(s: Seq<TradeModel>, d: int)
    requires
        forall|i: int| 0 <= i < s.len() ==> s[i].trade_date <= d,
    ensures
        as_of_filter(s, d) == s,
    decreases s.len(),
{
    reveal(Seq::filter);
    if s.len() > 0 {
        lemma_as_of_filter_all(s.drop_last(), d);
        assert(s.last().trade_date <= d);
        assert(as_of_filter(s, d) =~= s);
    } else {
        assert(as_of_filter(s, d) =~= s);
    }
}

/// One step of the as-of filter: taking one more trade keeps the
/// filtered prefix and appends the trade exactly when its date is in
/// range.
pub proof fn lemma_as_of_filter_push(s: Seq<TradeModel>, d: int, i: int)
    requires
        0 <= i < s.len(),
    ensures
        s[i].trade_date <= d ==> as_of_filter(s.take(i + 1), d) == as_of_filter(
            s.take(i),
            d,
        ).push(s[i]),
        s[i].trade_date > d ==> as_of_filter(s.take(i + 1), d) == as_of_filter(s.take(i), d),
{
    reveal(Seq::filter);
    assert(s.take(i + 1).drop_last() =~= s.take(i));
    assert(s.take(i + 1).last() == s[i]);
}

/// Every trade the as-of filter keeps is a trade of the list, so
/// validity of all trades carries over to the filtered list.
pub proof fn lemma_filter_members(s: Seq<TradeModel>, d: int)
    requires
        forall|k: int| 0 <= k < s.len() ==> trade_valid(s[k]),
    ensures
        forall|k: int|
            0 <= k < as_of_filter(s, d).len() ==> trade_valid(#[trigger] as_of_filter(s, d)[k]),
    decreases s.len(),
{
    reveal(Seq::filter);
    if s.len() > 0 {
        lemma_filter_members(s.drop_last(), d);
        let f = as_of_filter(s, d);
        let fp = as_of_filter(s.drop_last(), d);
        assert(trade_valid(s[s.len() - 1]));
        if s.last().trade_date <= d {
            assert(f == fp.push(s.last()));
        } else {
            assert(f == fp);
        }
        assert forall|k: int| 0 <= k < f.len() implies trade_valid(f[k]) by {
            if k < fp.len() {
                assert(f[k] == fp[k]);
            } else {
                assert(f[k] == s.last());
            }
        }
    }
}

/// Replay consistency: when trades are recorded in chronological order,
/// the as-of reconstruction at any date on or after the last trade
/// equals the plain fold of the trades in recorded order — the live
/// position map produced by adding them one by one.
pub proof fn lemma_replay_consistency(s: Seq<TradeModel>, d: int)
    requires
        forall|i: int, j: int|
            0 <= i < j < s.len() ==> s[i].trade_date <= s[j].trade_date,
        forall|i: int| 0 <= i < s.len() ==> s[i].trade_date <= d,
    ensures
        positions_as_of(s, d) == replay(s),
        live_positions(s) == replay(s),
{
    lemma_as_of_filter_all(s, d);
    lemma_sort_of_sorted(s);
}

/// Find an instrument's position in a position list.
pub(crate) fn find_position_index(ps: &Vec<TradePosition>, instrument: &String) -> (r: Option<
    usize,
>)
    ensures
        r matches Some(i) ==> i < ps@.len() && pos_models(ps@)[i as int].instrument
            == instrument@,
        r is None ==> forall|k: int|
            0 <= k < ps@.len() ==> pos_models(ps@)[k].instrument != instrument@,
{
    let mut i: usize = 0;
    while i < ps.len()
        invariant
            i <= ps@.len(),
            forall|k: int| 0 <= k < i ==> pos_models(ps@)[k].instrument != instrument@,
        decreases ps@.len() - i,
    {
        if ps[i].instrument == *instrument {
            return Some(i);
        }
        i += 1;
    }
    None
}

/// Stable sort of trades by date, keeping the recorded order of
/// same-day trades.
pub(crate) fn sort_trades_by_date(trades: Vec<Trade>) -> (r: Vec<Trade>)
    ensures
        models_of(r@) == sort_by_date(models_of(trades@)),
{
    let mut out: Vec<Trade> = Vec::new();
    let mut i: usize = 0;
    while i < trades.len()
        invariant
            i <= trades@.len(),
            models_of(out@) == sort_by_date(models_of(trades@.take(i as int))),
        decreases trades@.len() - i,
    {
        let t = trades[i].clone();
        let ghost pre = models_of(out@);
        let mut j: usize = out.len();
        while j > 0 && out[j - 1].trade_date > t.trade_date
            invariant
                j <= out@.len(),
                models_of(out@) == pre,
                forall|k: int|
                    j <= k < out@.len() ==> pre[k].trade_date > t@.trade_date,
            decreases j,
        {
            j -= 1;
        }
        out.insert(j, t);
        proof {
            lemma_sorted_insert_at(pre, t@, j as int);
            assert(models_of(out@) =~= pre.insert(j as int, t@));
            assert(models_of(trades@.take(i + 1)).drop_last() =~= models_of(
                trades@.take(i as int),
            ));
            assert(models_of(trades@.take(i + 1)).last() == t@);
        }
        i += 1;
    }
    proof {
        assert(trades@.take(trades@.len() as int) =~= trades@);
    }
    out
}

/// Fold a trade list, in list order, into fresh per-instrument
/// positions. Succeeds exactly when every fold step fits; on failure
/// nothing is returned and the error is the first failing step's.
pub(crate) fn replay_positions(trades: &Vec<Trade>) -> (r: Result<
    Vec<TradePosition>,
    TradeError,
>)
    ensures
        r matches Ok(ps) ==> positions_map(pos_models(ps@)) == replay(models_of(trades@)),
        r matches Ok(ps) ==> distinct_instruments(pos_models(ps@)),
        r matches Ok(ps) ==> forall|k: int| 0 <= k < ps@.len() ==> pos_wf(pos_models(ps@)[k]),
        r is Ok <==> replay_ok(models_of(trades@)),
        r matches Err(e) ==> e == TradeError::InvalidTrade || e == TradeError::Overflow,
        (forall|k: int|
            0 <= k < trades@.len() ==> trade_valid(models_of(trades@)[k])) ==> (r is Err
            ==> r == Err::<Vec<TradePosition>, TradeError>(TradeError::Overflow)),
{
    let ghost all = models_of(trades@);
    let mut ps: Vec<TradePosition> = Vec::new();
    let mut i: usize = 0;
    while i < trades.len()
        invariant
            i <= trades@.len(),
            all == models_of(trades@),
            positions_map(pos_models(ps@)) == replay(all.take(i as int)),
            distinct_instruments(pos_models(ps@)),
            forall|k: int| 0 <= k < ps@.len() ==> pos_wf(pos_models(ps@)[k]),
            replay_ok(all.take(i as int)),
        decreases trades@.len() - i,
    {
        let t = &trades[i];
        let ghost vec_before = pos_models(ps@);
        proof {
            assert(all.take(i + 1).drop_last() =~= all.take(i as int));
            assert(all.take(i + 1).last() == t@);
        }
        match find_position_index(&ps, &t.instrument) {
            Some(j) => {
                proof {
                    lemma_positions_map_get(vec_before, j as int);
                }
                let mut p = ps.remove(j);
                match p.update_position(t) {
                    Ok(()) => {},
                    Err(e) => {
                        proof {
                            assert(!replay_ok(all)) by {
                                if replay_ok(all) {
                                    lemma_replay_ok_prefix(all, i + 1);
                                }
                            };
                        }
                        return Err(e);
                    },
                }
                ps.insert(j, p);
                proof {
                    assert(pos_models(ps@) =~= vec_before.update(j as int, p@));
                    lemma_positions_map_update(vec_before, j as int, p@);
                    assert(p@.instrument == vec_before[j as int].instrument);
                    assert forall|a: int, b: int|
                        0 <= a < b < pos_models(ps@).len() implies pos_models(ps@)[a].instrument
                        != pos_models(ps@)[b].instrument by {
                        assert(vec_before[a].instrument != vec_before[b].instrument);
                    }
                    assert forall|k: int| 0 <= k < ps@.len() implies pos_wf(
                        pos_models(ps@)[k],
                    ) by {
                        if k != j as int {
                            assert(pos_models(ps@)[k] == vec_before[k]);
                        }
                    }
                }
            },
            None => {
                proof {
                    lemma_positions_map_absent(vec_before, t@.instrument);
                }
                let mut p = TradePosition::new(t.instrument.clone());
                match p.update_position(t) {
                    Ok(()) => {},
                    Err(e) => {
                        proof {
                            assert(!replay_ok(all)) by {
                                if replay_ok(all) {
                                    lemma_replay_ok_prefix(all, i + 1);
                                }
                            };
                        }
                        return Err(e);
                    },
                }
                ps.push(p);
                proof {
                    assert(pos_models(ps@).drop_last() =~= vec_before);
                    assert(pos_models(ps@).last() == p@);
                    assert(p@.instrument == t@.instrument);
                    assert forall|a: int, b: int|
                        0 <= a < b < pos_models(ps@).len() implies pos_models(ps@)[a].instrument
                        != pos_models(ps@)[b].instrument by {
                        if b < pos_models(ps@).len() - 1 {
                            assert(vec_before[a].instrument != vec_before[b].instrument);
                        } else {
                            assert(vec_before[a].instrument != t@.instrument);
                        }
                    }
                    assert forall|k: int| 0 <= k < ps@.len() implies pos_wf(
                        pos_models(ps@)[k],
                    ) by {
                        if k < ps@.len() - 1 {
                            assert(pos_models(ps@)[k] == vec_before[k]);
                        } else {
                            assert(pos_models(ps@)[k] == p@);
                        }
                    }
                }
            },
        }
        i += 1;
    }
    proof {
        assert(all.take(trades@.len() as int) =~= all);
    }
    Ok(ps)
}

} // verus!
