use chrono::Datelike;
use position_ledger::filter::TradeFilter;
use position_ledger::ledger::TradeRepository;
use position_ledger::money::Money;
use position_ledger::position::TradePosition;
use position_ledger::trade::{Side, Trade, TradeError, TradeStatus, TradeType};

fn assert_rat_eq(m: &Money, num: i128, den: i128) {
    assert!(m.den > 0, "denominator must be positive");
    assert_eq!(m.num as i128 * den, num * m.den as i128, "expected {}/{}, got {}/{}", num, den, m.num, m.den);
}

fn trade(id: i64, day: i64, instrument: &str, qty: i64, price: i64, side: Side) -> Trade {
    Trade::new(id, day, instrument.to_string(), qty, Money::from_int(price), side)
}

fn find<'a>(ps: &'a [TradePosition], instrument: &str) -> Option<&'a TradePosition> {
    ps.iter().find(|p| p.instrument == instrument)
}

fn sample_repo() -> TradeRepository {
    let mut repo = TradeRepository::new();
    repo.add_trade(trade(1, 1, "AAPL", 100, 100, Side::Buy)).unwrap();
    repo.add_trade(trade(2, 2, "AAPL", 50, 110, Side::Buy)).unwrap();
    repo.add_trade(trade(3, 3, "MSFT", 200, 150, Side::Buy)).unwrap();
    repo.add_trade(trade(4, 4, "AAPL", 20, 120, Side::Sell)).unwrap();
    repo.add_trade(trade(5, 5, "MSFT", 50, 160, Side::Buy)).unwrap();
    repo
}

#[test]
fn add_trade_builds_positions() {
    let repo = sample_repo();
    let aapl = repo.get_position(&"AAPL".to_string()).unwrap();
    assert_eq!(aapl.quantity, 130);
    assert_rat_eq(&aapl.average_price, 310, 3);
    assert_rat_eq(&aapl.realized_pnl, 1000, 3);
    let msft = repo.get_position(&"MSFT".to_string()).unwrap();
    assert_eq!(msft.quantity, 250);
    assert_rat_eq(&msft.average_price, 38000, 250);
    assert!(repo.get_position(&"GOOG".to_string()).is_none());
    assert_eq!(repo.get_all_positions().len(), 2);
}

#[test]
fn add_trade_rejects_invalid() {
    let mut repo = TradeRepository::new();
    let r = repo.add_trade(trade(1, 1, "AAPL", 0, 100, Side::Buy));
    assert_eq!(r, Err(TradeError::InvalidTrade));
    let r = repo.add_trade(trade(1, 1, "AAPL", 10, -3, Side::Buy));
    assert_eq!(r, Err(TradeError::InvalidTrade));
    assert!(repo.get_position(&"AAPL".to_string()).is_none());
}

#[test]
fn add_trade_reports_overflow_and_changes_nothing() {
    let mut repo = TradeRepository::new();
    repo.add_trade(trade(1, 1, "AAPL", 10, 100, Side::Buy)).unwrap();
    let huge = Trade::new(
        2,
        2,
        "AAPL".to_string(),
        i64::MAX,
        Money::from_int(i64::MAX),
        Side::Buy,
    );
    assert_eq!(repo.add_trade(huge), Err(TradeError::Overflow));
    let p = repo.get_position(&"AAPL".to_string()).unwrap();
    assert_eq!(p.quantity, 10);
}

#[test]
fn add_trade_with_same_id_replaces() {
    let mut repo = TradeRepository::new();
    repo.add_trade(trade(1, 1, "AAPL", 100, 100, Side::Buy)).unwrap();
    repo.add_trade(trade(1, 1, "AAPL", 50, 200, Side::Buy)).unwrap();
    let p = repo.get_position(&"AAPL".to_string()).unwrap();
    assert_eq!(p.quantity, 50);
    assert_rat_eq(&p.average_price, 200, 1);
}

#[test]
fn amend_trade_recomputes_position() {
    let mut repo = TradeRepository::new();
    repo.add_trade(trade(1, 1, "AAPL", 100, 100, Side::Buy)).unwrap();
    repo.add_trade(trade(2, 2, "AAPL", 50, 110, Side::Buy)).unwrap();
    repo.add_trade(trade(3, 3, "AAPL", 20, 120, Side::Sell)).unwrap();
    repo.amend_trade(2, 70, Money::from_int(115)).unwrap();
    // replay: buy 100@100, buy 70@115 -> qty 170, cost 18050;
    // sell 20@120 -> qty 150, avg 18050/170, realized (120-18050/170)*20
    let p = repo.get_position(&"AAPL".to_string()).unwrap();
    assert_eq!(p.quantity, 150);
    assert_rat_eq(&p.average_price, 18050, 170);
    assert_rat_eq(&p.realized_pnl, 47000, 170);
}

#[test]
fn amend_unknown_trade_is_not_found() {
    let mut repo = sample_repo();
    let before = repo.get_position(&"AAPL".to_string()).unwrap();
    assert_eq!(repo.amend_trade(99, 10, Money::from_int(1)), Err(TradeError::NotFound));
    let after = repo.get_position(&"AAPL".to_string()).unwrap();
    assert_eq!(before.quantity, after.quantity);
    assert!(before.average_price.eq_rat(&after.average_price));
}

#[test]
fn amend_rejects_invalid_values() {
    let mut repo = sample_repo();
    assert_eq!(repo.amend_trade(1, 0, Money::from_int(1)), Err(TradeError::InvalidTrade));
    assert_eq!(repo.amend_trade(1, 5, Money::from_int(-1)), Err(TradeError::InvalidTrade));
}

#[test]
fn amendment_to_current_values_is_idempotent() {
    let mut repo = sample_repo();
    let before = repo.get_position(&"AAPL".to_string()).unwrap();
    // trade 2 currently is 50 @ 110: amending to the same values must
    // leave the position exactly as it was
    repo.amend_trade(2, 50, Money::from_int(110)).unwrap();
    let after = repo.get_position(&"AAPL".to_string()).unwrap();
    assert_eq!(before.quantity, after.quantity);
    assert_eq!(before.average_price, after.average_price);
    assert_eq!(before.realized_pnl, after.realized_pnl);
    assert_eq!(before.total_cost, after.total_cost);
}

#[test]
fn amend_by_date_unknown_target_is_not_found() {
    let mut repo = sample_repo();
    let before = repo.get_position(&"AAPL".to_string()).unwrap();
    let r = repo.amend_trade_by_date(&"AAPL".to_string(), 9, 10, Money::from_int(1));
    assert_eq!(r, Err(TradeError::NotFound));
    let r = repo.amend_trade_by_date(&"GOOG".to_string(), 1, 10, Money::from_int(1));
    assert_eq!(r, Err(TradeError::NotFound));
    let after = repo.get_position(&"AAPL".to_string()).unwrap();
    assert_eq!(before.quantity, after.quantity);
    assert_eq!(before.realized_pnl, after.realized_pnl);
}

#[test]
fn amend_by_date_amends_the_matching_trade() {
    let mut repo = TradeRepository::new();
    repo.add_trade(trade(1, 1, "AAPL", 100, 100, Side::Buy)).unwrap();
    repo.add_trade(trade(2, 2, "AAPL", 50, 110, Side::Buy)).unwrap();
    repo.amend_trade_by_date(&"AAPL".to_string(), 2, 75, Money::from_int(115)).unwrap();
    let p = repo.get_position(&"AAPL".to_string()).unwrap();
    assert_eq!(p.quantity, 175);
    assert_rat_eq(&p.average_price, 100 * 100 + 75 * 115, 175);
}

#[test]
fn amend_by_date_with_two_matches_is_ambiguous() {
    let mut repo = TradeRepository::new();
    repo.add_trade(trade(1, 1, "AAPL", 100, 100, Side::Buy)).unwrap();
    repo.add_trade(trade(2, 1, "AAPL", 50, 110, Side::Buy)).unwrap();
    let r = repo.amend_trade_by_date(&"AAPL".to_string(), 1, 75, Money::from_int(115));
    assert_eq!(r, Err(TradeError::AmbiguousMatch));
    let p = repo.get_position(&"AAPL".to_string()).unwrap();
    assert_eq!(p.quantity, 150);
}

#[test]
fn cancel_trade_removes_it_from_replay() {
    let mut repo = TradeRepository::new();
    repo.add_trade(trade(1, 1, "AAPL", 100, 100, Side::Buy)).unwrap();
    repo.add_trade(trade(2, 2, "AAPL", 50, 110, Side::Buy)).unwrap();
    repo.cancel_trade(1).unwrap();
    let p = repo.get_position(&"AAPL".to_string()).unwrap();
    assert_eq!(p.quantity, 50);
    assert_rat_eq(&p.average_price, 110, 1);
    // the cancelled trade is gone from as-of reconstructions as well
    let as_of = repo.build_position_map_as_of_date(1).unwrap();
    assert!(find(&as_of, "AAPL").is_none());
}

#[test]
fn cancel_unknown_trade_is_not_found() {
    let mut repo = sample_repo();
    assert_eq!(repo.cancel_trade(99), Err(TradeError::NotFound));
    assert_eq!(repo.get_position(&"AAPL".to_string()).unwrap().quantity, 130);
}

#[test]
fn find_trades_by_date_is_inclusive() {
    let repo = sample_repo();
    let ts = repo.find_trades_by_date(2, 4);
    let ids: Vec<i64> = ts.iter().map(|t| t.trade_id).collect();
    assert_eq!(ids, vec![2, 3, 4]);
}

#[test]
fn find_trades_by_date_point_range() {
    let repo = sample_repo();
    let ts = repo.find_trades_by_date(3, 3);
    assert_eq!(ts.len(), 1);
    assert_eq!(ts[0].trade_id, 3);
    assert_eq!(ts[0].trade_date, 3);
    let none = repo.find_trades_by_date(9, 9);
    assert!(none.is_empty());
}

#[test]
fn as_of_reconstruction_replays_only_past_trades() {
    let repo = sample_repo();
    let day2 = repo.build_position_map_as_of_date(2).unwrap();
    let aapl = find(&day2, "AAPL").unwrap();
    assert_eq!(aapl.quantity, 150);
    assert_rat_eq(&aapl.average_price, 310, 3);
    assert!(find(&day2, "MSFT").is_none());
    let day0 = repo.build_position_map_as_of_date(0).unwrap();
    assert!(day0.is_empty());
}

#[test]
fn replay_consistency_at_last_date() {
    // trades were added in chronological order, so the as-of
    // reconstruction at the last date equals the live position map
    let repo = sample_repo();
    let rebuilt = repo.build_position_map_as_of_date(5).unwrap();
    let live = repo.get_all_positions();
    assert_eq!(rebuilt.len(), live.len());
    for p in &live {
        let q = find(&rebuilt, &p.instrument).unwrap();
        assert_eq!(p.quantity, q.quantity);
        assert_eq!(p.average_price, q.average_price);
        assert_eq!(p.realized_pnl, q.realized_pnl);
        assert_eq!(p.total_cost, q.total_cost);
    }
}

#[test]
fn position_history_covers_every_day() {
    let repo = sample_repo();
    let hist = repo.get_position_history(&"AAPL".to_string(), 0, 4).unwrap();
    assert_eq!(hist.len(), 5);
    let days: Vec<i64> = hist.iter().map(|e| e.0).collect();
    assert_eq!(days, vec![0, 1, 2, 3, 4]);
    assert_eq!(hist[0].1.quantity, 0); // before the first trade: flat
    assert_eq!(hist[1].1.quantity, 100);
    assert_eq!(hist[2].1.quantity, 150);
    assert_eq!(hist[3].1.quantity, 150); // the MSFT trade does not move AAPL
    assert_eq!(hist[4].1.quantity, 130);
}

#[test]
fn position_history_of_empty_range_is_empty() {
    let repo = sample_repo();
    let hist = repo.get_position_history(&"AAPL".to_string(), 5, 4).unwrap();
    assert!(hist.is_empty());
}

#[test]
fn market_prices_are_upserted() {
    let mut repo = TradeRepository::new();
    assert!(repo.get_market_price(&"AAPL".to_string()).is_none());
    repo.update_market_price(&"AAPL".to_string(), Money::from_int(135));
    repo.update_market_price(&"MSFT".to_string(), Money::from_int(155));
    repo.update_market_price(&"AAPL".to_string(), Money::from_int(140));
    let p = repo.get_market_price(&"AAPL".to_string()).unwrap();
    assert_rat_eq(&p, 140, 1);
    let p = repo.get_market_price(&"MSFT".to_string()).unwrap();
    assert_rat_eq(&p, 155, 1);
}

#[test]
fn portfolio_pnl_excludes_unpriced_instruments() {
    let mut repo = sample_repo();
    repo.update_market_price(&"AAPL".to_string(), Money::from_int(135));
    // MSFT has no market price: it contributes to realized only
    let s = repo.calculate_portfolio_pnl().unwrap();
    assert_rat_eq(&s.realized, 1000, 3);
    // AAPL unrealized: (135 - 310/3) * 130 = 12350/3
    assert_rat_eq(&s.unrealized, 12350, 3);
    assert_rat_eq(&s.market_value, 130 * 135, 1);
    repo.update_market_price(&"MSFT".to_string(), Money::from_int(155));
    let s = repo.calculate_portfolio_pnl().unwrap();
    // MSFT adds 250 * 155 of market value and (155 - 152) * 250 unrealized
    assert_rat_eq(&s.unrealized, 12350 + 3 * 250 * 3, 3);
    assert_rat_eq(&s.market_value, 130 * 135 + 250 * 155, 1);
}

#[test]
fn top_performers_are_ranked_descending() {
    let mut repo = TradeRepository::new();
    repo.add_trade(trade(1, 1, "AAPL", 100, 100, Side::Buy)).unwrap();
    repo.add_trade(trade(2, 1, "MSFT", 100, 100, Side::Buy)).unwrap();
    repo.add_trade(trade(3, 1, "GOOG", 100, 100, Side::Buy)).unwrap();
    repo.add_trade(trade(4, 1, "TSLA", 100, 100, Side::Buy)).unwrap();
    repo.update_market_price(&"AAPL".to_string(), Money::from_int(110)); // +1000
    repo.update_market_price(&"MSFT".to_string(), Money::from_int(90)); // -1000
    repo.update_market_price(&"GOOG".to_string(), Money::from_int(130)); // +3000
    // TSLA has no price: excluded
    let top = repo.get_top_performers(2, true).unwrap();
    assert_eq!(top.len(), 2);
    assert_eq!(top[0].0, "GOOG");
    assert_rat_eq(&top[0].2, 3000, 1);
    assert_eq!(top[1].0, "AAPL");
    assert_rat_eq(&top[1].2, 1000, 1);
    // a limit beyond the candidates returns them all
    let all = repo.get_top_performers(10, true).unwrap();
    assert_eq!(all.len(), 3);
    assert_eq!(all[2].0, "MSFT");
}

#[test]
fn top_performers_by_realized() {
    let mut repo = TradeRepository::new();
    repo.add_trade(trade(1, 1, "AAPL", 100, 100, Side::Buy)).unwrap();
    repo.add_trade(trade(2, 2, "AAPL", 100, 120, Side::Sell)).unwrap(); // realized +2000
    repo.add_trade(trade(3, 1, "MSFT", 100, 100, Side::Buy)).unwrap();
    repo.add_trade(trade(4, 2, "MSFT", 100, 90, Side::Sell)).unwrap(); // realized -1000
    repo.update_market_price(&"AAPL".to_string(), Money::from_int(1));
    repo.update_market_price(&"MSFT".to_string(), Money::from_int(1));
    let top = repo.get_top_performers(5, false).unwrap();
    assert_eq!(top.len(), 2);
    assert_eq!(top[0].0, "AAPL");
    assert_rat_eq(&top[0].1, 2000, 1);
    assert_eq!(top[1].0, "MSFT");
    assert_rat_eq(&top[1].1, -1000, 1);
}

#[test]
fn filter_matches_all_given_constraints() {
    let t = Trade::new_with_type(
        7,
        10,
        "AAPL".to_string(),
        120,
        Money::from_int(101),
        Side::Buy,
        TradeType::Limit,
    );
    let f = TradeFilter::new();
    assert!(t.matches_filter(&f));
    let f = TradeFilter::new().instrument("AAPL".to_string()).side(Side::Buy);
    assert!(t.matches_filter(&f));
    let f = TradeFilter::new().instrument("MSFT".to_string());
    assert!(!t.matches_filter(&f));
    let f = TradeFilter::new().side(Side::Sell);
    assert!(!t.matches_filter(&f));
    let f = TradeFilter::new().trade_type(TradeType::Limit).status(TradeStatus::Active);
    assert!(t.matches_filter(&f));
    let f = TradeFilter::new().trade_type(TradeType::Stop);
    assert!(!t.matches_filter(&f));
    let f = TradeFilter::new().date_range(10, 10).quantity_range(100, 200);
    assert!(t.matches_filter(&f));
    let f = TradeFilter::new().date_range(11, 20);
    assert!(!t.matches_filter(&f));
    let f = TradeFilter::new().quantity_range(1, 119);
    assert!(!t.matches_filter(&f));
    // price bounds are inclusive
    let f = TradeFilter::new().price_range(Money::from_int(101), Money::from_int(101));
    assert!(t.matches_filter(&f));
    let f = TradeFilter::new()
        .price_range(Money::new(203, 2).unwrap(), Money::from_int(102));
    assert!(!t.matches_filter(&f));
}

#[test]
fn filter_trades_on_the_ledger() {
    let repo = sample_repo();
    let f = TradeFilter::new().instrument("AAPL".to_string()).side(Side::Buy);
    let ts = repo.filter_trades(&f);
    let ids: Vec<i64> = ts.iter().map(|t| t.trade_id).collect();
    assert_eq!(ids, vec![1, 2]);
    let f = TradeFilter::new().date_range(2, 4).quantity_range(50, 200);
    let ts = repo.filter_trades(&f);
    let ids: Vec<i64> = ts.iter().map(|t| t.trade_id).collect();
    assert_eq!(ids, vec![2, 3]);
}

#[test]
fn trades_by_criteria() {
    let repo = sample_repo();
    let both = vec!["AAPL".to_string(), "MSFT".to_string()];
    let ts = repo.get_trades_by_criteria(&both, Some(Side::Buy), Some((1, 5)));
    let ids: Vec<i64> = ts.iter().map(|t| t.trade_id).collect();
    assert_eq!(ids, vec![1, 2, 3, 5]);
    // an empty instrument list restricts nothing
    let ts = repo.get_trades_by_criteria(&Vec::new(), None, Some((4, 5)));
    let ids: Vec<i64> = ts.iter().map(|t| t.trade_id).collect();
    assert_eq!(ids, vec![4, 5]);
    let only_aapl = vec!["AAPL".to_string()];
    let ts = repo.get_trades_by_criteria(&only_aapl, None, None);
    let ids: Vec<i64> = ts.iter().map(|t| t.trade_id).collect();
    assert_eq!(ids, vec![1, 2, 4]);
}

#[test]
fn calendar_dates_convert_to_day_numbers() {
    let t = Trade::new_on_ymd(
        1,
        2022,
        1,
        1,
        "AAPL".to_string(),
        100,
        Money::from_int(100),
        Side::Buy,
    )
    .unwrap();
    let expected =
        chrono::NaiveDate::from_ymd_opt(2022, 1, 1).unwrap().num_days_from_ce() as i64;
    assert_eq!(t.trade_date, expected);
    let next = Trade::new_on_ymd(
        2,
        2022,
        1,
        2,
        "AAPL".to_string(),
        100,
        Money::from_int(100),
        Side::Buy,
    )
    .unwrap();
    assert_eq!(next.trade_date, t.trade_date + 1);
}

#[test]
fn invalid_calendar_dates_are_rejected() {
    let bad = |y: i32, m: u32, d: u32| {
        Trade::new_on_ymd(1, y, m, d, "A".to_string(), 1, Money::from_int(1), Side::Buy)
    };
    assert!(bad(2023, 4, 31).is_none());
    assert!(bad(2023, 2, 29).is_none());
    assert!(bad(2024, 2, 29).is_some()); // leap year
    assert!(bad(2023, 13, 1).is_none());
    assert!(bad(2023, 0, 1).is_none());
    assert!(bad(2023, 1, 0).is_none());
}
