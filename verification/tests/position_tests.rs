use position_ledger::money::Money;
use position_ledger::position::TradePosition;
use position_ledger::trade::{Side, Trade, TradeError};

fn money(num: i64, den: i64) -> Money {
    Money::new(num, den).unwrap()
}

fn assert_rat_eq(m: &Money, num: i128, den: i128) {
    assert!(m.den > 0, "denominator must be positive");
    assert_eq!(m.num as i128 * den, num * m.den as i128, "expected {}/{}, got {}/{}", num, den, m.num, m.den);
}

fn buy(id: i64, day: i64, qty: i64, price: Money) -> Trade {
    Trade::new(id, day, "AAPL".to_string(), qty, price, Side::Buy)
}

fn sell(id: i64, day: i64, qty: i64, price: Money) -> Trade {
    Trade::new(id, day, "AAPL".to_string(), qty, price, Side::Sell)
}

#[test]
fn money_new_rejects_nonpositive_denominator() {
    assert!(Money::new(1, 0).is_none());
    assert!(Money::new(1, -2).is_none());
    assert!(Money::new(-7, 3).is_some());
}

#[test]
fn money_arithmetic_is_exact() {
    let a = money(1, 3);
    let b = money(1, 6);
    let sum = a.add_rat(&b).unwrap();
    assert_rat_eq(&sum, 1, 2);
    let diff = a.sub_rat(&b).unwrap();
    assert_rat_eq(&diff, 1, 6);
    let prod = a.mul_int(9).unwrap();
    assert_rat_eq(&prod, 3, 1);
    let quot = prod.div_int(2).unwrap();
    assert_rat_eq(&quot, 3, 2);
    assert!(quot.div_int(0).is_none());
    assert!(quot.div_int(-1).is_none());
}

#[test]
fn money_comparisons_are_exact() {
    let a = money(1, 3);
    let b = money(2, 6);
    let c = money(1, 2);
    assert!(a.eq_rat(&b));
    assert!(!a.eq_rat(&c));
    assert!(a.le(&c));
    assert!(!c.le(&a));
    assert!(a.le(&b));
}

#[test]
fn money_overflow_is_reported() {
    let big = Money::from_int(i64::MAX);
    assert!(big.add_rat(&Money::from_int(1)).is_none());
    assert!(big.mul_int(2).is_none());
    assert!(big.sub_rat(&Money::from_int(-1)).is_none());
}

#[test]
fn average_cost_of_two_buys() {
    // buying 100 @ 100 then 50 @ 110 yields quantity 150,
    // average price (100*100 + 50*110) / 150 = 103.33...
    let mut p = TradePosition::new("AAPL".to_string());
    p.update_position(&buy(1, 1, 100, Money::from_int(100))).unwrap();
    p.update_position(&buy(2, 2, 50, Money::from_int(110))).unwrap();
    assert_eq!(p.quantity, 150);
    assert_rat_eq(&p.average_price, 310, 3);
    assert_rat_eq(&p.total_cost, 15500, 1);
    assert_rat_eq(&p.realized_pnl, 0, 1);
}

#[test]
fn sell_preserves_average() {
    // from quantity 150 @ avg 103.33..., selling 20 @ 120 leaves the
    // average unchanged and realizes (120 - 310/3) * 20 = 1000/3.
    let mut p = TradePosition::new("AAPL".to_string());
    p.update_position(&buy(1, 1, 100, Money::from_int(100))).unwrap();
    p.update_position(&buy(2, 2, 50, Money::from_int(110))).unwrap();
    p.update_position(&sell(3, 3, 20, Money::from_int(120))).unwrap();
    assert_eq!(p.quantity, 130);
    assert_rat_eq(&p.average_price, 310, 3);
    assert_rat_eq(&p.realized_pnl, 1000, 3);
}

#[test]
fn flattening_resets_cost_basis() {
    let mut p = TradePosition::new("AAPL".to_string());
    p.update_position(&buy(1, 1, 100, Money::from_int(100))).unwrap();
    p.update_position(&sell(2, 2, 100, Money::from_int(105))).unwrap();
    assert_eq!(p.quantity, 0);
    assert_rat_eq(&p.average_price, 0, 1);
    assert_rat_eq(&p.total_cost, 0, 1);
    assert_rat_eq(&p.realized_pnl, 500, 1);
}

#[test]
fn short_transition() {
    // from flat, selling 50 @ 100 opens a short of 50 @ 100; buying
    // 80 @ 90 covers it (realizing (100-90)*50 = 500) and opens a long
    // of 30 @ 90.
    let mut p = TradePosition::new("AAPL".to_string());
    p.update_position(&sell(1, 1, 50, Money::from_int(100))).unwrap();
    assert_eq!(p.quantity, -50);
    assert_rat_eq(&p.average_price, 100, 1);
    p.update_position(&buy(2, 2, 80, Money::from_int(90))).unwrap();
    assert_eq!(p.quantity, 30);
    assert_rat_eq(&p.average_price, 90, 1);
    assert_rat_eq(&p.realized_pnl, 500, 1);
    assert_rat_eq(&p.total_cost, 2700, 1);
}

#[test]
fn short_blend_averages_like_long() {
    let mut p = TradePosition::new("AAPL".to_string());
    p.update_position(&sell(1, 1, 50, Money::from_int(100))).unwrap();
    p.update_position(&sell(2, 2, 50, Money::from_int(110))).unwrap();
    assert_eq!(p.quantity, -100);
    assert_rat_eq(&p.average_price, 105, 1);
    assert_rat_eq(&p.realized_pnl, 0, 1);
}

#[test]
fn partial_short_cover_keeps_average() {
    let mut p = TradePosition::new("AAPL".to_string());
    p.update_position(&sell(1, 1, 100, Money::from_int(100))).unwrap();
    p.update_position(&buy(2, 2, 40, Money::from_int(95))).unwrap();
    assert_eq!(p.quantity, -60);
    assert_rat_eq(&p.average_price, 100, 1);
    assert_rat_eq(&p.realized_pnl, 200, 1);
    assert_rat_eq(&p.total_cost, 6000, 1);
}

#[test]
fn exact_short_cover_flattens() {
    let mut p = TradePosition::new("AAPL".to_string());
    p.update_position(&sell(1, 1, 50, Money::from_int(100))).unwrap();
    p.update_position(&buy(2, 2, 50, Money::from_int(90))).unwrap();
    assert_eq!(p.quantity, 0);
    assert_rat_eq(&p.average_price, 0, 1);
    assert_rat_eq(&p.total_cost, 0, 1);
    assert_rat_eq(&p.realized_pnl, 500, 1);
}

#[test]
fn long_flip_to_short() {
    let mut p = TradePosition::new("AAPL".to_string());
    p.update_position(&buy(1, 1, 50, Money::from_int(100))).unwrap();
    p.update_position(&sell(2, 2, 80, Money::from_int(110))).unwrap();
    assert_eq!(p.quantity, -30);
    assert_rat_eq(&p.average_price, 110, 1);
    assert_rat_eq(&p.realized_pnl, 500, 1);
    assert_rat_eq(&p.total_cost, 3300, 1);
}

#[test]
fn update_position_rejects_invalid_trades() {
    let mut p = TradePosition::new("AAPL".to_string());
    let r = p.update_position(&buy(1, 1, 0, Money::from_int(100)));
    assert_eq!(r, Err(TradeError::InvalidTrade));
    let r = p.update_position(&buy(2, 1, 10, Money::from_int(-5)));
    assert_eq!(r, Err(TradeError::InvalidTrade));
    let bad_price = Money { num: 5, den: 0 };
    let r = p.update_position(&buy(3, 1, 10, bad_price));
    assert_eq!(r, Err(TradeError::InvalidTrade));
    assert_eq!(p.quantity, 0);
}

#[test]
fn update_position_reports_overflow_and_keeps_state() {
    let mut p = TradePosition::new("AAPL".to_string());
    p.update_position(&buy(1, 1, 10, Money::from_int(100))).unwrap();
    let r = p.update_position(&buy(2, 2, i64::MAX, Money::from_int(i64::MAX)));
    assert_eq!(r, Err(TradeError::Overflow));
    assert_eq!(p.quantity, 10);
    assert_rat_eq(&p.average_price, 100, 1);
}

#[test]
fn unrealized_total_and_market_value() {
    let mut p = TradePosition::new("AAPL".to_string());
    p.update_position(&buy(1, 1, 100, Money::from_int(100))).unwrap();
    p.update_position(&buy(2, 2, 50, Money::from_int(110))).unwrap();
    p.update_position(&sell(3, 3, 20, Money::from_int(120))).unwrap();
    // 130 shares at avg 310/3 against market 135:
    // unrealized = (135 - 310/3) * 130 = (95/3) * 130 = 12350/3
    let market = Money::from_int(135);
    let u = p.unrealized_pnl(&market).unwrap();
    assert_rat_eq(&u, 12350, 3);
    // total = realized + unrealized = 1000/3 + 12350/3 = 13350/3 = 4450
    let t = p.total_pnl(&market).unwrap();
    assert_rat_eq(&t, 4450, 1);
    let mv = p.market_value(&market).unwrap();
    assert_rat_eq(&mv, 130 * 135, 1);
}

#[test]
fn unrealized_pnl_is_zero_when_flat() {
    let p = TradePosition::new("AAPL".to_string());
    let u = p.unrealized_pnl(&Money::from_int(42)).unwrap();
    assert_rat_eq(&u, 0, 1);
    let mv = p.market_value(&Money::from_int(42)).unwrap();
    assert_rat_eq(&mv, 0, 1);
}

#[test]
fn unrealized_pnl_sign_for_short() {
    let mut p = TradePosition::new("AAPL".to_string());
    p.update_position(&sell(1, 1, 50, Money::from_int(100))).unwrap();
    // short 50 @ 100 against market 90: profit (90-100)*(-50) = 500
    let u = p.unrealized_pnl(&Money::from_int(90)).unwrap();
    assert_rat_eq(&u, 500, 1);
    // against market 110: loss -500
    let u = p.unrealized_pnl(&Money::from_int(110)).unwrap();
    assert_rat_eq(&u, -500, 1);
}
