use hft_engine::amount::{divide_down, exceeds, halve, larger, minus, plus, round, round_down, size_of, times};
use hft_engine::domain::{AccountId, Exchange, Fill, FillReason, OrderStatus, OrderUpdate, Position, PositionBaseline};
use hft_engine::domain::{signed, Side, StepFormatter, SymbolMeta};
use hft_engine::event::{AccountData, IncomeEvent, MarketData, MarketStatus};
use hft_engine::state::StateManager;
use hft_engine::stats::{cash_flow_of, worth_of, TradingStats, DEFAULT_RECENT_FILLS};
use hft_engine::table::Table;
use hft_engine::text::{comes_before, decimal_text, hex_text, join_text, natural, sort, starts_with};

/// The decimal as a whole number of units of 10^-places.
fn fixed(x: f64, places: usize) -> i128 {
    let text = format!("{}", x);
    let (negative, digits) = match text.strip_prefix('-') {
        Some(rest) => (true, rest.to_string()),
        None => (false, text),
    };
    let (whole, part) = match digits.split_once('.') {
        Some((a, b)) => (a.to_string(), b.to_string()),
        None => (digits, String::new()),
    };
    let mut padded = part;
    while padded.len() < places {
        padded.push('0');
    }
    let n: i128 = format!("{}{}", whole, padded).parse().unwrap();
    if negative {
        -n
    } else {
        n
    }
}

fn coins(x: f64) -> i128 {
    fixed(x, 16)
}

fn price(x: f64) -> i128 {
    fixed(x, 8)
}

fn usd(x: f64) -> i128 {
    fixed(x, 24)
}

#[test]
fn sums_stop_at_the_ends() {
    assert_eq!(plus(i128::MAX, 1), i128::MAX);
    assert_eq!(minus(i128::MIN, 1), i128::MIN);
    assert_eq!(times(i128::MAX, -2), i128::MIN);
    assert_eq!(size_of(-3), 3);
    assert_eq!(size_of(i128::MIN), i128::MAX);
    assert!(exceeds(-11, 10) && !exceeds(-10, 10));
    assert_eq!(larger(2, -3), 2);
}

#[test]
fn rounding() {
    assert_eq!(round_down(125, 10), 120);
    assert_eq!(round(125, 10), 130);
    assert_eq!(round(124, 10), 120);
    assert_eq!(halve(7), 3);
    assert_eq!(divide_down(7, 2), 3);
}

#[test]
fn numbers_as_text() {
    assert_eq!(natural(0), "0");
    assert_eq!(natural(1_203), "1203");
    assert_eq!(decimal_text(coins(2.5), 16), "2.5");
    assert_eq!(decimal_text(coins(-0.001), 16), "-0.001");
    assert_eq!(decimal_text(coins(14.0), 16), "14");
    assert_eq!(hex_text(255, 4), "00ff");
    assert_eq!(join_text(&vec!["a".to_string(), "b".to_string()], "; "), "a; b");
    assert!(starts_with("abc", "ab") && !starts_with("a", "ab"));
    assert!(comes_before("ab", "b") && comes_before("a", "ab") && !comes_before("b", "ab"));
    let sorted = sort(vec!["b".to_string(), "a".to_string(), "ab".to_string()]);
    assert_eq!(sorted, vec!["a".to_string(), "ab".to_string(), "b".to_string()]);
}

#[test]
fn a_table_holds_one_value_for_each_key() {
    let mut t: Table<String, u32> = Table::new();
    assert_eq!(t.insert("a".to_string(), 1), None);
    assert_eq!(t.insert("b".to_string(), 2), None);
    assert_eq!(t.insert("a".to_string(), 3), Some(1));
    assert_eq!(t.len(), 2);
    assert_eq!((t.key_at(0).as_str(), *t.value_at(0)), ("a", 3));
    assert_eq!(t.remove(&"a".to_string()), Some(3));
    assert_eq!(t.get(&"a".to_string()), None);
    assert_eq!(t.position(&"b".to_string()), Some(0));
    assert!(t.contains_key(&"b".to_string()));
}

#[test]
fn ids_of_this_engine_are_told_from_others() {
    let id = Exchange::OKX.cli_order_id(1, 2);
    assert!(Exchange::OKX.owns_cli_order_id(&id), "{id}");
    assert_ne!(id, Exchange::OKX.cli_order_id(1, 3));
    assert!(!Exchange::Binance.owns_cli_order_id("web_1a2b"));
}

#[test]
fn an_instrument_has_its_own_precision() {
    let m = SymbolMeta {
        exchange: Exchange::OKX,
        symbol: "BTC".to_string(),
        price_formatter: StepFormatter::new(price(0.1)),
        size_step: fixed(1.0, 8),
        min_order_size: fixed(1.0, 8),
        contract_size: fixed(0.01, 8),
    };
    assert_eq!(m.coin_size_step(), coins(0.01));
    assert_eq!(m.round_coin_size_down(coins(0.125)), coins(0.12));
    assert_eq!(m.round_price(price(62_500.17)), price(62_500.2));
    assert_eq!(signed(Side::Short, coins(1.0)), coins(-1.0));
}

fn fill(side: Side, at: f64, size: f64, fee: f64, reason: FillReason) -> Fill {
    Fill {
        exchange: Exchange::Binance,
        symbol: "BTC".to_string(),
        side,
        price: price(at),
        size: coins(size),
        client_order_id: None,
        order_id: "1".to_string(),
        timestamp: 1,
        fee: usd(fee),
        reason,
    }
}

#[test]
fn fills_add_up() {
    let mut s = TradingStats::default();
    assert_eq!(s.recent_capacity, DEFAULT_RECENT_FILLS);
    s.apply_fill(&fill(Side::Long, 100.0, 2.0, 0.5, FillReason::Normal));
    s.apply_fill(&fill(Side::Short, 110.0, 1.0, 0.25, FillReason::Liquidation));
    assert_eq!((s.fills, s.forced_fills), (2, 1));
    assert_eq!(s.volume, usd(310.0));
    assert_eq!(s.fee, usd(0.75));
    assert_eq!(s.cash, usd(-90.75));
    assert_eq!(s.total_pnl(usd(110.0)), usd(19.25));
    assert_eq!(s.recent_fills.len(), 2);
    assert_eq!(worth_of(coins(2.0), price(1.5)), usd(3.0));
    assert_eq!(cash_flow_of(&fill(Side::Short, 10.0, 1.0, 1.0, FillReason::Normal)), usd(9.0));
}

#[test]
fn only_the_latest_fills_are_kept() {
    let mut s = TradingStats::with_recent_capacity(1);
    s.apply_fill(&fill(Side::Long, 1.0, 1.0, 0.0, FillReason::Normal));
    s.apply_fill(&fill(Side::Long, 2.0, 1.0, 0.0, FillReason::Normal));
    assert_eq!(s.recent_fills.len(), 1);
    assert_eq!(s.recent_fills[0].price, price(2.0));
    let mut none = TradingStats::with_recent_capacity(0);
    none.apply_fill(&fill(Side::Long, 1.0, 1.0, 0.0, FillReason::Normal));
    assert!(none.recent_fills.is_empty());
}

#[test]
fn refusals_are_counted() {
    let mut s = TradingStats::default();
    let update = |status| OrderUpdate {
        order_id: "1".to_string(),
        client_order_id: None,
        exchange: Exchange::Binance,
        symbol: "BTC".to_string(),
        side: Side::Long,
        status,
        quantity: 0,
    };
    s.apply_order_update(&update(OrderStatus::Rejected { reason: "x".to_string() }));
    s.apply_order_update(&update(OrderStatus::Filled));
    assert_eq!(s.rejected_orders, 1);
}

#[test]
fn what_is_known_of_the_market() {
    let btc = "BTC".to_string();
    let mut s = StateManager::new(&vec![btc.clone()], 0);
    assert_eq!(s.market_status(Exchange::OKX), MarketStatus::Closed);
    s.apply(&IncomeEvent::market(
        1,
        1,
        MarketData::ExchangeStatus { exchange: Exchange::OKX, status: MarketStatus::Liquid },
    ));
    assert_eq!(s.market_status(Exchange::OKX), MarketStatus::Liquid);
    s.register_symbols(&vec!["ETH".to_string(), btc.clone()]);
    assert_eq!(s.symbol_count(), 2);
    let baseline = |size: f64| PositionBaseline {
        position: Position { exchange: Exchange::Binance, symbol: "BTC".to_string(), size: coins(size) },
        snapshot_req_ts: 5,
    };
    s.seed_positions(&vec![baseline(2.0), baseline(9.0)]);
    assert_eq!(s.symbol_state(&btc).unwrap().position_size(Exchange::Binance), coins(2.0), "the first one counts");
    s.apply(&IncomeEvent::account(
        AccountId::Live,
        6,
        6,
        AccountData::Fill(fill(Side::Short, 1.0, 0.5, 0.0, FillReason::Normal)),
    ));
    assert_eq!(s.symbol_state(&btc).unwrap().position_size(Exchange::Binance), coins(1.5));
    assert!(s.symbol_state(&btc).unwrap().is_position_seeded(Exchange::Binance));
    assert!(!s.symbol_state(&btc).unwrap().is_position_seeded(Exchange::OKX));
}
