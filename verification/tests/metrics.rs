use hft_engine::domain::{AccountId, Exchange, Fill, FillReason, Order, OrderStatus, OrderType, OrderUpdate};
use hft_engine::domain::{Position, PositionBaseline, Side};
use hft_engine::event::{AccountData, AccountEvent, BBO, IncomeEvent, MarketData, MarketEvent};
use hft_engine::live::metrics::{exposure_of, Gauge, GaugeValue, MetricsActor, RegisterSymbols, SymbolExposure};
use hft_engine::live::metrics::MetricsActorArgs;
use hft_engine::state::SymbolState;
use hft_engine::table::Table;

/// The decimal as a whole number of units of 10^-places.
fn fixed(x: f64, places: usize) -> i128 {
    let text = format!("{}", x);
    let (negative, digits) = match text.strip_prefix('-') {
        Some(rest) => (true, rest.to_string()),
        None => (false, text),
    };
    let (whole, part) = match digits.split_once('.') {
        Some((a, b)) => (a.to_string(), b.to_string()),
        None => (digits, String::new()),
    };
    let mut padded = part;
    while padded.len() < places {
        padded.push('0');
    }
    let n: i128 = format!("{}{}", whole, padded).parse().unwrap();
    if negative {
        -n
    } else {
        n
    }
}

fn coins(x: f64) -> i128 {
    fixed(x, 16)
}

fn price(x: f64) -> i128 {
    fixed(x, 8)
}

fn usd(x: f64) -> i128 {
    fixed(x, 24)
}

const BINANCE: Exchange = Exchange::Binance;
const SYMBOL: &str = "BTC";

fn baseline_of(symbol: &str, size: f64) -> PositionBaseline {
    PositionBaseline {
        position: Position { exchange: BINANCE, symbol: symbol.to_string(), size: coins(size) },
        snapshot_req_ts: 0,
    }
}

fn fill_data(exchange: Exchange, symbol: &str, side: Side, size: f64) -> AccountData {
    AccountData::Fill(Fill {
        exchange,
        symbol: symbol.to_string(),
        side,
        price: price(100.0),
        size: coins(size),
        client_order_id: None,
        order_id: "1".to_string(),
        timestamp: 0,
        fee: 0,
        reason: FillReason::Normal,
    })
}

fn live(at: u64, data: AccountData) -> AccountEvent {
    AccountEvent { account: AccountId::Live, exchange_ts: at, local_ts: at, data }
}

fn quote(exchange: Exchange, mid: f64) -> MarketData {
    MarketData::BBO(BBO {
        exchange,
        symbol: SYMBOL.to_string(),
        bid_price: price(mid),
        bid_qty: coins(1.0),
        ask_price: price(mid),
        ask_qty: coins(1.0),
        timestamp: 0,
    })
}

/// What is reported under a name, with these labels.
fn read(metrics: &MetricsActor, name: &str, labels: &[&str]) -> Option<i128> {
    let mut found = None;
    for Gauge { name: n, labels: l, value } in metrics.report() {
        let values: Vec<String> = l.iter().map(|p| p.1.clone()).collect();
        if n == name && values == labels {
            assert!(found.is_none(), "{name} is reported once");
            found = Some(match value {
                GaugeValue::Coins(q) => q,
                GaugeValue::Money(m) => m,
                GaugeValue::Count(c) => c as i128,
                GaugeValue::Fraction(_) => panic!("{name} is a fraction"),
            });
        }
    }
    found
}

fn following(size: Option<f64>) -> MetricsActor {
    let mut metrics = MetricsActor::new();
    let baselines = match size {
        Some(s) => vec![baseline_of(SYMBOL, s)],
        None => vec![],
    };
    metrics.register(&RegisterSymbols { symbols: vec![SYMBOL.to_string()], baselines });
    metrics
}

#[test]
fn paper_events_never_leak_into_live_view() {
    let mut metrics = following(None);
    let account = AccountId::Paper("BTC".to_string());
    let data = fill_data(BINANCE, "BTC", Side::Long, 1.0);
    metrics.apply_paper_event(&account, &data);
    assert_eq!(read(&metrics, "hft_paper_fills", &[&account.name()]), Some(1));
    assert_eq!(read(&metrics, "hft_fills_total", &[]), Some(0), "模拟成交不得计入实盘累计");
    assert_eq!(read(&metrics, "hft_symbols_with_position", &[]), Some(0), "模拟成交不得进实盘持仓镜像");
}

#[test]
fn baseline_records_only_the_first_position_snapshot() {
    let mut metrics = following(Some(2.0));
    metrics.on_market(MarketEvent { exchange_ts: 0, local_ts: 0, data: quote(BINANCE, 100.0) });
    metrics.record_baseline(&"BTC".to_string(), BINANCE, coins(9.0));
    assert_eq!(read(&metrics, "hft_session_pnl", &[]), Some(0), "基线只取第一次快照");
}

#[test]
fn untracked_symbol_events_are_counted_not_applied() {
    let mut metrics = following(None);
    metrics.on_account(live(1, fill_data(BINANCE, "ETH", Side::Long, 1.0)));
    assert_eq!(metrics.untracked_events(), 1);
    assert_eq!(metrics.total().fills, 0);
    assert_eq!(read(&metrics, "hft_symbols_with_position", &[]), Some(0));
}

#[test]
fn session_pnl_excludes_pre_existing_inventory() {
    let mut metrics = following(Some(2.0));
    metrics.on_market(MarketEvent { exchange_ts: 0, local_ts: 0, data: quote(BINANCE, 100.0) });
    assert_eq!(read(&metrics, "hft_position_net_notional", &["BTC"]), Some(usd(200.0)));
    assert_eq!(read(&metrics, "hft_session_pnl", &[]), Some(0));
    assert_eq!(read(&metrics, "hft_symbol_session_pnl", &["BTC"]), Some(0));
}

#[test]
fn session_pnl_tracks_this_session_trades() {
    let mut metrics = following(Some(2.0));
    metrics.on_account(live(1, fill_data(BINANCE, SYMBOL, Side::Long, 1.0)));
    metrics.on_market(MarketEvent { exchange_ts: 0, local_ts: 0, data: quote(BINANCE, 110.0) });
    assert_eq!(read(&metrics, "hft_position_net_notional", &["BTC"]), Some(usd(330.0)));
    assert_eq!(read(&metrics, "hft_session_pnl", &[]), Some(usd(10.0)));
    assert_eq!(read(&metrics, "hft_symbol_session_pnl", &["BTC"]), Some(usd(10.0)));
}

fn state_with(positions: &[(Exchange, f64)], priced: &[(Exchange, f64)]) -> SymbolState {
    let mut state = SymbolState::new(SYMBOL.to_string());
    for &(exchange, size) in positions {
        state.seed_position(&Position { exchange, symbol: SYMBOL.to_string(), size: coins(size) }, 0);
    }
    for &(exchange, mid) in priced {
        state.apply(&IncomeEvent::market(0, 0, quote(exchange, mid)));
    }
    state
}

#[test]
fn hedged_position_has_near_zero_net_notional() {
    let state = state_with(
        &[(Exchange::Binance, 1.0), (Exchange::OKX, -1.0)],
        &[(Exchange::Binance, 100.0), (Exchange::OKX, 100.0)],
    );
    let exposure = exposure_of(&state, None);
    assert_eq!(exposure.legs, 2);
    assert_eq!(exposure.net_notional, 0);
    assert_eq!(exposure.gross_notional, usd(200.0));
    assert_eq!(exposure.unpriced_legs, 0);
}

#[test]
fn baseline_position_is_excluded_from_session_delta() {
    let state = state_with(&[(Exchange::Binance, 3.0)], &[(Exchange::Binance, 100.0)]);
    let mut baseline = Table::new();
    baseline.insert(Exchange::Binance, coins(2.0));
    let exposure = exposure_of(&state, Some(&baseline));
    assert_eq!(exposure.net_notional, usd(300.0));
    assert_eq!(exposure.session_notional_delta, usd(100.0));
}

#[test]
fn missing_baseline_defaults_to_zero() {
    let state = state_with(&[(Exchange::Binance, 3.0)], &[(Exchange::Binance, 100.0)]);
    let exposure = exposure_of(&state, Some(&Table::new()));
    assert_eq!(exposure.session_notional_delta, usd(300.0));
}

#[test]
fn missing_bbo_is_surfaced_not_silently_valued_at_zero() {
    let state = state_with(&[(Exchange::Binance, 1.0)], &[]);
    let exposure = exposure_of(&state, None);
    assert_eq!(exposure.legs, 1);
    assert_eq!(exposure.unpriced_legs, 1);
    assert_eq!(exposure.gross_notional, 0);
}

#[test]
fn zero_positions_are_ignored() {
    let state = state_with(&[(Exchange::Binance, 0.0)], &[(Exchange::Binance, 100.0)]);
    assert_eq!(exposure_of(&state, None), SymbolExposure::default());
}

#[test]
fn the_summary_adds_up() {
    let mut metrics = following(Some(1.0));
    for (exchange, equity, notional) in [(BINANCE, 100.0, 50.0), (Exchange::OKX, 25.0, 75.0)] {
        metrics.on_account(live(
            1,
            AccountData::AccountInfo { exchange, equity: usd(equity), notional: usd(notional) },
        ));
    }
    assert_eq!(read(&metrics, "hft_total_equity", &[]), Some(usd(125.0)));
    assert_eq!(read(&metrics, "hft_total_account_notional", &[]), Some(usd(125.0)));
    assert_eq!(read(&metrics, "hft_equity", &["Binance"]), Some(usd(100.0)));
    assert_eq!(read(&metrics, "hft_account_notional", &["OKX"]), Some(usd(75.0)));
    assert_eq!(read(&metrics, "hft_unpriced_legs", &[]), Some(1));
    assert_eq!(read(&metrics, "hft_single_leg", &["BTC"]), Some(1));
    for g in metrics.report() {
        if g.name == "hft_account_leverage" && g.labels[0].1 == "OKX" {
            match g.value {
                GaugeValue::Fraction(r) => assert_eq!(r.numerator, 3 * r.denominator),
                other => panic!("{other:?}"),
            }
        }
    }
}

#[test]
fn rejected_orders_are_counted() {
    let mut metrics = following(None);
    metrics.on_account(live(
        1,
        AccountData::OrderUpdate(OrderUpdate {
            order_id: "1".to_string(),
            client_order_id: None,
            exchange: BINANCE,
            symbol: SYMBOL.to_string(),
            side: Side::Long,
            status: OrderStatus::Rejected { reason: "no".to_string() },
            quantity: coins(1.0),
        }),
    ));
    assert_eq!(read(&metrics, "hft_rejected_orders_total", &[]), Some(1));
}

#[test]
fn simulated_accounts_are_reported_by_venue() {
    let mut metrics = MetricsActor::new();
    let account = AccountId::Paper("x".to_string());
    metrics.apply_paper_event(
        &account,
        &AccountData::AccountInfo { exchange: BINANCE, equity: usd(10.0), notional: usd(2.0) },
    );
    assert_eq!(read(&metrics, "hft_paper_equity", &[&account.name(), "Binance"]), Some(usd(10.0)));
    assert_eq!(read(&metrics, "hft_paper_notional", &[&account.name(), "Binance"]), Some(usd(2.0)));
    assert_eq!(read(&metrics, "hft_total_equity", &[]), Some(0));
}

#[test]
fn orders_that_wait_are_kept_until_they_are_done() {
    let mut state = SymbolState::new(SYMBOL.to_string());
    let order = Order {
        id: String::new(),
        exchange: BINANCE,
        symbol: SYMBOL.to_string(),
        side: Side::Long,
        order_type: OrderType::Market,
        quantity: coins(1.0),
        reduce_only: false,
        client_order_id: "c".to_string(),
    };
    state.add_pending_order(order, 5);
    assert_eq!(state.pending_count(), 1);
    let told = |status: OrderStatus| {
        IncomeEvent::account(
            AccountId::Live,
            6,
            6,
            AccountData::OrderUpdate(OrderUpdate {
                order_id: "1".to_string(),
                client_order_id: Some("c".to_string()),
                exchange: BINANCE,
                symbol: SYMBOL.to_string(),
                side: Side::Long,
                status,
                quantity: coins(1.0),
            }),
        )
    };
    state.apply(&told(OrderStatus::Pending));
    assert_eq!(state.pending_count(), 1);
    assert!(state.pending_orders()[0].acknowledged);
    state.apply(&told(OrderStatus::Filled));
    assert_eq!(state.pending_count(), 0);
}

#[test]
fn reports_go_where_they_are_told_to() {
    let nowhere = MetricsActor::on_start(MetricsActorArgs { interval_ms: 1, push_url: None });
    assert!(nowhere.push().is_none());
    let url = "http://gateway".to_string();
    let mut metrics = MetricsActor::on_start(MetricsActorArgs { interval_ms: 1, push_url: Some(url.clone()) });
    metrics.on_account(live(1, AccountData::AccountInfo { exchange: BINANCE, equity: usd(4.0), notional: 0 }));
    let (to, gauges) = metrics.push().expect("a report");
    assert_eq!(to, url);
    assert_eq!(gauges.len(), metrics.report().len());
    let equity: Vec<&Gauge> = gauges.iter().filter(|g| g.name == "hft_total_equity").collect();
    assert!(matches!(equity[0].value, GaugeValue::Money(m) if m == usd(4.0)));
}

#[test]
fn an_exposure_counts_its_legs_and_nets_no_more_than_it_grosses() {
    let legs = [(Exchange::Binance, 1.0), (Exchange::OKX, -3.0), (Exchange::IBKR, 2.0), (Exchange::Hyperliquid, 0.0)];
    let state = state_with(&legs, &[(Exchange::Binance, 100.0), (Exchange::OKX, 10.0)]);
    let exposure = exposure_of(&state, None);
    assert_eq!((exposure.legs, exposure.unpriced_legs), (3, 1));
    assert_eq!(exposure.net_notional, usd(70.0));
    assert_eq!(exposure.gross_notional, usd(130.0));
    assert!(exposure.net_notional.abs() <= exposure.gross_notional);
}

#[test]
fn totals_hide_no_instrument() {
    let mut metrics = MetricsActor::new();
    let names = vec!["BTC".to_string(), "ETH".to_string()];
    let baselines = vec![baseline_of("BTC", 1.0), baseline_of("ETH", -2.0)];
    metrics.register(&RegisterSymbols { symbols: names, baselines });
    metrics.on_account(live(900, fill_data(BINANCE, "ETH", Side::Long, 1.0)));
    assert_eq!(read(&metrics, "hft_symbols_with_position", &[]), Some(2));
    assert_eq!(read(&metrics, "hft_unpriced_legs", &[]), Some(2));
    assert_eq!(read(&metrics, "hft_single_leg", &["BTC"]), Some(1));
    assert_eq!(read(&metrics, "hft_single_leg", &["ETH"]), Some(1));
}

#[test]
fn an_account_that_is_worth_nothing_has_no_leverage() {
    let mut metrics = MetricsActor::new();
    let info = |equity: f64| AccountData::AccountInfo { exchange: BINANCE, equity: usd(equity), notional: usd(1.0) };
    let leverage = |metrics: &MetricsActor| {
        let found = metrics.report().into_iter().find(|g| g.name == "hft_account_leverage");
        match found.expect("a leverage").value {
            GaugeValue::Fraction(r) => (r.numerator, r.denominator),
            other => panic!("{other:?}"),
        }
    };
    metrics.on_account(live(1, info(0.0)));
    assert_eq!(leverage(&metrics), (0, 1));
    metrics.on_account(live(2, info(2.0)));
    let (numerator, denominator) = leverage(&metrics);
    assert_eq!(2 * numerator, denominator);
}
