use hft_engine::domain::{AccountId, CustomEvent, Exchange, Fill, FillReason, OutcomeEvent, Side};
use hft_engine::event::{AccountData, AccountEvent, Delivery, IncomeEvent, MarketData, MarketEvent};
use hft_engine::event::{MarketStatus, MarketTrade, BBO};
use hft_engine::live::income_processor::{IncomeProcessorActor, RegisterExecutor, UnregisterExecutor};
use hft_engine::live::{outlet_for, to_live_outlet, to_paper_outlet, AccountOutcome, Outlet};
use hft_engine::scope::SubscriptionScope;
use hft_engine::subscription::SubscriptionKind;

/// The decimal as a whole number of units of 10^-places.
fn fixed(x: f64, places: usize) -> i128 {
    let text = format!("{}", x);
    let (negative, digits) = match text.strip_prefix('-') {
        Some(rest) => (true, rest.to_string()),
        None => (false, text),
    };
    let (whole, part) = match digits.split_once('.') {
        Some((a, b)) => (a.to_string(), b.to_string()),
        None => (digits, String::new()),
    };
    let mut padded = part;
    while padded.len() < places {
        padded.push('0');
    }
    let n: i128 = format!("{}{}", whole, padded).parse().unwrap();
    if negative {
        -n
    } else {
        n
    }
}

fn coins(x: f64) -> i128 {
    fixed(x, 16)
}

fn price(x: f64) -> i128 {
    fixed(x, 8)
}

fn usd(x: f64) -> i128 {
    fixed(x, 24)
}

fn fill_event(account: AccountId) -> AccountEvent {
    AccountEvent {
        account,
        exchange_ts: 1,
        local_ts: 1,
        data: AccountData::Fill(Fill {
            exchange: Exchange::Binance,
            symbol: "BTC".to_string(),
            side: Side::Long,
            price: price(100.0),
            size: coins(1.0),
            client_order_id: None,
            order_id: "1".to_string(),
            timestamp: 1,
            fee: 0,
            reason: FillReason::Normal,
        }),
    }
}

fn trade_event() -> MarketEvent {
    MarketEvent {
        exchange_ts: 1,
        local_ts: 1,
        data: MarketData::MarketTrade(MarketTrade {
            exchange: Exchange::Binance,
            symbol: "BTC".to_string(),
            price: price(100.0),
            qty: coins(1.0),
            is_buyer_maker: false,
            timestamp: 1,
        }),
    }
}

fn account_info(account: AccountId, exchange: Exchange) -> AccountEvent {
    AccountEvent {
        account,
        exchange_ts: 0,
        local_ts: 0,
        data: AccountData::AccountInfo { exchange, equity: usd(1.0), notional: 0 },
    }
}

#[test]
fn account_event_carries_its_owner_and_routes_by_symbol() {
    let live = fill_event(AccountId::Live);
    assert_eq!(live.account, AccountId::Live);
    let ev = IncomeEvent::Account(live);
    assert_eq!(
        ev.delivery(),
        Delivery::Symbol(Exchange::Binance, "BTC".to_string()),
        "Fill 有 symbol，应定向路由"
    );
}

#[test]
fn delivery_scope_matches_the_events_locating_precision() {
    let ev = IncomeEvent::Market(trade_event());
    assert_eq!(
        ev.delivery(),
        Delivery::Symbol(Exchange::Binance, "BTC".to_string()),
        "有 symbol 的行情按 (所, symbol) 定向"
    );
    let info = IncomeEvent::account(
        AccountId::Live,
        0,
        0,
        AccountData::AccountInfo { exchange: Exchange::Binance, equity: usd(1.0), notional: usd(0.0) },
    );
    assert_eq!(
        info.delivery(),
        Delivery::Exchange(Exchange::Binance),
        "所级账户读数按所定向 —— 广播会把净值泄漏给没订这个所的策略"
    );
    let clock = IncomeEvent::market(0, 0, MarketData::Clock);
    assert_eq!(clock.delivery(), Delivery::Broadcast, "Clock 与交易所无关，广播");
}

#[test]
fn every_kind_of_market_data_says_where_it_belongs() {
    let status = MarketData::ExchangeStatus { exchange: Exchange::OKX, status: MarketStatus::Liquid };
    assert_eq!(status.delivery(), Delivery::Exchange(Exchange::OKX));
    let rate = MarketData::ExchangeRate { exchange: Exchange::IBKR, rate: 1 };
    assert_eq!(rate.delivery(), Delivery::Exchange(Exchange::IBKR));
    let fee = MarketData::BorrowFee { exchange: Exchange::IBKR, symbol: "AAPL".to_string(), rate: 1 };
    assert_eq!(fee.delivery(), Delivery::Symbol(Exchange::IBKR, "AAPL".to_string()));
    let scoped = CustomEvent { scope: Some((Exchange::OKX, "BTC".to_string())), name: "n".to_string() };
    assert_eq!(
        MarketData::Custom(scoped).delivery(),
        Delivery::Symbol(Exchange::OKX, "BTC".to_string())
    );
    let open = CustomEvent { scope: None, name: "n".to_string() };
    assert_eq!(MarketData::Custom(open).delivery(), Delivery::Broadcast);
}

fn samples() -> Vec<AccountId> {
    vec![
        AccountId::Live,
        AccountId::Paper("BTC".to_string()),
        AccountId::Paper(String::new()),
        AccountId::Paper("Live".to_string()),
    ]
}

fn signal(account: AccountId) -> AccountOutcome {
    AccountOutcome {
        account,
        event: OutcomeEvent::PlaceOrders { orders: Vec::new(), comment: String::new() },
    }
}

#[test]
fn every_signal_is_claimed_by_exactly_one_outlet() {
    for account in samples() {
        let s = signal(account.clone());
        let claimed = [to_live_outlet(&s), to_paper_outlet(&s)].iter().filter(|x| **x).count();
        assert_eq!(
            claimed,
            1,
            "{} 被 {claimed} 个出口接受，应恰为 1（0 = 信号丢失，2 = 双执行）",
            account.name()
        );
    }
}

#[test]
fn routing_follows_the_variant_not_the_label() {
    assert_eq!(outlet_for(&AccountId::Live), Outlet::Live);
    for account in samples().into_iter().filter(|a| a.is_paper()) {
        assert_eq!(outlet_for(&account), Outlet::Paper, "{} 应落柜台", account.name());
    }
}

fn bbo_stream(exchange: Exchange, symbol: &str) -> (Exchange, SubscriptionKind) {
    (exchange, SubscriptionKind::BBO { symbol: symbol.to_string() })
}

fn registered() -> IncomeProcessorActor {
    let mut p = IncomeProcessorActor::default();
    p.register(RegisterExecutor {
        executor: 1,
        subscriptions: vec![bbo_stream(Exchange::Binance, "BTC")],
        account: AccountId::Live,
    });
    p.register(RegisterExecutor {
        executor: 2,
        subscriptions: vec![bbo_stream(Exchange::Binance, "BTC"), bbo_stream(Exchange::OKX, "BTC")],
        account: AccountId::Paper("BTC".to_string()),
    });
    p
}

#[test]
fn market_data_serves_every_account() {
    let p = registered();
    assert_eq!(p.route_market(&trade_event()), vec![1, 2]);
    let mut okx = trade_event();
    if let MarketData::MarketTrade(t) = &mut okx.data {
        t.exchange = Exchange::OKX;
    }
    assert_eq!(p.route_market(&okx), vec![2]);
    let clock = MarketEvent { exchange_ts: 0, local_ts: 0, data: MarketData::Clock };
    assert_eq!(p.route_market(&clock), vec![1, 2]);
    let status = MarketEvent {
        exchange_ts: 0,
        local_ts: 0,
        data: MarketData::ExchangeStatus { exchange: Exchange::OKX, status: MarketStatus::Closed },
    };
    assert_eq!(p.route_market(&status), vec![2]);
}

#[test]
fn account_events_stay_with_their_account() {
    let p = registered();
    assert_eq!(p.route_account(&fill_event(AccountId::Live)), vec![1]);
    assert_eq!(p.route_account(&fill_event(AccountId::Paper("BTC".to_string()))), vec![2]);
    assert!(p.route_account(&fill_event(AccountId::Paper("ETH".to_string()))).is_empty());
    assert!(p.route_account(&account_info(AccountId::Live, Exchange::OKX)).is_empty());
    assert_eq!(p.route_account(&account_info(AccountId::Paper("BTC".to_string()), Exchange::OKX)), vec![2]);
}

#[test]
fn leaving_the_register_undoes_joining_it() {
    let mut p = registered();
    assert!(p.unregister(UnregisterExecutor { executor: 1 }));
    assert!(!p.unregister(UnregisterExecutor { executor: 1 }));
    assert_eq!(p.route_market(&trade_event()), vec![2]);
    assert!(p.route_account(&fill_event(AccountId::Live)).is_empty());
}

#[test]
fn registering_again_replaces_what_was_registered() {
    let mut p = registered();
    p.register(RegisterExecutor {
        executor: 1,
        subscriptions: vec![bbo_stream(Exchange::OKX, "ETH")],
        account: AccountId::Paper("x".to_string()),
    });
    assert_eq!(p.route_market(&trade_event()), vec![2]);
    assert!(p.route_account(&fill_event(AccountId::Live)).is_empty());
}

#[test]
fn a_scope_holds_each_leg_once() {
    let pairs = vec![
        (Exchange::Binance, "BTC".to_string()),
        (Exchange::OKX, "BTC".to_string()),
        (Exchange::Binance, "BTC".to_string()),
    ];
    let scope = SubscriptionScope::from_pairs(&pairs);
    assert_eq!(scope.pairs().len(), 2);
    assert_eq!(scope.symbols(), vec!["BTC".to_string()]);
    assert!(scope.follows(&(Exchange::OKX, "BTC".to_string())));
    assert!(!scope.follows(&(Exchange::OKX, "ETH".to_string())));
    assert!(scope.accepts_delivery(&Delivery::Exchange(Exchange::OKX)));
    assert!(!scope.accepts_delivery(&Delivery::Exchange(Exchange::IBKR)));
    assert!(scope.accepts_delivery(&Delivery::Broadcast));
}

#[test]
fn the_middle_of_a_quote() {
    let bbo = BBO {
        exchange: Exchange::Binance,
        symbol: "BTC".to_string(),
        bid_price: price(100.0),
        bid_qty: coins(1.0),
        ask_price: price(100.5),
        ask_qty: coins(1.0),
        timestamp: 0,
    };
    assert_eq!(bbo.worth_at_mid(coins(1.0)), usd(100.25));
    let odd = BBO { bid_price: 3, ask_price: 4, ..bbo };
    assert_eq!(odd.worth_at_mid(10), 35, "half a unit is not lost");
    assert_eq!(odd.worth_at_mid(-10), -35);
    assert_eq!(odd.worth_at_mid(-1), -3);
    assert_eq!(odd.worth_at_mid(i128::MAX), i128::MAX);
}

#[test]
fn a_report_that_misses_its_strategy_is_told() {
    let p = registered();
    let on = |account: AccountId, symbol: &str| {
        let mut event = fill_event(account);
        if let AccountData::Fill(f) = &mut event.data {
            f.symbol = symbol.to_string();
        }
        event
    };
    let paper = || AccountId::Paper("BTC".to_string());
    assert!(p.missed_by(&on(paper(), "BTC")).is_empty());
    assert!(p.route_account(&on(paper(), "DOGE")).is_empty());
    assert_eq!(p.missed_by(&on(paper(), "DOGE")), vec![2]);
    assert!(p.missed_by(&on(AccountId::Live, "DOGE")).is_empty(), "on the real account that is nothing unusual");
    assert!(p.missed_by(&account_info(paper(), Exchange::IBKR)).is_empty(), "of whole venues nothing is told");
}
