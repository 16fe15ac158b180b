use hft_engine::domain::{AccountId, Exchange, Order, OrderType, OutcomeEvent, Side, StepFormatter, SymbolMeta};
use hft_engine::domain::{CustomEvent, Position, PositionBaseline, SymbolMetas, TimeInForce};
use hft_engine::event::{AccountData, BBO, IncomeEvent, MarketData};
use hft_engine::state::StateManager;
use hft_engine::strategy::{PublicStreams, Strategy};
use hft_engine::strategy_runner::{ClientOrderIdGen, ExchangeUuidGen, SequentialClientOrderIdGen, StrategyRunner};
use hft_engine::subscription::SubscriptionKind;
use hft_engine::table::Table;

/// The decimal as a whole number of units of 10^-places.
fn fixed(x: f64, places: usize) -> i128 {
    let text = format!("{}", x);
    let (negative, digits) = match text.strip_prefix('-') {
        Some(rest) => (true, rest.to_string()),
        None => (false, text),
    };
    let (whole, part) = match digits.split_once('.') {
        Some((a, b)) => (a.to_string(), b.to_string()),
        None => (digits, String::new()),
    };
    let mut padded = part;
    while padded.len() < places {
        padded.push('0');
    }
    let n: i128 = format!("{}{}", whole, padded).parse().unwrap();
    if negative {
        -n
    } else {
        n
    }
}

fn coins(x: f64) -> i128 {
    fixed(x, 16)
}

fn price(x: f64) -> i128 {
    fixed(x, 8)
}

fn usd(x: f64) -> i128 {
    fixed(x, 24)
}

const EX: Exchange = Exchange::OKX;
const SYM: &str = "BTC";
const CONTRACT_SIZE: f64 = 0.01;

fn metas() -> SymbolMetas {
    let mut t = Table::new();
    t.insert(
        (EX, SYM.to_string()),
        SymbolMeta {
            exchange: EX,
            symbol: SYM.to_string(),
            price_formatter: StepFormatter::new(price(0.1)),
            size_step: fixed(1.0, 8),
            min_order_size: fixed(1.0, 8),
            contract_size: fixed(CONTRACT_SIZE, 8),
        },
    );
    t
}

/// Places one order, once.
struct OneShot {
    quantity: f64,
    price: f64,
    placed: bool,
}

fn order(quantity: f64, at: f64) -> Order {
    Order {
        id: String::new(),
        exchange: EX,
        symbol: SYM.to_string(),
        side: Side::Long,
        order_type: OrderType::Limit { price: price(at), tif: TimeInForce::PostOnly },
        quantity: coins(quantity),
        reduce_only: false,
        client_order_id: String::new(),
    }
}

impl Strategy for OneShot {
    fn public_streams(&self) -> PublicStreams {
        PublicStreams::of(vec![(EX, SubscriptionKind::BBO { symbol: SYM.to_string() })])
    }

    fn order_timeout_ms(&self) -> u64 {
        0
    }

    fn on_event(&mut self, _event: &IncomeEvent, _state: &StateManager) -> Vec<OutcomeEvent> {
        if self.placed {
            return Vec::new();
        }
        self.placed = true;
        vec![OutcomeEvent::PlaceOrders { orders: vec![order(self.quantity, self.price)], comment: "t".to_string() }]
    }
}

fn runner_with(quantity: f64, at: f64) -> StrategyRunner {
    StrategyRunner::with_id_gen(
        Box::new(OneShot { quantity, price: at, placed: false }),
        metas(),
        Box::new(SequentialClientOrderIdGen::default()),
    )
}

fn run_once(quantity: f64, at: f64) -> Order {
    let mut runner = runner_with(quantity, at);
    let ev = IncomeEvent::market(1, 1, MarketData::Clock);
    match runner.on_event(&ev).into_iter().next().expect("signal") {
        OutcomeEvent::PlaceOrders { orders, .. } => orders.into_iter().next().unwrap(),
        other => panic!("unexpected {other:?}"),
    }
}

#[test]
fn emitted_order_is_coin_denominated_and_rounded() {
    let order = run_once(0.125, 62_500.17);
    assert_eq!(
        order.quantity,
        coins(0.12),
        "应为币本位 0.12，若得到 12 说明单位折算错误地留在了 runner 里: {}",
        order.quantity
    );
    match order.order_type {
        OrderType::Limit { price: p, .. } => assert_eq!(p, price(62_500.2)),
        OrderType::Market => panic!("expected limit"),
    }
}

#[test]
fn pending_order_keeps_strategy_requested_quantity() {
    let mut runner = runner_with(0.125, 62_500.0);
    let ev = IncomeEvent::market(1, 1, MarketData::Clock);
    runner.on_event(&ev);
    let state = runner.state().symbol_state(&SYM.to_string()).expect("state");
    let pending: Vec<i128> = state.pending_orders().iter().map(|p| p.order.quantity).collect();
    assert_eq!(pending, vec![coins(0.125)]);
}

fn quote(exchange: Exchange, symbol: &str) -> IncomeEvent {
    IncomeEvent::market(
        0,
        0,
        MarketData::BBO(BBO {
            exchange,
            symbol: symbol.to_string(),
            bid_price: price(1.0),
            bid_qty: coins(1.0),
            ask_price: price(1.0),
            ask_qty: coins(1.0),
            timestamp: 0,
        }),
    )
}

fn account_info(exchange: Exchange) -> IncomeEvent {
    IncomeEvent::account(AccountId::Live, 0, 0, AccountData::AccountInfo { exchange, equity: usd(1.0), notional: 0 })
}

#[test]
fn the_scope_is_derived_from_the_strategys_declared_streams() {
    let runner = StrategyRunner::new(Box::new(OneShot { quantity: 1.0, price: 1.0, placed: false }), metas());
    assert!(runner.accepts(&quote(EX, SYM)));
    assert!(!runner.accepts(&quote(EX, "ETH")), "未订阅的 symbol 不该收");
    assert!(!runner.accepts(&quote(Exchange::Binance, SYM)), "未订阅的所不该收");
    assert!(runner.accepts(&account_info(EX)));
    assert!(!runner.accepts(&account_info(Exchange::Binance)), "未订阅所的净值不该到达策略");
    assert!(runner.accepts(&IncomeEvent::market(0, 0, MarketData::Clock)));
}

#[test]
fn orders_are_numbered_in_turn() {
    let mut ids = SequentialClientOrderIdGen::default();
    let first = ids.next_id(EX);
    let second = ids.next_id(EX);
    assert_ne!(first, second);
    assert_eq!(ids.next, 2);
}

#[test]
fn ids_made_for_a_venue_are_known_again() {
    let mut ids = ExchangeUuidGen;
    for exchange in [Exchange::Binance, Exchange::OKX, Exchange::Hyperliquid, Exchange::IBKR] {
        let a = ids.next_id(exchange);
        let b = ids.next_id(exchange);
        assert!(exchange.owns_cli_order_id(&a), "{a}");
        assert_ne!(a, b);
    }
}

#[test]
fn what_is_carried_out_is_what_was_decided() {
    let mut runner = runner_with(1.0, 1.0);
    let decisions = vec![
        OutcomeEvent::PlaceOrders { orders: vec![order(0.019, 10.04), order(1.0, 10.05)], comment: "two".to_string() },
        OutcomeEvent::CancelOrder {
            exchange: EX,
            symbol: SYM.to_string(),
            order_id: "7".to_string(),
            client_order_id: "c".to_string(),
        },
        OutcomeEvent::Emit(CustomEvent { scope: None, name: "done".to_string() }),
    ];
    let out = runner.carry_out(decisions, 5);
    assert_eq!(out.len(), 3);
    match &out[0] {
        OutcomeEvent::PlaceOrders { orders, comment } => {
            assert_eq!(comment, "two");
            assert_eq!(orders.len(), 2);
            assert_eq!(orders[0].quantity, coins(0.01));
            assert_ne!(orders[0].client_order_id, orders[1].client_order_id);
        }
        other => panic!("{other:?}"),
    }
    assert!(matches!(&out[1], OutcomeEvent::CancelOrder { .. }));
    assert!(matches!(&out[2], OutcomeEvent::Emit(_)));
    assert_eq!(runner.state().symbol_state(&SYM.to_string()).unwrap().pending_count(), 2);
}

/// Asks for one order on each of two venues, whenever the clock ticks.
struct TwoVenues;

impl Strategy for TwoVenues {
    fn public_streams(&self) -> PublicStreams {
        PublicStreams::of(vec![
            (EX, SubscriptionKind::BBO { symbol: SYM.to_string() }),
            (Exchange::Binance, SubscriptionKind::BBO { symbol: SYM.to_string() }),
        ])
    }

    fn order_timeout_ms(&self) -> u64 {
        7
    }

    fn on_event(&mut self, event: &IncomeEvent, _state: &StateManager) -> Vec<OutcomeEvent> {
        match event {
            IncomeEvent::Market(e) if matches!(e.data, MarketData::Clock) => {
                let elsewhere = Order { exchange: Exchange::Binance, ..order(1.0, 1.0) };
                let orders = vec![order(1.0, 1.0), elsewhere];
                vec![OutcomeEvent::PlaceOrders { orders, comment: String::new() }]
            }
            _ => Vec::new(),
        }
    }
}

fn ids_in(out: Vec<OutcomeEvent>) -> Vec<String> {
    let mut ids = Vec::new();
    for outcome in out {
        if let OutcomeEvent::PlaceOrders { orders, .. } = outcome {
            ids.extend(orders.into_iter().map(|o| o.client_order_id));
        }
    }
    ids
}

#[test]
fn the_ids_of_a_run_follow_its_orders() {
    let tick = IncomeEvent::market(1, 1, MarketData::Clock);
    let run = || {
        let counted = Box::new(SequentialClientOrderIdGen::default());
        let mut runner = StrategyRunner::with_id_gen(Box::new(TwoVenues), metas(), counted);
        let mut ids = ids_in(runner.on_event(&tick));
        ids.extend(ids_in(runner.on_event(&quote(EX, SYM))));
        ids.extend(ids_in(runner.on_event(&tick)));
        ids
    };
    assert_eq!(run(), vec!["bt0", "bt1", "bt2", "bt3"]);
    assert_eq!(run(), run());
    let from_nine = Box::new(SequentialClientOrderIdGen { next: 9 });
    let mut runner = StrategyRunner::with_id_gen(Box::new(TwoVenues), metas(), from_nine);
    assert_eq!(ids_in(runner.on_event(&tick)), vec!["bt9", "bt10"]);
}

#[test]
fn each_order_of_a_run_has_an_id_of_its_venue() {
    let mut runner = StrategyRunner::new(Box::new(TwoVenues), metas());
    let ids = ids_in(runner.on_event(&IncomeEvent::market(1, 1, MarketData::Clock)));
    assert_eq!(ids.len(), 2);
    assert!(EX.owns_cli_order_id(&ids[0]), "{}", ids[0]);
    assert!(Exchange::Binance.owns_cli_order_id(&ids[1]), "{}", ids[1]);
}

#[test]
fn a_runner_follows_what_its_strategy_wants() {
    let runner = StrategyRunner::new(Box::new(TwoVenues), metas());
    assert!(runner.accepts(&quote(EX, SYM)));
    assert!(runner.accepts(&quote(Exchange::Binance, SYM)));
    assert!(!runner.accepts(&quote(Exchange::IBKR, SYM)));
    assert_eq!(runner.state().symbol_count(), 1);
    assert_eq!(runner.state().symbol_state(&SYM.to_string()).unwrap().pending_count(), 0);
}

#[test]
fn a_position_that_a_venue_tells_counts_until_there_is_a_baseline() {
    let told = |size: f64| {
        let position = Position { exchange: EX, symbol: SYM.to_string(), size: coins(size) };
        IncomeEvent::account(AccountId::Live, 1, 1, AccountData::Position(position))
    };
    let mut runner = runner_with(1.0, 1.0);
    runner.on_event(&told(2.0));
    let held = |r: &StrategyRunner| r.state().symbol_state(&SYM.to_string()).unwrap().position_size(EX);
    assert_eq!(held(&runner), coins(2.0));
    let position = Position { exchange: EX, symbol: SYM.to_string(), size: coins(1.0) };
    runner.seed_positions(&vec![PositionBaseline { position, snapshot_req_ts: 1 }]);
    runner.on_event(&told(5.0));
    assert_eq!(held(&runner), coins(1.0));
}

#[test]
fn what_an_account_is_worth_leaves_what_is_at_stake() {
    let worth = |x: f64| {
        IncomeEvent::account(AccountId::Live, 1, 1, AccountData::Equity { exchange: EX, equity: usd(x) })
    };
    let mut runner = runner_with(1.0, 1.0);
    runner.on_event(&worth(5.0));
    let (on, known) = runner.state().account_at(0);
    assert_eq!((on, known.equity, known.notional), (EX, usd(5.0), 0));
    let both = AccountData::AccountInfo { exchange: EX, equity: usd(5.0), notional: usd(3.0) };
    runner.on_event(&IncomeEvent::account(AccountId::Live, 2, 2, both));
    runner.on_event(&worth(6.0));
    let (_, known) = runner.state().account_at(0);
    assert_eq!((known.equity, known.notional), (usd(6.0), usd(3.0)));
    assert_eq!(runner.state().account_count(), 1);
}
