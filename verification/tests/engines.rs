use std::sync::Arc;

use hft_engine::actor::clock::{ClockActor, ClockArgs};
use hft_engine::actor::engine as core_engine;
use hft_engine::actor::engine::{AddStep, ChildActorKind};
use hft_engine::actor::executor::{income_of, ExecutorActor, ExecutorArgs};
use hft_engine::actor::processor::{EventRouting, ProcessorActor};
use hft_engine::actor::signal_processor::{SignalProcessorActor, SignalProcessorArgs, SignalStep};
use hft_engine::actor::{ExchangeEvent, ExchangeEventData};
use hft_engine::bootstrap::{choose_filter, config_path, next_step, start_failure, Happened, LogFilter, Phase};
use hft_engine::bootstrap::{ProcessStep, StopSignal};
use hft_engine::config::{BinanceConfig, ExchangesConfig, MetricsConfig, OkxConfig};
use hft_engine::coordinator::{processor_step, Coordinator, CoordinatorStep, ProcessorStep, SymbolProcessor};
use hft_engine::coordinator::SymbolStrategy;
use hft_engine::domain::{AccountId, Exchange, ExchangeError, Order, OrderStatus, OrderType, OutcomeEvent, Position, Side};
use hft_engine::domain::{StepFormatter, SymbolMeta};
use hft_engine::engine::{symbols_on, ActorEngine, Core, Engine, EngineKind, EngineRun, EngineStep};
use hft_engine::event::{AccountData, BBO, IncomeEvent, MarketData};
use hft_engine::funding::engine::FundingEngine;
use hft_engine::funding::executor::{relay, Executor, Feed, PrivateSinks, PublicSinks, Received, Relay};
use hft_engine::funding::metrics::{heard_in, push_error, push_outcome, push_url, Heard, Metric, Metrics};
use hft_engine::live::assembly::{setup_binance, setup_hyperliquid, setup_ibkr, setup_okx, venue_failure};
use hft_engine::live::engine::{modules, start_manager, startup, CoreParts, CoreStep, ManagerActorArgs};
use hft_engine::live::manager::StrategySpec;
use hft_engine::state::{StateManager, SymbolState};
use hft_engine::strategy::{AnyStrategy, PublicStreams, Strategy};
use hft_engine::subscription::SubscriptionKind;
use hft_engine::table::Table;

/// The decimal as a whole number of units of 10^-places.
fn fixed(x: f64, places: usize) -> i128 {
    let text = format!("{}", x);
    let (negative, digits) = match text.strip_prefix('-') {
        Some(rest) => (true, rest.to_string()),
        None => (false, text),
    };
    let (whole, part) = match digits.split_once('.') {
        Some((a, b)) => (a.to_string(), b.to_string()),
        None => (digits, String::new()),
    };
    let mut padded = part;
    while padded.len() < places {
        padded.push('0');
    }
    let n: i128 = format!("{}{}", whole, padded).parse().unwrap();
    if negative {
        -n
    } else {
        n
    }
}

fn coins(x: f64) -> i128 {
    fixed(x, 16)
}

fn price(x: f64) -> i128 {
    fixed(x, 8)
}

fn usd(x: f64) -> i128 {
    fixed(x, 24)
}

const BINANCE: Exchange = Exchange::Binance;
const OKX: Exchange = Exchange::OKX;

fn bbo(exchange: Exchange, symbol: &str) -> (Exchange, SubscriptionKind) {
    (exchange, SubscriptionKind::BBO { symbol: symbol.to_string() })
}

fn rate(exchange: Exchange, symbol: &str) -> (Exchange, SubscriptionKind) {
    (exchange, SubscriptionKind::FundingRate { symbol: symbol.to_string() })
}

struct Quiet(Vec<(Exchange, SubscriptionKind)>);

impl Strategy for Quiet {
    fn public_streams(&self) -> PublicStreams {
        PublicStreams::of(self.0.clone())
    }

    fn order_timeout_ms(&self) -> u64 {
        0
    }

    fn on_event(&mut self, _event: &IncomeEvent, _state: &StateManager) -> Vec<OutcomeEvent> {
        Vec::new()
    }
}

fn config() -> ExchangesConfig {
    ExchangesConfig {
        binance: BinanceConfig { api_key: String::new(), secret: String::new() },
        okx: OkxConfig { api_key: String::new(), secret: String::new(), passphrase: String::new() },
    }
}

fn all(mut run: EngineRun) -> Vec<String> {
    let mut v = Vec::new();
    loop {
        let step = run.next();
        let done = matches!(step, EngineStep::Done(_));
        v.push(format!("{step:?}"));
        if done {
            return v;
        }
    }
}

fn have(venues: &[Exchange]) -> Table<Exchange, ()> {
    let mut t = Table::new();
    for e in venues {
        t.insert(*e, ());
    }
    t
}

#[test]
fn the_channel_engine_starts_in_order() {
    let mut e = Engine::new(config());
    e.add_strategy(Box::new(Quiet(vec![bbo(BINANCE, "BTC")])));
    e.add_strategy(Box::new(Quiet(vec![bbo(BINANCE, "BTC"), rate(OKX, "ETH")])));
    assert_eq!(
        all(e.run()),
        vec![
            "InitClient(Binance)",
            "InitClient(OKX)",
            "FetchMetas(Binance)",
            "FetchMetas(OKX)",
            "Connect(Binance)",
            "Connect(OKX)",
            "OpenSignals",
            "StartClock",
            "StartExecutor(0)",
            "StartExecutor(1)",
            "HandleSignals",
            "Done(Ok(()))",
        ]
    );
    assert_eq!(e.run().symbols_on(OKX), vec!["ETH".to_string()]);
}

#[test]
fn the_actor_engine_asks_for_each_stream_once() {
    let mut e = ActorEngine::new(config());
    e.add_strategy(Box::new(Quiet(vec![bbo(BINANCE, "BTC")])));
    e.add_strategy(Box::new(Quiet(vec![bbo(BINANCE, "BTC"), rate(BINANCE, "BTC")])));
    let steps = all(e.run());
    let asked: Vec<&String> = steps.iter().filter(|s| s.starts_with("Request(")).collect();
    assert_eq!(asked.len(), 2);
    assert_eq!(steps[steps.len() - 2], "Dispatch");
    assert_eq!(steps.iter().filter(|s| *s == "RequestPrivate(Binance)").count(), 1);
}

#[test]
fn the_funding_engine_needs_its_venues() {
    let config = || MetricsConfig { enabled: true, pushgateway_url: "u".to_string(), push_interval_secs: 5 };
    let mut e = FundingEngine::new(config());
    let far = Exchange::Hyperliquid;
    e.add_strategy(Box::new(Quiet(vec![rate(BINANCE, "BTC"), rate(far, "BTC")])));
    assert_eq!(
        all(e.run()),
        vec!["FetchMetas(Binance)", "Done(Err(Other(\"Exchange Hyperliquid executor not registered\")))"]
    );
    e.core.client_ready(far);
    assert_eq!(all(e.run()).last().unwrap(), "Done(Ok(()))");
    assert_eq!(
        all(e.run())[4..],
        ["StartMetrics", "OpenSignals", "StartTicks", "StartExecutor(0)", "NoteSignals", "Done(Ok(()))"],
        "it asks for no equity and sends no orders"
    );
}

#[test]
fn the_actor_engine_opens_venues_in_a_fixed_order() {
    let mut e = ActorEngine::new(config());
    e.add_strategy(Box::new(Quiet(vec![bbo(OKX, "BTC"), bbo(BINANCE, "BTC")])));
    let steps = all(e.run());
    let opened: Vec<&String> = steps.iter().filter(|s| s.starts_with("Connect(")).collect();
    assert_eq!(opened, ["Connect(Binance)", "Connect(OKX)"]);
    assert_eq!(steps[0], "InitClient(OKX)");
}

/// Names a venue and an instrument without a stream.
struct Bare;

impl Strategy for Bare {
    fn public_streams(&self) -> PublicStreams {
        let bare = vec![(OKX, None), (BINANCE, Some("ETH".to_string())), (BINANCE, Some("BTC".to_string()))];
        PublicStreams { kinds: vec![bbo(BINANCE, "BTC")], bare }
    }

    fn order_timeout_ms(&self) -> u64 {
        0
    }

    fn on_event(&mut self, _event: &IncomeEvent, _state: &StateManager) -> Vec<OutcomeEvent> {
        Vec::new()
    }
}

#[test]
fn what_is_named_without_a_stream_is_connected_too() {
    let mut e = Engine::new(config());
    e.add_strategy(Box::new(Bare));
    let run = e.run();
    assert_eq!(run.symbols_on(BINANCE), vec!["BTC", "ETH"]);
    assert!(run.symbols_on(OKX).is_empty());
    assert_eq!(run.public_sinks(BINANCE).bbo, vec!["BTC"]);
    assert_eq!(run.private_sinks(BINANCE).position, vec!["BTC", "ETH"]);
    let (public, private) = ([BINANCE, OKX].map(|e| run.public_sinks(e)), [BINANCE, OKX].map(|e| run.private_sinks(e)));
    let steps = all(run);
    assert!(steps.contains(&"Connect(OKX)".to_string()), "{steps:?}");
    let executor = Executor::new(Box::new(Bare));
    let told: Vec<String> =
        executor.plan(&public.into(), &private.into()).iter().map(|f| format!("{f:?}")).collect();
    assert_eq!(
        told,
        vec![
            "BBO(Binance, \"BTC\")",
            "Position(Binance, \"BTC\")",
            "OrderUpdate(Binance, \"BTC\")",
            "Position(Binance, \"ETH\")",
            "OrderUpdate(Binance, \"ETH\")",
            "Balance(Binance)",
            "Balance(OKX)",
            "Clock",
        ]
    );
    let runner = executor.into_runner(Table::new());
    assert!(runner.accepts(&IncomeEvent::market(0, 0, MarketData::BBO(quote(BINANCE, "ETH")))));
    assert_eq!(runner.state().symbol_count(), 2);
    let args = core_engine::ManagerActorArgs { clients: have(&[BINANCE, OKX]), on_buses: false };
    let mut m = core_engine::ManagerActor::new(args);
    m.begin();
    m.child_started(1, ChildActorKind::Processor);
    m.child_started(2, ChildActorKind::SignalProcessor);
    let plan = m.plan_strategy(&streams(vec![]), &vec![(OKX, None)]);
    assert!(matches!(plan.steps[0], AddStep::CreateVenue(Exchange::OKX)));
}

#[test]
fn a_run_that_fails_stops() {
    let mut c = Core::new(have(&[BINANCE]));
    c.strategies.push(StrategySpec::live(Box::new(Quiet(vec![bbo(BINANCE, "BTC")]))));
    let mut run = c.run(EngineKind::Channels);
    run.next();
    run.fail(ExchangeError::Other("no".to_string()));
    assert_eq!(all(run), vec!["Done(Err(Other(\"no\")))".to_string()]);
    assert!(c.can_send(BINANCE) && !c.can_send(OKX));
    assert_eq!(c.take_strategies().len(), 1);
    assert_eq!(c.strategies.len(), 0);
    c.metas_fetched(BINANCE, &vec![meta(BINANCE, "BTC")]);
    assert_eq!(c.symbol_metas.len(), 1);
    let mut streams = Table::new();
    streams.insert(bbo(OKX, "A"), ());
    streams.insert(bbo(BINANCE, "B"), ());
    streams.insert(rate(OKX, "A"), ());
    assert_eq!(symbols_on(&streams, OKX), vec!["A".to_string()]);
}

fn meta(exchange: Exchange, symbol: &str) -> SymbolMeta {
    SymbolMeta {
        exchange,
        symbol: symbol.to_string(),
        price_formatter: StepFormatter::new(price(0.1)),
        size_step: fixed(0.001, 8),
        min_order_size: fixed(0.001, 8),
        contract_size: fixed(1.0, 8),
    }
}

fn streams(list: Vec<(Exchange, SubscriptionKind)>) -> Table<(Exchange, SubscriptionKind), ()> {
    let mut t = Table::new();
    for s in list {
        t.insert(s, ());
    }
    t
}

#[test]
fn a_strategy_is_put_to_work_once_the_core_is_up() {
    let args = core_engine::ManagerActorArgs { clients: have(&[BINANCE]), on_buses: false };
    let mut m = core_engine::ManagerActor::new(args);
    let wants = streams(vec![bbo(BINANCE, "BTC")]);
    let refusal = |m: &core_engine::ManagerActor, w| m.plan_strategy(w, &vec![]).outcome.unwrap_err().message();
    assert_eq!(refusal(&m, &wants), "self_ref not set");
    assert_eq!(
        m.on_start(),
        vec![
            CoreStep::LoadMetas(BINANCE),
            CoreStep::Start(ChildActorKind::Processor),
            CoreStep::Start(ChildActorKind::SignalProcessor),
            CoreStep::Start(ChildActorKind::Clock),
        ]
    );
    assert_eq!(refusal(&m, &wants), "ProcessorActor not initialized");
    m.child_started(1, ChildActorKind::Processor);
    assert_eq!(refusal(&m, &wants), "SignalProcessorActor not initialized");
    m.child_started(2, ChildActorKind::SignalProcessor);
    assert_eq!(
        refusal(&m, &wants),
        "Symbol \"BTC\" not found on Binance. May be newly listed, please restart."
    );
    let odd = streams(vec![bbo(BINANCE, "B\"C")]);
    assert_eq!(
        refusal(&m, &odd),
        "Symbol \"B\\\"C\" not found on Binance. May be newly listed, please restart."
    );
    m.preload_symbol_metas(BINANCE, &vec![meta(BINANCE, "BTC")]);
    m.preload_symbol_metas(OKX, &vec![meta(OKX, "BTC")]);
    let elsewhere = streams(vec![bbo(OKX, "BTC")]);
    assert_eq!(refusal(&m, &elsewhere), "OKX client not configured");
    m.child_started(3, ChildActorKind::Clock);
    let plan = m.plan_strategy(&wants, &vec![]);
    assert!(plan.outcome.is_ok());
    let steps: Vec<String> = plan.steps.iter().map(|s| format!("{s:?}")).collect();
    assert_eq!(
        steps,
        vec![
            "CreateVenue(Binance)",
            "SpawnExecutor",
            "RegisterProcessor(1)",
            "RegisterClock(3)",
            "Subscribe(Binance, BBO { symbol: \"BTC\" })",
        ]
    );
    m.child_started(4, ChildActorKind::Exchange(BINANCE));
    assert!(!matches!(m.plan_strategy(&wants, &vec![]).steps[0], AddStep::CreateVenue(_)));
    assert!(!m.ensure_exchange_actor(BINANCE).unwrap());
    assert!(m.on_link_died(4));
    assert!(m.ensure_exchange_actor(BINANCE).unwrap(), "a venue that has gone is made again");
    assert!(m.check_required_symbols(&wants).is_ok());
}

#[test]
fn the_core_comes_up_in_order() {
    let args = ManagerActorArgs { binance_credentials: true, okx_credentials: false, hyperliquid_credentials: true };
    assert_eq!(modules(&args), vec![BINANCE, Exchange::Hyperliquid]);
    let steps = startup(&args);
    assert_eq!(&steps[..2], &[CoreStep::LoadMetas(BINANCE), CoreStep::LoadMetas(Exchange::Hyperliquid)]);
    assert_eq!(steps[2], CoreStep::Start(ChildActorKind::IncomePubSub));
    assert_eq!(steps.last(), Some(&CoreStep::Link(ChildActorKind::Clock)));
    let parts = CoreParts { income_pubsub: 1, outcome_pubsub: 2, processor: 3, signal_processor: 4, clock: 5 };
    let m = start_manager(&args, &vec![(BINANCE, vec![meta(BINANCE, "BTC")])], &parts);
    let plan = m.plan_strategy(&streams(vec![bbo(BINANCE, "BTC")]), &vec![]);
    assert!(plan.outcome.is_ok());
    assert!(!plan.steps.iter().any(|s| matches!(s, AddStep::RegisterClock(_))), "the clock is heard over the bus");
    let mut m = m;
    assert!(m.on_link_died(3), "the engine goes with its processor");
    assert!(!m.on_link_died(3), "and knows it no more");
    let plan = m.plan_strategy(&streams(vec![bbo(BINANCE, "BTC")]), &vec![]);
    assert!(plan.outcome.is_ok(), "on buses its address is kept");
}

fn event(data: ExchangeEventData) -> ExchangeEvent {
    ExchangeEvent { exchange_ts: 1, local_ts: 1, data }
}

fn quote(exchange: Exchange, symbol: &str) -> BBO {
    BBO {
        exchange,
        symbol: symbol.to_string(),
        bid_price: price(1.0),
        bid_qty: coins(1.0),
        ask_price: price(2.0),
        ask_qty: coins(1.0),
        timestamp: 1,
    }
}

#[test]
fn only_those_who_follow_a_leg_hear_of_it() {
    let mut p = ProcessorActor::default();
    p.register(1, &vec![bbo(BINANCE, "BTC")]);
    p.register(2, &vec![bbo(OKX, "BTC")]);
    assert_eq!(p.route(&event(ExchangeEventData::BBO(quote(BINANCE, "BTC")))), vec![1]);
    assert_eq!(p.route(&event(ExchangeEventData::Clock)), vec![1, 2]);
    p.register(1, &vec![bbo(BINANCE, "ETH")]);
    assert!(p.route(&event(ExchangeEventData::BBO(quote(BINANCE, "BTC")))).is_empty());
    let position = Position { exchange: OKX, symbol: "BTC".to_string(), size: 0 };
    match ProcessorActor::event_routing(&event(ExchangeEventData::Position(position))) {
        EventRouting::BySymbol { exchange, symbol } => assert_eq!((exchange, symbol.as_str()), (OKX, "BTC")),
        other => panic!("{other:?}"),
    }
    let money = ExchangeEventData::Balance { exchange: OKX, asset: "USDT".to_string(), available: 0 };
    assert!(matches!(ProcessorActor::event_routing(&event(money)), EventRouting::Broadcast));
}

fn order(exchange: Exchange) -> Order {
    Order {
        id: String::new(),
        exchange,
        symbol: "BTC".to_string(),
        side: Side::Short,
        order_type: OrderType::Market,
        quantity: coins(1.0),
        reduce_only: false,
        client_order_id: "c".to_string(),
    }
}

#[test]
fn an_order_that_cannot_be_sent_is_reported_on() {
    let p = SignalProcessorActor::new(SignalProcessorArgs { clients: have(&[BINANCE]) });
    assert!(matches!(p.place(&order(BINANCE), 1), SignalStep::Send));
    let reason = |e: ExchangeEvent| match e.data {
        ExchangeEventData::OrderUpdate(u) => {
            assert_eq!(u.client_order_id, Some("c".to_string()));
            match u.status {
                OrderStatus::Error { reason } => reason,
                other => panic!("{other:?}"),
            }
        }
        other => panic!("{other:?}"),
    };
    match p.place(&order(OKX), 9) {
        SignalStep::Tell(e) => {
            assert_eq!(e.local_ts, 9);
            assert_eq!(reason(e), "No client found for exchange OKX");
        }
        SignalStep::Send => panic!("there is no client"),
    }
    assert!(p.on_reply(&order(BINANCE), &Ok("1".to_string()), 1).is_none());
    let told = p.on_reply(&order(BINANCE), &Err(ExchangeError::Other("down".to_string())), 1).unwrap();
    assert_eq!(reason(told), "down");
}

#[test]
fn the_clock_tells_what_the_account_is_worth() {
    let mut c = ClockActor::new(ClockArgs { interval_ms: 1_000, binance_client: true });
    assert!(c.asks_for_equity());
    c.register(3);
    assert_eq!(c.executors, vec![3]);
    let t = c.tick(Some(Ok(usd(5.0))), 7);
    assert_eq!(t.clock.local_ts, 7);
    assert!(matches!(
        t.equity.unwrap().data,
        ExchangeEventData::Equity { exchange: Exchange::Binance, equity } if equity == usd(5.0)
    ));
    assert!(c.tick(Some(Err(ExchangeError::Other("x".to_string()))), 8).equity.is_none());
    assert!(c.tick(None, 8).equity.is_none());
}

#[test]
fn an_executor_is_fed_with_what_its_strategy_follows() {
    let e = Executor::new(Box::new(Quiet(vec![bbo(BINANCE, "BTC"), rate(BINANCE, "BTC"), bbo(OKX, "ETH")])));
    let names = |list: &[&str]| -> Vec<String> { list.iter().map(|s| s.to_string()).collect() };
    let feeds = e.plan(
        &vec![
            PublicSinks { exchange: BINANCE, bbo: names(&["BTC", "XRP"]), funding_rate: names(&["BTC"]) },
            PublicSinks { exchange: OKX, bbo: names(&["ETH"]), funding_rate: names(&[]) },
        ],
        &vec![PrivateSinks { exchange: BINANCE, position: names(&["BTC"]), order_update: names(&["BTC", "XRP"]) }],
    );
    let told: Vec<String> = feeds.iter().map(|f| format!("{f:?}")).collect();
    for f in ["BBO(Binance, \"BTC\")", "FundingRate(Binance, \"BTC\")", "BBO(OKX, \"ETH\")", "Position(Binance, \"BTC\")"] {
        assert!(told.contains(&f.to_string()), "{told:?}");
    }
    assert!(!told.iter().any(|f| f.contains("XRP")), "{told:?}");
    assert!(matches!(feeds.last(), Some(Feed::Clock)));
    assert_eq!(relay(Received::Event), Relay::Forward);
    assert_eq!(relay(Received::Lagged), Relay::Skip);
    assert_eq!(relay(Received::Closed), Relay::End);
    assert_eq!(relay(Received::Cancelled), Relay::End);
    let runner = e.into_runner(Table::new());
    assert!(runner.accepts(&IncomeEvent::market(0, 0, MarketData::BBO(quote(OKX, "ETH")))));
}

#[test]
fn samples_carry_their_labels() {
    let mut m = Metrics::new();
    assert!(m.samples().is_empty());
    m.set_funding_rate(OKX, &"BTC".to_string(), fixed(0.0001, 8));
    m.set_usdt_balance(OKX, usd(1.0));
    m.set_position_size(BINANCE, &"BTC".to_string(), Side::Short, coins(2.0));
    let all = m.samples();
    assert_eq!(all.len(), 3);
    assert_eq!(all[0].metric.name(), "funding_arb_funding_rate");
    assert_eq!(all[0].labels.values(), vec!["OKX".to_string(), "BTC".to_string()]);
    assert_eq!(all[0].value, 10_000);
    assert_eq!(all[1].metric, Metric::UsdtBalance);
    assert_eq!(all[1].labels.values(), vec!["OKX".to_string()]);
    assert_eq!(all[1].value, usd(1.0));
    assert_eq!(all[2].labels.values(), vec!["Binance".to_string(), "BTC".to_string(), "short".to_string()]);
    assert_eq!(all[2].value, coins(2.0));
    for sample in &all {
        assert_eq!(sample.labels.values().len(), sample.metric.labels().len());
    }
    assert_eq!(Metric::UsdtBalance.help(), "USDT balance for each exchange");
}

#[test]
fn a_push_is_judged_by_its_status() {
    assert_eq!(push_url("http://gw:9091"), "http://gw:9091/metrics/job/funding_arb");
    assert!(push_outcome(200).is_ok());
    assert!(push_outcome(299).is_ok());
    assert_eq!(push_outcome(404), Err("Pushgateway returned status: 404 Not Found".to_string()));
    assert_eq!(push_outcome(300).unwrap_err(), "Pushgateway returned status: 300 Multiple Choices");
    assert_eq!(push_outcome(999).unwrap_err(), "Pushgateway returned status: 999 <unknown status code>");
    assert!(push_outcome(100).is_err());
    assert_eq!(push_error("x"), "Pushgateway returned status: x");
    let config = |enabled| MetricsConfig { enabled, pushgateway_url: String::new(), push_interval_secs: 15 };
    assert_eq!(Metrics::new().start(&config(true)), Some(15));
    assert_eq!(Metrics::new().start(&config(false)), None);
}

#[test]
fn a_process_ends_well_only_when_it_was_asked_to() {
    let h = |manager_ended: Option<&str>, signal, deadline_over| Happened {
        manager_ended: manager_ended.map(|s| s.to_string()),
        signal,
        deadline_over,
    };
    assert!(matches!(next_step(Phase::Running, &h(None, None, false)), ProcessStep::Wait));
    assert!(matches!(next_step(Phase::Running, &h(None, Some(StopSignal::Interrupt), false)), ProcessStep::StopManager));
    match next_step(Phase::Running, &h(Some("boom"), Some(StopSignal::Interrupt), false)) {
        ProcessStep::End(Err(s)) => assert_eq!(s, "ManagerActor 意外终止，引擎已停止交易: boom"),
        other => panic!("{other:?}"),
    }
    assert!(matches!(next_step(Phase::Stopping, &h(Some("done"), None, true)), ProcessStep::End(Ok(()))));
    match next_step(Phase::Stopping, &h(None, Some(StopSignal::Terminate), false)) {
        ProcessStep::End(Err(s)) => assert_eq!(s, "停机中收到第二次 SIGTERM，放弃等待收尾直接退出"),
        other => panic!("{other:?}"),
    }
    match next_step(Phase::Stopping, &h(None, None, true)) {
        ProcessStep::End(Err(s)) => assert!(s.starts_with("停机超时（30s）"), "{s}"),
        other => panic!("{other:?}"),
    }
    assert!(matches!(next_step(Phase::Stopping, &h(None, None, false)), ProcessStep::Wait));
    assert_eq!(start_failure("Manager", "no"), "Manager 启动失败: no");
}

#[test]
fn what_the_command_line_says_comes_first() {
    let args = vec!["bin".to_string(), "mine.json".to_string()];
    assert_eq!(config_path(&args, "default.json"), "mine.json");
    assert_eq!(config_path(&vec!["bin".to_string()], "default.json"), "default.json");
    assert_eq!(config_path(&vec![], "default.json"), "default.json");
    assert_eq!(choose_filter(true), LogFilter::FromEnvironment);
    assert_eq!(choose_filter(false), LogFilter::Default);
    assert_eq!(StopSignal::Terminate.name(), "SIGTERM");
}

#[test]
fn the_coordinator_starts_one_processor_for_each_instrument() {
    let c = Coordinator::new(vec!["BTC".to_string(), "ETH".to_string()]);
    let steps = c.start();
    assert_eq!(steps[0], CoordinatorStep::OpenBus);
    assert_eq!(&steps[steps.len() - 2..], &[CoordinatorStep::StartProcessor(0), CoordinatorStep::StartProcessor(1)]);
    assert_eq!(processor_step(true, true), ProcessorStep::End);
    assert_eq!(processor_step(false, true), ProcessorStep::Handle);
    assert_eq!(processor_step(false, false), ProcessorStep::End);
    let tick = IncomeEvent::market(1, 1, MarketData::Clock);
    assert_eq!(c.concerned(&tick), vec![0, 1]);
    assert_eq!(c.concerned(&IncomeEvent::market(1, 1, MarketData::BBO(quote(OKX, "ETH")))), vec![1]);
    assert!(c.concerned(&IncomeEvent::market(1, 1, MarketData::BBO(quote(OKX, "DOGE")))).is_empty());
}

/// Asks for an order once there is a quote.
struct OnQuote;

impl SymbolStrategy for OnQuote {
    fn evaluate(&self, state: &SymbolState) -> Option<Order> {
        state.bbo(BINANCE).map(|_| order(BINANCE))
    }
}

#[test]
fn a_processor_takes_an_event_down_before_it_asks_the_strategy() {
    let mut p = SymbolProcessor::new("BTC".to_string(), Arc::new(OnQuote));
    assert!(p.handle_event(&IncomeEvent::market(1, 1, MarketData::Clock)).is_none());
    let asked = p.handle_event(&IncomeEvent::market(1, 1, MarketData::BBO(quote(BINANCE, "BTC"))));
    assert_eq!(asked.unwrap().quantity, order(BINANCE).quantity);
    assert_eq!(p.state.bbo(BINANCE).unwrap().ask_price, price(2.0));
    assert_eq!(p.symbol, "BTC");
}

#[test]
fn a_run_knows_which_channels_it_opens() {
    let rates = (OKX, SubscriptionKind::FundingRate { symbol: "BTC".to_string() });
    let mut e = Engine::new(config());
    e.add_strategy(Box::new(Quiet(vec![bbo(OKX, "ETH"), rates, bbo(OKX, "BTC"), bbo(BINANCE, "SOL")])));
    let run = e.run();
    let public = run.public_sinks(OKX);
    assert_eq!(public.exchange, OKX);
    assert_eq!(public.bbo, vec!["ETH", "BTC"]);
    assert_eq!(public.funding_rate, vec!["BTC"]);
    let private = run.private_sinks(OKX);
    assert_eq!(private.position, vec!["ETH", "BTC"]);
    assert_eq!(private.order_update, vec!["ETH", "BTC"]);
    assert!(run.public_sinks(BINANCE).funding_rate.is_empty());
}

#[test]
fn a_channel_carries_its_own_events() {
    let on_quote = IncomeEvent::market(0, 0, MarketData::BBO(quote(BINANCE, "BTC")));
    assert!(Feed::BBO(BINANCE, "BTC".to_string()).carries(&on_quote));
    assert!(!Feed::BBO(OKX, "BTC".to_string()).carries(&on_quote));
    assert!(!Feed::BBO(BINANCE, "ETH".to_string()).carries(&on_quote));
    assert!(!Feed::FundingRate(BINANCE, "BTC".to_string()).carries(&on_quote));
    let worth = AccountData::Equity { exchange: BINANCE, equity: usd(5.0) };
    let worth = IncomeEvent::account(AccountId::Live, 0, 0, worth);
    assert!(Feed::Clock.carries(&worth));
    assert!(Feed::Clock.carries(&IncomeEvent::market(0, 0, MarketData::Clock)));
    assert!(!Feed::Clock.carries(&on_quote));
    assert!(heard_in(&worth).is_none());
    let short = Position { exchange: OKX, symbol: "BTC".to_string(), size: -coins(2.0) };
    let short = IncomeEvent::account(AccountId::Live, 0, 0, AccountData::Position(short));
    assert!(Feed::Position(OKX, "BTC".to_string()).carries(&short));
    assert!(matches!(heard_in(&short), Some(Heard::Position { side: Side::Short, size }) if size == coins(2.0)));
    let cash = AccountData::Balance { exchange: OKX, asset: "USDT".to_string(), available: usd(3.0) };
    let cash = IncomeEvent::account(AccountId::Live, 0, 0, cash);
    assert!(Feed::Balance(OKX).carries(&cash));
    assert!(!Feed::Balance(BINANCE).carries(&cash));
    let mut figures = Metrics::new();
    figures.hear(&Feed::Balance(OKX), &heard_in(&cash).unwrap());
    assert_eq!(figures.samples()[0].value, usd(3.0));
}

#[test]
fn an_executor_follows_the_streams_it_is_given() {
    let quote_of = |exchange, symbol| IncomeEvent::market(0, 0, MarketData::BBO(quote(exchange, symbol)));
    let e = Executor::on_streams(Box::new(Quiet(vec![bbo(OKX, "ETH")])), PublicStreams::of(vec![bbo(BINANCE, "BTC"), bbo(BINANCE, "BTC")]));
    let sinks = vec![PublicSinks { exchange: BINANCE, bbo: vec!["BTC".to_string()], funding_rate: vec![] }];
    let told: Vec<String> = e.plan(&sinks, &vec![]).iter().map(|f| format!("{f:?}")).collect();
    assert_eq!(told, vec!["BBO(Binance, \"BTC\")", "Clock"]);
    let runner = e.into_runner(Table::new());
    assert!(runner.accepts(&quote_of(BINANCE, "BTC")));
    assert!(!runner.accepts(&quote_of(OKX, "ETH")));
}

#[test]
fn figures_are_taken_from_every_channel_that_carries_them() {
    let feeds = Metrics::new().start_subscription(
        &vec![PublicSinks { exchange: OKX, bbo: vec!["X".to_string()], funding_rate: vec!["A".to_string(), "B".to_string()] }],
        &vec![PrivateSinks { exchange: OKX, position: vec!["A".to_string()], order_update: vec!["A".to_string()] }],
    );
    let told: Vec<String> = feeds.iter().map(|f| format!("{f:?}")).collect();
    assert_eq!(told, vec!["FundingRate(OKX, \"A\")", "FundingRate(OKX, \"B\")", "Balance(OKX)", "Position(OKX, \"A\")"]);
    assert_eq!(Metric::PositionSize.labels(), vec!["exchange", "symbol", "side"]);
    assert_eq!(Metric::UsdtBalance.labels().len(), 1);
}

#[test]
fn a_figure_shows_what_was_heard_last() {
    let mut m = Metrics::new();
    let rate = Feed::FundingRate(OKX, "A".to_string());
    m.hear(&rate, &Heard::FundingRate(7));
    m.hear(&rate, &Heard::FundingRate(9));
    assert_eq!(m.samples().len(), 1);
    assert_eq!(m.samples()[0].value, 9);
    let balance = Feed::Balance(OKX);
    m.hear(&balance, &Heard::Balance { asset: "BTC".to_string(), available: usd(5.0) });
    m.hear(&balance, &Heard::FundingRate(1));
    assert_eq!(m.samples().len(), 1);
    m.hear(&balance, &Heard::Balance { asset: "USDT".to_string(), available: usd(5.0) });
    let position = Feed::Position(OKX, "A".to_string());
    m.hear(&position, &Heard::Position { side: Side::Long, size: coins(1.0) });
    m.hear(&position, &Heard::Position { side: Side::Short, size: coins(3.0) });
    let values: Vec<i128> = m.samples().iter().map(|s| s.value).collect();
    assert_eq!(values, vec![9, usd(5.0), coins(1.0), coins(3.0)]);
}

#[test]
fn venues_are_set_up_with_what_they_can_do() {
    assert!(setup_binance(true).has_account && !setup_binance(false).has_account);
    assert_eq!(setup_okx(false).exchange, OKX);
    assert!(setup_okx(false).capabilities.candle && !setup_hyperliquid(true).capabilities.candle);
    let ibkr = setup_ibkr();
    assert!(ibkr.has_account && ibkr.capabilities.bbo && !ibkr.capabilities.trades);
    assert_eq!(venue_failure(OKX, "no net").message(), "OkxActor failed to start: no net");
}

/// Buys a little with every tick.
struct Buyer;

impl Strategy for Buyer {
    fn public_streams(&self) -> PublicStreams {
        PublicStreams::of(vec![bbo(BINANCE, "BTC")])
    }

    fn order_timeout_ms(&self) -> u64 {
        0
    }

    fn on_event(&mut self, event: &IncomeEvent, _state: &StateManager) -> Vec<OutcomeEvent> {
        match event {
            IncomeEvent::Market(e) if matches!(e.data, MarketData::Clock) => {
                vec![OutcomeEvent::PlaceOrders { orders: vec![order(BINANCE)], comment: String::new() }]
            }
            _ => Vec::new(),
        }
    }
}

#[test]
fn a_strategy_asks_for_orders_on_what_it_is_told() {
    let mut metas = Table::new();
    metas.insert((BINANCE, "BTC".to_string()), meta(BINANCE, "BTC"));
    let mut e = ExecutorActor::new(ExecutorArgs { strategy: AnyStrategy::new(Box::new(Buyer)), symbol_metas: metas });
    let tick = income_of(event(ExchangeEventData::Clock));
    let orders = e.handle_event(&tick);
    assert_eq!(orders.len(), 1);
    assert_eq!(orders[0].quantity, coins(1.0));
    assert!(BINANCE.owns_cli_order_id(&orders[0].client_order_id));
    let quote = income_of(event(ExchangeEventData::BBO(quote(BINANCE, "BTC"))));
    assert!(e.handle_event(&quote).is_empty());
    let position = Position { exchange: OKX, symbol: "BTC".to_string(), size: coins(2.0) };
    let told = income_of(event(ExchangeEventData::Position(position.clone())));
    assert!(matches!(told, IncomeEvent::Account(e) if e.data == AccountData::Position(position)));
}
