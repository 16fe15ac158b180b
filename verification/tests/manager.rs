use hft_engine::domain::{AccountId, CustomEvent, Exchange, ExchangeError, Fill, FillReason, Order, OrderStatus};
use hft_engine::domain::{OrderType, OrderUpdate, OutcomeEvent, Position, PositionBaseline, Side, StepFormatter, SymbolMeta, SymbolMetas};
use hft_engine::event::{AccountData, AccountEvent, IncomeEvent, MarketData, MarketStatus};
use hft_engine::live::clock::{always_liquid, on_ticker, tick, Ticker, TickerStep};
use hft_engine::live::executor::{ExecutorActor, ExecutorArgs, GetPositions};
use hft_engine::live::manager::provision::{ProvisionReply, ProvisionStep, Provisioning, StrategyWants};
use hft_engine::live::manager::removal::{RegisteredExecutor, Removal, RemovalReply, RemovalStep};
use hft_engine::live::manager::startup::{on_link_died, startup, AfterStop, Bus, Children, Consumer, ExchangeSetup};
use hft_engine::live::manager::startup::{Interest, StartStep, StopReason};
use hft_engine::live::manager::{custom_market_event, ManagerActor, ManagerActorArgs, PublishCustomEvent};
use hft_engine::live::manager::{RegisterSupervisedChild, RemoveStrategies, StrategySpec};
use hft_engine::live::outcome_processor::PlaceVerdict;
use hft_engine::live::position_polling::PositionPollingActor;
use hft_engine::live::AccountOutcome;
use hft_engine::state::StateManager;
use hft_engine::strategy::{AnyStrategy, PublicStreams, Strategy};
use hft_engine::subscription::{Capabilities, SubscriptionKind};
use hft_engine::table::Table;

/// The decimal as a whole number of units of 10^-places.
fn fixed(x: f64, places: usize) -> i128 {
    let text = format!("{}", x);
    let (negative, digits) = match text.strip_prefix('-') {
        Some(rest) => (true, rest.to_string()),
        None => (false, text),
    };
    let (whole, part) = match digits.split_once('.') {
        Some((a, b)) => (a.to_string(), b.to_string()),
        None => (digits, String::new()),
    };
    let mut padded = part;
    while padded.len() < places {
        padded.push('0');
    }
    let n: i128 = format!("{}{}", whole, padded).parse().unwrap();
    if negative {
        -n
    } else {
        n
    }
}

fn coins(x: f64) -> i128 {
    fixed(x, 16)
}

fn price(x: f64) -> i128 {
    fixed(x, 8)
}

const BINANCE: Exchange = Exchange::Binance;
const OKX: Exchange = Exchange::OKX;

fn meta(exchange: Exchange, symbol: &str) -> SymbolMeta {
    SymbolMeta {
        exchange,
        symbol: symbol.to_string(),
        price_formatter: StepFormatter::new(price(0.1)),
        size_step: fixed(0.001, 8),
        min_order_size: fixed(0.001, 8),
        contract_size: fixed(1.0, 8),
    }
}

fn metas() -> SymbolMetas {
    let mut t = Table::new();
    for exchange in [BINANCE, OKX] {
        for symbol in ["BTC", "ETH"] {
            t.insert((exchange, symbol.to_string()), meta(exchange, symbol));
        }
    }
    t
}

fn bbo(exchange: Exchange, symbol: &str) -> (Exchange, SubscriptionKind) {
    (exchange, SubscriptionKind::BBO { symbol: symbol.to_string() })
}

/// Follows quotes and counts what it hears.
struct Listener {
    streams: Vec<(Exchange, String)>,
    heard: u32,
}

impl Strategy for Listener {
    fn public_streams(&self) -> PublicStreams {
        PublicStreams::of(self.streams.iter().map(|(e, s)| bbo(*e, s)).collect())
    }

    fn order_timeout_ms(&self) -> u64 {
        0
    }

    fn on_event(&mut self, _event: &IncomeEvent, _state: &StateManager) -> Vec<OutcomeEvent> {
        self.heard += 1;
        vec![OutcomeEvent::Emit(CustomEvent { scope: None, name: format!("{}", self.heard) })]
    }
}

fn listener(streams: &[(Exchange, &str)]) -> Box<dyn Strategy> {
    Box::new(Listener { streams: streams.iter().map(|(e, s)| (*e, s.to_string())).collect(), heard: 0 })
}

fn setup(exchange: Exchange, has_account: bool) -> ExchangeSetup {
    ExchangeSetup { exchange, has_account, capabilities: Capabilities::of(exchange) }
}

/// A manager with an account on the first venue only.
fn manager() -> ManagerActor {
    let mut adapters = Table::new();
    adapters.insert(BINANCE, ());
    adapters.insert(OKX, ());
    let args = ManagerActorArgs { exchanges: vec![setup(BINANCE, true), setup(OKX, false)] };
    ManagerActor::new(&args, metas(), adapters, Children::new())
}

#[test]
fn manager_graceful_stop_lets_the_parent_survive() {
    assert_eq!(on_link_died(7, StopReason::Normal), AfterStop::Continue);
}

#[test]
fn mod_graceful_stop_lets_the_parent_survive() {
    assert!(matches!(on_link_died(1, StopReason::Normal), AfterStop::Continue));
}

#[test]
fn manager_killed_child_takes_the_parent_down() {
    assert_eq!(on_link_died(7, StopReason::Killed), AfterStop::Break(7, StopReason::Killed));
}

#[test]
fn mod_killed_child_takes_the_parent_down() {
    for reason in [StopReason::Killed, StopReason::Panicked, StopReason::LinkDied] {
        assert_eq!(on_link_died(1, reason), AfterStop::Break(1, reason));
    }
}

#[test]
fn whoever_listens_is_there_before_anything_is_said() {
    let steps = startup(&vec![setup(BINANCE, true), setup(OKX, false)]).unwrap();
    assert_eq!(&steps[..2], &[StartStep::LoadMetas(BINANCE), StartStep::LoadMetas(OKX)]);
    assert_eq!(
        &steps[steps.len() - 3..],
        &[StartStep::StartClock, StartStep::StartVenue(BINANCE), StartStep::StartVenue(OKX)]
    );
    assert!(steps.contains(&StartStep::Subscribe(Bus::Outcome, Consumer::PaperCounter, Interest::PaperOutcomes)));
    let clock = steps.iter().position(|s| *s == StartStep::StartClock).unwrap();
    for (i, s) in steps.iter().enumerate() {
        if matches!(s, StartStep::Subscribe(..)) {
            assert!(i < clock);
        }
    }
}

#[test]
fn a_venue_set_up_twice_is_refused() {
    let err = startup(&vec![setup(BINANCE, true), setup(OKX, true), setup(BINANCE, false)]).unwrap_err();
    assert_eq!(err.message(), "Binance 被装配了两次（bin 侧重复 push 同一交易所的 setup），拒绝启动");
}

fn fill_of(account: AccountId) -> AccountEvent {
    AccountEvent {
        account,
        exchange_ts: 1,
        local_ts: 1,
        data: AccountData::Fill(Fill {
            exchange: BINANCE,
            symbol: "BTC".to_string(),
            side: Side::Long,
            price: price(1.0),
            size: coins(1.0),
            client_order_id: None,
            order_id: "1".to_string(),
            timestamp: 1,
            fee: 0,
            reason: FillReason::Normal,
        }),
    }
}

#[test]
fn each_decision_is_heard_by_one_outlet() {
    for account in [AccountId::Live, AccountId::Paper("x".to_string())] {
        let o = AccountOutcome {
            account,
            event: OutcomeEvent::Emit(CustomEvent { scope: None, name: "n".to_string() }),
        };
        assert_ne!(Interest::LiveOutcomes.takes_outcome(&o), Interest::PaperOutcomes.takes_outcome(&o));
    }
    assert!(Interest::LiveFills.takes_account(&fill_of(AccountId::Live)));
    assert!(!Interest::LiveFills.takes_account(&fill_of(AccountId::Paper("x".to_string()))));
    assert!(!Interest::OrderUpdates.takes_account(&fill_of(AccountId::Live)));
    assert!(Interest::Everything.takes_account(&fill_of(AccountId::Live)));
}

fn wants(account: AccountId, streams: &[(Exchange, &str)]) -> StrategyWants {
    StrategyWants { account, streams: streams.iter().map(|(e, s)| bbo(*e, s)).collect(), bare: vec![] }
}

fn batch() -> Provisioning {
    let m = manager();
    let specs = vec![
        StrategySpec::live(listener(&[(BINANCE, "BTC"), (OKX, "BTC")])),
        StrategySpec::paper(listener(&[(BINANCE, "BTC")]), "p".to_string()),
    ];
    match m.add_strategies(&specs) {
        Ok(p) => p,
        Err(e) => panic!("{}", e.message()),
    }
}

#[test]
fn a_batch_is_put_to_work_step_by_step() {
    let mut p = batch();
    assert!(matches!(p.next(), ProvisionStep::CancelLeftovers(Exchange::Binance, s) if s == "BTC"));
    p.report(ProvisionReply::LeftoversCancelled(Ok(())));
    assert!(matches!(p.next(), ProvisionStep::FetchPositions(Exchange::Binance)));
    p.report(ProvisionReply::Positions(
        BINANCE,
        100,
        Ok(vec![Position { exchange: BINANCE, symbol: "BTC".to_string(), size: coins(3.0) }]),
    ));
    for i in 0..2usize {
        assert!(matches!(p.next(), ProvisionStep::Spawn(j) if j == i));
        let b = p.baselines_for(i);
        let on_binance = b.iter().find(|x| x.position.exchange == BINANCE).unwrap();
        assert_eq!(on_binance.position.size, if i == 0 { coins(3.0) } else { 0 });
        assert_eq!(b.len(), 2 - i);
        p.report(ProvisionReply::Spawned(10 + i as u64));
    }
    assert!(matches!(p.next(), ProvisionStep::RegisterMetrics));
    assert_eq!(p.symbols(), vec!["BTC".to_string()]);
    assert_eq!(p.baselines().len(), 1);
    p.report(ProvisionReply::MetricsRegistered(Ok(())));
    assert!(matches!(p.next(), ProvisionStep::RegisterLedger));
    p.report(ProvisionReply::LedgerRegistered(Ok(())));
    for i in 0..2usize {
        assert!(matches!(p.next(), ProvisionStep::RegisterExecutor(j) if j == i));
        p.report(ProvisionReply::ExecutorRegistered(i, Ok(())));
    }
    for exchange in [BINANCE, OKX] {
        assert!(matches!(p.next(), ProvisionStep::Subscribe(e) if e == exchange));
        assert_eq!(p.streams_on(exchange).len(), 1, "what two strategies want is asked for once");
        p.report(ProvisionReply::Subscribed(Ok(())));
    }
    assert!(matches!(p.next(), ProvisionStep::Done(Ok(()))));
    assert!(!p.failed());
    let working = p.into_registered();
    assert_eq!(working.len(), 2);
    assert_eq!(working[0].executor, 10);
    assert!(working[1].account.is_paper());
}

#[test]
fn a_batch_that_fails_is_taken_back() {
    let mut p = batch();
    p.next();
    p.report(ProvisionReply::LeftoversCancelled(Ok(())));
    p.next();
    p.report(ProvisionReply::Positions(BINANCE, 1, Ok(vec![])));
    p.next();
    p.report(ProvisionReply::Spawned(10));
    p.next();
    p.report(ProvisionReply::Spawned(11));
    p.next();
    p.report(ProvisionReply::MetricsRegistered(Err("gone".to_string())));
    assert!(p.failed());
    for i in 0..2usize {
        assert!(matches!(p.next(), ProvisionStep::Unregister(j) if j == i));
        assert!(matches!(p.next(), ProvisionStep::Stop(j) if j == i));
    }
    match p.next() {
        ProvisionStep::Done(Err(e)) => {
            assert_eq!(e.message(), "向 MetricsActor 注册 symbol 失败（盈亏基线将丢失）: gone")
        }
        other => panic!("{other:?}"),
    }
}

fn failing(reply: ProvisionReply) -> String {
    let mut p = batch();
    p.next();
    p.report(ProvisionReply::Spawned(1));
    p.report(reply);
    loop {
        if let ProvisionStep::Done(r) = p.next() {
            return r.unwrap_err().message();
        }
    }
}

#[test]
fn every_failure_says_what_failed() {
    let down = || ExchangeError::Other("down".to_string());
    assert_eq!(failing(ProvisionReply::LeftoversCancelled(Err(down()))), "down");
    assert_eq!(
        failing(ProvisionReply::Positions(OKX, 1, Err(down()))),
        "无法获取 OKX 的初始持仓基线，拒绝启动（基线只有一次机会，错了之后无从纠正）: down"
    );
    assert!(failing(ProvisionReply::LedgerRegistered(Err("x".to_string()))).starts_with("向 PositionLedgerActor 注册"));
    assert_eq!(
        failing(ProvisionReply::ExecutorRegistered(0, Err("x".to_string()))),
        "向 IncomeProcessor 注册策略实例失败（该实例将收不到任何事件）: x"
    );
    assert_eq!(failing(ProvisionReply::Subscribed(Err("x".to_string()))), "x");
}

#[test]
fn a_batch_that_cannot_work_is_refused_before_it_starts() {
    let m = manager();
    match m.add_strategies(&vec![StrategySpec::live(listener(&[(BINANCE, "XRP")]))]) {
        Err(e) => assert!(e.message().contains("SymbolMeta"), "{}", e.message()),
        Ok(_) => panic!("an instrument of which nothing is known"),
    }
    assert!(wants(AccountId::Live, &[(BINANCE, "BTC")]).account.is_live());
}

fn at_work(executor: u64, account: AccountId, symbols: &[&str]) -> RegisteredExecutor {
    RegisteredExecutor { executor, account, symbols: symbols.iter().map(|s| s.to_string()).collect() }
}

fn removal(account: AccountId, symbols: &[&str], flatten: bool) -> RemoveStrategies {
    RemoveStrategies {
        account,
        symbols: symbols.iter().map(|s| s.to_string()).collect(),
        exchange: BINANCE,
        flatten,
    }
}

#[test]
fn a_strategy_leaves_nothing_behind() {
    let executors = vec![at_work(1, AccountId::Live, &["BTC"]), at_work(2, AccountId::Live, &["ETH"])];
    let (mut r, kept) = Removal::new(removal(AccountId::Live, &["BTC"], true), executors, true);
    assert_eq!(kept.len(), 1);
    assert_eq!(kept[0].executor, 2);
    assert!(matches!(r.next(), RemovalStep::AskPositions(1)));
    r.report(RemovalReply::Positions(Ok(vec![
        Position { exchange: BINANCE, symbol: "BTC".to_string(), size: coins(-2.0) },
        Position { exchange: OKX, symbol: "BTC".to_string(), size: coins(1.0) },
    ])));
    assert!(matches!(r.next(), RemovalStep::Unregister(1)));
    r.report(RemovalReply::Unregistered);
    assert!(matches!(r.next(), RemovalStep::Stop(1)));
    r.report(RemovalReply::Stopped(Ok(())));
    assert!(matches!(r.next(), RemovalStep::CancelLeftovers(s) if s == "BTC"));
    r.report(RemovalReply::LeftoversCancelled("BTC".to_string(), Ok(())));
    let order: Order = match r.next() {
        RemovalStep::Place(o) => o,
        other => panic!("{other:?}"),
    };
    assert_eq!((order.exchange, order.side, order.quantity), (BINANCE, Side::Long, coins(2.0)));
    assert!(order.reduce_only);
    assert!(matches!(order.order_type, OrderType::Market));
    assert!(BINANCE.owns_cli_order_id(&order.client_order_id));
    r.report(RemovalReply::Placed("BTC".to_string(), Ok(PlaceVerdict::Accepted)));
    assert!(matches!(r.next(), RemovalStep::Done(Ok(()))));
}

#[test]
fn a_strategy_that_also_does_other_things_stays() {
    let executors = vec![at_work(1, AccountId::Live, &["BTC", "ETH"])];
    let (mut r, kept) = Removal::new(removal(AccountId::Live, &["BTC"], true), executors, false);
    assert_eq!(kept.len(), 1);
    match r.next() {
        RemovalStep::Done(Err(e)) => {
            assert!(e.message().contains("实例覆盖 [\"ETH\"] 不在本次 targets 内，拒绝部分降级"), "{}", e.message())
        }
        other => panic!("{other:?}"),
    }
}

#[test]
fn whatever_is_left_undone_is_told() {
    let executors = vec![at_work(1, AccountId::Live, &["BTC"])];
    let (mut r, _) = Removal::new(removal(AccountId::Live, &["BTC"], true), executors, true);
    r.report(RemovalReply::Positions(Err("a".to_string())));
    r.report(RemovalReply::Stopped(Err("b".to_string())));
    r.report(RemovalReply::LeftoversCancelled("BTC".to_string(), Err(ExchangeError::Other("c".to_string()))));
    r.report(RemovalReply::Placed("BTC".to_string(), Ok(PlaceVerdict::ExchangeSpoke)));
    r.report(RemovalReply::Placed("BTC".to_string(), Err("d".to_string())));
    let err = loop {
        if let RemovalStep::Done(res) = r.next() {
            break res.unwrap_err().message();
        }
    };
    for part in [
        "取本地持仓失败: a",
        "实例未确认停止: b",
        "BTC: 遗留挂单未撤净 (c)",
        "BTC: 平仓单结论未知（交易所已回报，REST 失败），需复核",
        "BTC: 平仓下单失败 (d)",
    ] {
        assert!(err.contains(part), "{err}");
    }
}

#[test]
fn a_simulated_strategy_just_goes() {
    let account = || AccountId::Paper("p".to_string());
    let executors = vec![at_work(1, account(), &["BTC"]), at_work(2, AccountId::Live, &["BTC"])];
    let (mut r, kept) = Removal::new(removal(account(), &["BTC"], true), executors, true);
    assert_eq!(kept.len(), 1);
    assert!(matches!(r.next(), RemovalStep::Unregister(1)));
    assert!(matches!(r.next(), RemovalStep::Stop(1)));
    assert!(matches!(r.next(), RemovalStep::Done(Ok(()))));
}

#[test]
fn a_manager_keeps_its_books() {
    let mut m = manager();
    m.producer_started(3);
    m.producer_started(4);
    m.producer_stopped(3, true);
    m.producer_stopped(4, false);
    m.register_supervised_child(RegisterSupervisedChild(9));
    assert_eq!(m.get_all_symbol_metas().get(&BINANCE).unwrap().len(), 2);
    let groups = m.on_stop();
    assert_eq!(groups.len(), 3);
    assert!(groups[0].contains(&4) && !groups[0].contains(&3));
    assert!(groups.iter().any(|g| g.contains(&9)));
}

#[test]
fn strategies_that_were_adopted_can_be_removed() {
    let mut m = manager();
    let mut p = match m.add_strategies(&vec![StrategySpec::live(listener(&[(BINANCE, "BTC")]))]) {
        Ok(p) => p,
        Err(e) => panic!("{}", e.message()),
    };
    p.report(ProvisionReply::Spawned(5));
    p.report(ProvisionReply::ExecutorRegistered(0, Ok(())));
    m.adopt(p);
    let mut r = m.remove_strategies(removal(AccountId::Live, &["BTC"], false));
    assert_eq!(r.targets(), &vec!["BTC".to_string()]);
    assert!(matches!(r.next(), RemovalStep::Unregister(5)));
    let mut again = m.remove_strategies(removal(AccountId::Paper("x".to_string()), &["BTC"], false));
    assert!(matches!(again.next(), RemovalStep::Done(Ok(()))));
}

#[test]
fn what_one_strategy_says_others_hear() {
    let e = custom_market_event(PublishCustomEvent(CustomEvent { scope: None, name: "go".to_string() }), 42);
    assert_eq!((e.exchange_ts, e.local_ts), (42, 42));
    assert!(matches!(e.data, MarketData::Custom(c) if c.name == "go"));
}

#[test]
fn the_clock_ticks() {
    let e = tick(5);
    assert_eq!((e.exchange_ts, e.local_ts), (5, 5));
    assert!(matches!(e.data, MarketData::Clock));
    assert!(matches!(
        always_liquid(OKX, 6).data,
        MarketData::ExchangeStatus { exchange: Exchange::OKX, status: MarketStatus::Liquid }
    ));
    assert_eq!(on_ticker(Ticker::Started), TickerStep::Wait);
    assert_eq!(on_ticker(Ticker::Next), TickerStep::Act);
    assert_eq!(on_ticker(Ticker::Finished), TickerStep::Kill);
}

#[test]
fn an_executor_hears_what_it_follows() {
    let mut e = ExecutorActor::new(ExecutorArgs {
        strategy: AnyStrategy::new(listener(&[(BINANCE, "BTC")])),
        account: AccountId::Paper("p".to_string()),
        symbol_metas: metas(),
        baselines: vec![],
    });
    let (out, late) = e.handle_event(&IncomeEvent::market(100, 100, MarketData::Clock), 150);
    assert_eq!(out.len(), 1);
    assert!(out[0].account.is_paper());
    assert!(late.is_none());
    let (_, late) = e.handle_event(&IncomeEvent::market(100, 100, MarketData::Clock), 1_101);
    let w = late.expect("the first late event is told");
    assert_eq!((w.lag_ms, w.lagging_events), (1_001, 1));
    let (_, late) = e.handle_event(&IncomeEvent::market(100, 100, MarketData::Clock), 1_200);
    assert!(late.is_none());
    assert!(e.get_positions(&GetPositions(vec!["BTC".to_string()])).is_empty());
}

#[test]
fn positions_are_polled_until_the_venue_is_silent_for_too_long() {
    let mut p = PositionPollingActor::new(BINANCE, 0);
    let report = p.poll(Ok(vec![]), 10).unwrap().expect("a reading");
    assert_eq!((report.exchange, report.local_ts), (BINANCE, 10));
    let down = || Err(ExchangeError::Other("down".to_string()));
    assert!(p.poll(down(), 20).unwrap().is_none());
    assert!(p.poll(down(), 10 + 60_001).is_err());
}

#[test]
fn errors_say_what_they_are() {
    let u = OrderUpdate {
        order_id: "1".to_string(),
        client_order_id: None,
        exchange: BINANCE,
        symbol: "BTC".to_string(),
        side: Side::Long,
        status: OrderStatus::Error { reason: "x".to_string() },
        quantity: 0,
    };
    assert_eq!(u.clone(), u);
    assert!(!ExchangeError::Other("x".to_string()).is_reduce_only_closed());
}

#[test]
fn a_leg_is_told_once() {
    let held = |exchange: Exchange, size: i128| PositionBaseline {
        position: Position { exchange, symbol: "BTC".to_string(), size },
        snapshot_req_ts: 1,
    };
    let e = ExecutorActor::new(ExecutorArgs {
        strategy: AnyStrategy::new(listener(&[(BINANCE, "BTC"), (OKX, "BTC")])),
        account: AccountId::Live,
        symbol_metas: metas(),
        baselines: vec![held(BINANCE, 5), held(OKX, -5)],
    });
    let mut told = e.get_positions(&GetPositions(vec!["BTC".to_string(), "ETH".to_string()]));
    told.sort_by_key(|p| p.size);
    assert_eq!(told, vec![held(OKX, -5).position, held(BINANCE, 5).position]);
}

#[test]
fn a_batch_keeps_the_streams_that_it_was_planned_on() {
    let planned = batch();
    let on = |i: usize| planned.streams_for(i).iter().map(|s| s.0).collect::<Vec<Exchange>>();
    assert_eq!(on(0), vec![BINANCE, OKX]);
    assert_eq!(on(1), vec![BINANCE]);
}
