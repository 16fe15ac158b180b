use hft_engine::domain::{AccountId, Exchange, ExchangeError, Fill, FillReason, OrderStatus, OrderUpdate};
use hft_engine::domain::{Position, PositionBaseline, Side, StepFormatter, Symbol, SymbolMeta, SymbolMetas};
use hft_engine::event::{AccountData, IncomeEvent};
use hft_engine::live::manager::provisioning::{executor_baselines, own_pending_orders, validate_subscriptions};
use hft_engine::live::manager::provisioning::{LeftoverCancel, LeftoverStep, StreamSet};
use hft_engine::live::manager::Provisioner;
use hft_engine::scope::SubscriptionScope;
use hft_engine::state::StateManager;
use hft_engine::subscription::{supports_subscription, Capabilities, CandleInterval, SubscriptionKind};
use hft_engine::table::Table;

/// The decimal as a whole number of units of 10^-places.
fn fixed(x: f64, places: usize) -> i128 {
    let text = format!("{}", x);
    let (negative, digits) = match text.strip_prefix('-') {
        Some(rest) => (true, rest.to_string()),
        None => (false, text),
    };
    let (whole, part) = match digits.split_once('.') {
        Some((a, b)) => (a.to_string(), b.to_string()),
        None => (digits, String::new()),
    };
    let mut padded = part;
    while padded.len() < places {
        padded.push('0');
    }
    let n: i128 = format!("{}{}", whole, padded).parse().unwrap();
    if negative {
        -n
    } else {
        n
    }
}

fn coins(x: f64) -> i128 {
    fixed(x, 16)
}

fn price(x: f64) -> i128 {
    fixed(x, 8)
}

const EX: Exchange = Exchange::Binance;
const SYM: &str = "BTC";
const WITH_ACCOUNT: Exchange = Exchange::Binance;
const NO_ACCOUNT: Exchange = Exchange::OKX;

fn lots(x: f64) -> i128 {
    fixed(x, 8)
}

fn bbo(ex: Exchange) -> (Exchange, SubscriptionKind) {
    (ex, SubscriptionKind::BBO { symbol: "BTC".to_string() })
}

fn candle(ex: Exchange) -> (Exchange, SubscriptionKind) {
    (ex, SubscriptionKind::Candle { symbol: "BTC".to_string(), interval: CandleInterval::Min1 })
}

fn set(streams: Vec<(Exchange, SubscriptionKind)>) -> StreamSet {
    let mut t = Table::new();
    for s in streams {
        t.insert(s, ());
    }
    t
}

fn metas_with_btc() -> SymbolMetas {
    let mut t = Table::new();
    t.insert(
        (Exchange::Binance, "BTC".to_string()),
        SymbolMeta {
            exchange: Exchange::Binance,
            symbol: "BTC".to_string(),
            price_formatter: StepFormatter::new(price(0.1)),
            size_step: lots(0.001),
            min_order_size: lots(0.001),
            contract_size: lots(1.0),
        },
    );
    t
}

fn binance_only() -> Table<Exchange, Capabilities> {
    let mut t = Table::new();
    t.insert(Exchange::Binance, Capabilities::of(Exchange::Binance));
    t
}

#[test]
fn provisioning_unavailable_exchange_and_unsupported_kind_are_rejected() {
    let capabilities = binance_only();
    let metas = metas_with_btc();
    let err = validate_subscriptions(&set(vec![bbo(Exchange::OKX)]), &capabilities, &metas)
        .expect_err("未配置的所必须拒绝");
    assert!(err.contains("未配置"), "got: {err}");
    let err = validate_subscriptions(&set(vec![candle(Exchange::Binance)]), &capabilities, &metas)
        .expect_err("不支持的 kind 必须拒绝");
    assert!(err.contains("不支持"), "got: {err}");
    validate_subscriptions(&set(vec![bbo(Exchange::Binance)]), &capabilities, &metas)
        .expect("已配置且支持的订阅应放行");
}

#[test]
fn manager_unavailable_exchange_and_unsupported_kind_are_rejected() {
    let capabilities = binance_only();
    let metas = metas_with_btc();
    let err = validate_subscriptions(&set(vec![bbo(Exchange::OKX)]), &capabilities, &metas)
        .expect_err("未配置的所必须拒绝");
    assert!(err.contains("未配置"), "got: {err}");
    let err = validate_subscriptions(&set(vec![candle(Exchange::Binance)]), &capabilities, &metas)
        .expect_err("不支持的 kind 必须拒绝");
    assert!(err.contains("不支持"), "got: {err}");
    validate_subscriptions(&set(vec![bbo(Exchange::Binance)]), &capabilities, &metas)
        .expect("已配置且支持的订阅应放行");
}

fn eth() -> StreamSet {
    set(vec![(Exchange::Binance, SubscriptionKind::BBO { symbol: "ETH".to_string() })])
}

#[test]
fn provisioning_subscription_without_symbol_meta_is_rejected() {
    let err = validate_subscriptions(&eth(), &binance_only(), &metas_with_btc())
        .expect_err("缺 SymbolMeta 的订阅必须在投产期拒绝，而不是上线后三处分别失效");
    assert!(err.contains("SymbolMeta"), "错误应指明根因: {err}");
}

#[test]
fn manager_subscription_without_symbol_meta_is_rejected() {
    let err = validate_subscriptions(&eth(), &binance_only(), &metas_with_btc())
        .expect_err("缺 SymbolMeta 的订阅必须在投产期拒绝，而不是上线后三处分别失效");
    assert!(err.contains("SymbolMeta"), "错误应指明根因: {err}");
}

#[test]
fn provisioning_hand_written_capability_exceptions_hold() {
    let candle_kind = SubscriptionKind::Candle { symbol: "BTC".to_string(), interval: CandleInterval::Min1 };
    assert!(
        supports_subscription(Exchange::OKX, &candle_kind),
        "OKX 的 Candle 由 business WS 承接，能力查询必须为真"
    );
    assert!(supports_subscription(Exchange::IBKR, &SubscriptionKind::BBO { symbol: "AAPL".to_string() }));
    assert!(
        !supports_subscription(Exchange::IBKR, &SubscriptionKind::Trades { symbol: "AAPL".to_string() }),
        "IBKR 只实现了 BBO"
    );
}

#[test]
fn manager_hand_written_capability_exceptions_hold() {
    let candle_kind = SubscriptionKind::Candle { symbol: "BTC".to_string(), interval: CandleInterval::Min1 };
    assert!(
        supports_subscription(Exchange::OKX, &candle_kind),
        "OKX 的 Candle 由 business WS 承接，能力查询必须为真"
    );
    assert!(supports_subscription(Exchange::IBKR, &SubscriptionKind::BBO { symbol: "AAPL".to_string() }));
    assert!(
        !supports_subscription(Exchange::IBKR, &SubscriptionKind::Trades { symbol: "AAPL".to_string() }),
        "IBKR 只实现了 BBO"
    );
}

#[test]
fn all_that_stands_in_the_way_is_told_at_once_and_in_order() {
    let streams = set(vec![candle(Exchange::Binance), bbo(Exchange::OKX)]);
    let err = validate_subscriptions(&streams, &binance_only(), &metas_with_btc()).unwrap_err();
    assert_eq!(
        err,
        "策略订阅不可行，拒绝投产: Binance 的适配层不支持 Candle { symbol: \"BTC\", interval: Min1 }; \
         OKX 未配置（BBO { symbol: \"BTC\" } 无从订阅）"
    );
}

fn scope() -> SubscriptionScope {
    SubscriptionScope::from_pairs(&vec![(WITH_ACCOUNT, SYM.to_string()), (NO_ACCOUNT, SYM.to_string())])
}

fn rest() -> Table<(Exchange, Symbol), PositionBaseline> {
    let mut t = Table::new();
    t.insert(
        (WITH_ACCOUNT, SYM.to_string()),
        PositionBaseline {
            position: Position { exchange: WITH_ACCOUNT, symbol: SYM.to_string(), size: coins(7.0) },
            snapshot_req_ts: 1_000,
        },
    );
    t
}

fn size_at(baselines: &[PositionBaseline], exchange: Exchange) -> Option<i128> {
    baselines.iter().find(|b| b.position.exchange == exchange).map(|b| b.position.size)
}

#[test]
fn every_leg_in_scope_gets_a_baseline() {
    for account in [AccountId::Live, AccountId::Paper("x".to_string())] {
        let b = executor_baselines(&account, &scope(), &rest());
        assert_eq!(b.len(), scope().pairs().len(), "{}: 作用域内的腿必须全部有基线", account.name());
        assert!(size_at(&b, WITH_ACCOUNT).is_some());
        assert!(size_at(&b, NO_ACCOUNT).is_some());
    }
}

#[test]
fn live_takes_the_rest_snapshot_and_zeroes_the_rest() {
    let b = executor_baselines(&AccountId::Live, &scope(), &rest());
    assert_eq!(size_at(&b, WITH_ACCOUNT), Some(coins(7.0)), "有凭证的所用 REST 真值");
    assert_eq!(size_at(&b, NO_ACCOUNT), Some(coins(0.0)), "无凭证的所补 0");
}

#[test]
fn paper_never_sees_real_positions() {
    let b = executor_baselines(&AccountId::Paper("x".to_string()), &scope(), &rest());
    assert_eq!(size_at(&b, WITH_ACCOUNT), Some(coins(0.0)), "模拟账户不得继承实盘存量");
    assert_eq!(size_at(&b, NO_ACCOUNT), Some(coins(0.0)));
}

#[test]
fn synthesised_baselines_use_a_zero_snapshot_timestamp() {
    let b = executor_baselines(&AccountId::Paper("x".to_string()), &scope(), &rest());
    assert!(b.iter().all(|x| x.snapshot_req_ts == 0));
}

#[test]
fn synthesised_baseline_only_swallows_a_zero_timestamp_fill() {
    let baselines = executor_baselines(&AccountId::Paper("x".to_string()), &scope(), &rest());
    let fill_at = |local_ts: u64| {
        IncomeEvent::account(
            AccountId::Live,
            local_ts,
            local_ts,
            AccountData::Fill(Fill {
                exchange: WITH_ACCOUNT,
                symbol: SYM.to_string(),
                side: Side::Long,
                price: price(100.0),
                size: coins(1.0),
                client_order_id: None,
                order_id: "1".to_string(),
                timestamp: local_ts,
                fee: 0,
                reason: FillReason::Normal,
            }),
        )
    };
    let mut swallowed = StateManager::new(&vec![SYM.to_string()], 0);
    swallowed.seed_positions(&baselines);
    swallowed.apply(&fill_at(0));
    assert_eq!(
        swallowed.symbol_state(&SYM.to_string()).expect("state").position_size(WITH_ACCOUNT),
        coins(0.0),
        "local_ts == 0 的 Fill 会被 ts=0 的基线判成「已含在快照里」而丢弃"
    );
    let mut kept = StateManager::new(&vec![SYM.to_string()], 0);
    kept.seed_positions(&baselines);
    kept.apply(&fill_at(1));
    assert_eq!(
        kept.symbol_state(&SYM.to_string()).expect("state").position_size(WITH_ACCOUNT),
        coins(1.0),
        "local_ts >= 1 照常累加 —— 实盘与纸盘取 now_ms()，恒落在这一侧"
    );
}

#[test]
fn provisioning_and_removal_agree_on_an_exchange_without_account() {
    let mut accounts: Table<Exchange, ()> = Table::new();
    assert!(
        !Provisioner::exchange_side_cleanup(&accounts, EX),
        "没有账户的所必须判为无残留 —— 撤下路径据此干净收尾，而不是报错卡死"
    );
    accounts.insert(EX, ());
    assert!(Provisioner::exchange_side_cleanup(&accounts, EX), "有账户的所必须照常清理");
    assert!(
        !Provisioner::exchange_side_cleanup(&accounts, Exchange::Hyperliquid),
        "判据必须按所独立"
    );
}

fn order(client_order_id: &str, order_id: &str) -> OrderUpdate {
    OrderUpdate {
        order_id: order_id.to_string(),
        client_order_id: Some(client_order_id.to_string()),
        exchange: EX,
        symbol: SYM.to_string(),
        side: Side::Long,
        status: OrderStatus::Pending,
        quantity: coins(1.0),
    }
}

fn anonymous_order(order_id: &str) -> OrderUpdate {
    OrderUpdate { client_order_id: None, ..order("", order_id) }
}

/// Drives a cancellation over the answers that the venue gives; says what was cancelled and how it
/// ended.
fn run_cancel(rounds: Vec<Vec<OrderUpdate>>) -> (Vec<String>, Result<(), ExchangeError>) {
    let mut cancelled = Vec::new();
    let mut c = LeftoverCancel::new(EX, SYM.to_string());
    for round in rounds {
        match c.on_fetched(Ok(round)) {
            LeftoverStep::CancelAll(mut ids) => cancelled.append(&mut ids),
            LeftoverStep::Done(r) => return (cancelled, r),
        }
    }
    panic!("the cancellation did not end")
}

#[test]
fn provisioning_nothing_to_cancel_sends_no_request() {
    let (cancelled, result) = run_cancel(vec![vec![]]);
    result.expect("空列表应直接通过");
    assert!(cancelled.is_empty());
}

#[test]
fn manager_nothing_to_cancel_sends_no_request() {
    let (cancelled, result) = run_cancel(vec![vec![]]);
    result.expect("空列表应直接通过");
    assert!(cancelled.is_empty());
}

fn own_and_foreign() -> (Vec<String>, Result<(), ExchangeError>) {
    let own = EX.new_cli_order_id();
    let foreign = || {
        vec![
            order("web_1a2b", "ex-foreign-1"),
            order("android_9f8e", "ex-foreign-2"),
            anonymous_order("ex-anon"),
        ]
    };
    let mut first = foreign();
    first.push(order(&own, "ex-own"));
    run_cancel(vec![first, foreign()])
}

#[test]
fn provisioning_only_own_orders_are_cancelled() {
    let (cancelled, result) = own_and_foreign();
    result.expect("外部单残留不该导致失败");
    assert_eq!(cancelled, vec!["ex-own".to_string()], "只应撤掉本引擎的那一张");
}

#[test]
fn manager_only_own_orders_are_cancelled() {
    let (cancelled, result) = own_and_foreign();
    result.expect("外部单残留不该导致失败");
    assert_eq!(cancelled, vec!["ex-own".to_string()], "只应撤掉本引擎的那一张");
}

fn stubborn() -> ExchangeError {
    let own = EX.new_cli_order_id();
    let leftover = || vec![order(&own, "ex-own")];
    run_cancel(vec![leftover(), leftover()]).1.expect_err("撤不掉必须报错")
}

#[test]
fn provisioning_still_present_after_cancel_is_an_error() {
    let err = stubborn().message();
    assert!(err.contains("ex-own"), "错误应指明是哪张单: {err}");
}

#[test]
fn manager_still_present_after_cancel_is_an_error() {
    let err = stubborn().message();
    assert!(err.contains("ex-own"), "错误应指明是哪张单: {err}");
}

#[test]
fn a_failed_question_ends_the_cancellation() {
    let mut c = LeftoverCancel::new(EX, SYM.to_string());
    match c.on_fetched(Err(ExchangeError::Other("down".to_string()))) {
        LeftoverStep::Done(Err(e)) => assert_eq!(e.message(), "down"),
        other => panic!("{:?}", other),
    }
}

#[test]
fn own_orders_are_told_apart_by_their_ids() {
    let own = EX.new_cli_order_id();
    let all = vec![order("web_1a2b", "a"), order(&own, "b"), anonymous_order("c")];
    let mine = own_pending_orders(EX, &all);
    assert_eq!(mine.len(), 1);
    assert_eq!(mine[0].order_id, "b");
}

#[test]
fn names_are_told_as_they_are_written_in_a_program() {
    let odd = SubscriptionKind::Candle { symbol: "A\"B\\C\n".to_string(), interval: CandleInterval::Min1 };
    let streams = set(vec![(Exchange::Binance, odd)]);
    let err = validate_subscriptions(&streams, &binance_only(), &metas_with_btc()).unwrap_err();
    assert!(err.contains("Candle { symbol: \"A\\\"B\\\\C\\n\", interval: Min1 }"), "{err}");
}
