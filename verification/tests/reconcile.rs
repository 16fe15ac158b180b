use hft_engine::domain::{AccountId, Exchange, ExchangeError, Fill, FillReason, Position, PositionBaseline};
use hft_engine::domain::{Side, StepFormatter, SymbolMeta, SymbolMetas};
use hft_engine::event::{AccountData, IncomeEvent};
use hft_engine::live::position_reconcile::{PositionReconcileActor, PositionReconcileArgs, Reconciler, StalenessGuard};
use hft_engine::live::position_reconcile::MAX_POLL_STALENESS_MS;
use hft_engine::table::Table;

/// The decimal as a whole number of units of 10^-places.
fn fixed(x: f64, places: usize) -> i128 {
    let text = format!("{}", x);
    let (negative, digits) = match text.strip_prefix('-') {
        Some(rest) => (true, rest.to_string()),
        None => (false, text),
    };
    let (whole, part) = match digits.split_once('.') {
        Some((a, b)) => (a.to_string(), b.to_string()),
        None => (digits, String::new()),
    };
    let mut padded = part;
    while padded.len() < places {
        padded.push('0');
    }
    let n: i128 = format!("{}{}", whole, padded).parse().unwrap();
    if negative {
        -n
    } else {
        n
    }
}

fn coins(x: f64) -> i128 {
    fixed(x, 16)
}

fn price(x: f64) -> i128 {
    fixed(x, 8)
}

const EX: Exchange = Exchange::Binance;
const OTHER_EX: Exchange = Exchange::OKX;
const SYM: &str = "BTC";
const SIZE_STEP: f64 = 0.001;
const SNAPSHOT_TS: u64 = 1;

fn meta(exchange: Exchange, size_step: f64, contract_size: f64) -> SymbolMeta {
    SymbolMeta {
        exchange,
        symbol: SYM.to_string(),
        price_formatter: StepFormatter::new(price(0.1)),
        size_step: fixed(size_step, 8),
        min_order_size: fixed(size_step, 8),
        contract_size: fixed(contract_size, 8),
    }
}

fn metas() -> SymbolMetas {
    let mut t = Table::new();
    for exchange in [EX, OTHER_EX] {
        t.insert((exchange, SYM.to_string()), meta(exchange, SIZE_STEP, 1.0));
    }
    t
}

fn reconciler_with(max_consecutive: u32, baselines: &Vec<PositionBaseline>) -> Reconciler {
    let mut r = Reconciler::new(metas(), max_consecutive);
    r.register(&vec![SYM.to_string()], baselines);
    r
}

fn position(exchange: Exchange, size: f64) -> Position {
    Position { exchange, symbol: SYM.to_string(), size: coins(size) }
}

fn baseline_on(exchange: Exchange, size: f64) -> PositionBaseline {
    PositionBaseline { position: position(exchange, size), snapshot_req_ts: SNAPSHOT_TS }
}

fn fill_on(exchange: Exchange, side: Side, size: f64, local_ts: u64) -> IncomeEvent {
    IncomeEvent::account(
        AccountId::Live,
        local_ts,
        local_ts,
        AccountData::Fill(Fill {
            exchange,
            symbol: SYM.to_string(),
            side,
            price: price(100.0),
            size: coins(size),
            client_order_id: None,
            order_id: "1".to_string(),
            timestamp: local_ts,
            fee: 0,
            reason: FillReason::Normal,
        }),
    )
}

fn fill(side: Side, size: f64) -> IncomeEvent {
    fill_on(EX, side, size, SNAPSHOT_TS + 1)
}

#[test]
fn matching_position_is_not_drift() {
    let mut r = reconciler_with(3, &vec![baseline_on(EX, 2.0)]);
    r.on_event(&fill(Side::Long, 1.0));
    for _ in 0..10 {
        r.reconcile(EX, &vec![position(EX, 3.0)]).unwrap();
    }
}

#[test]
fn diff_within_size_step_is_tolerated() {
    let mut r = reconciler_with(1, &vec![baseline_on(EX, 1.0)]);
    let almost = 1.0 + SIZE_STEP * 0.5;
    r.reconcile(EX, &vec![position(EX, almost)])
        .expect("size_step 之内不应判为漂移");
}

#[test]
fn tolerance_is_coin_denominated_not_raw_size_step() {
    let mut metas = Table::new();
    metas.insert((EX, SYM.to_string()), meta(EX, 1.0, 0.01));
    let mut r = Reconciler::new(metas, 1);
    r.register(&vec![SYM.to_string()], &vec![baseline_on(EX, 1.0)]);
    r.reconcile(EX, &vec![position(EX, 1.005)])
        .expect("小于一个币本位最小增量的差值不该判为漂移");
    r.reconcile(EX, &vec![position(EX, 1.5)])
        .expect_err("0.5 币的差值远超币本位最小增量，必须判为漂移");
}

#[test]
fn drift_is_fatal_only_after_n_consecutive_mismatches() {
    let mut r = reconciler_with(3, &vec![baseline_on(EX, 1.0)]);

    r.reconcile(EX, &vec![position(EX, 5.0)]).unwrap();
    r.reconcile(EX, &vec![position(EX, 5.0)]).unwrap();
    let err = r
        .reconcile(EX, &vec![position(EX, 5.0)])
        .expect_err("连续第 3 次不一致应致命");
    assert!(err.contains("连续 3 次差值稳定的不一致"), "got: {err}");
}

#[test]
fn changing_diff_never_accumulates_into_a_fatal() {
    let mut r = reconciler_with(3, &vec![baseline_on(EX, 1.0)]);
    for reported in [3.0, 7.0, 2.5, 9.0, 4.25, 6.5, 8.75] {
        r.reconcile(EX, &vec![position(EX, reported)])
            .expect("差值在变说明是在途成交，不该判为漂移");
    }
}

#[test]
fn constant_diff_is_detected_even_while_position_keeps_moving() {
    let mut r = reconciler_with(3, &vec![baseline_on(EX, 10.0)]);
    r.reconcile(EX, &vec![position(EX, 8.0)]).unwrap();
    r.on_event(&fill(Side::Long, 1.0));
    r.reconcile(EX, &vec![position(EX, 9.0)]).unwrap();
    r.on_event(&fill(Side::Long, 3.0));
    let err = r
        .reconcile(EX, &vec![position(EX, 12.0)])
        .expect_err("差值恒定即真漂移，持续交易不该把它抹掉");
    assert!(err.contains("本地 14"), "got: {err}");
}

#[test]
fn sign_flip_in_diff_restarts_the_streak() {
    let mut r = reconciler_with(2, &vec![baseline_on(EX, 5.0)]);
    r.reconcile(EX, &vec![position(EX, 8.0)]).unwrap();
    r.reconcile(EX, &vec![position(EX, 2.0)])
        .expect("差值反向不该接着上一次的计数");
    let err = r
        .reconcile(EX, &vec![position(EX, 2.0)])
        .expect_err("同方向连续两次应致命");
    assert!(err.contains("交易所 2"), "got: {err}");
}

#[test]
fn a_single_match_resets_the_streak() {
    let mut r = reconciler_with(3, &vec![baseline_on(EX, 1.0)]);

    r.reconcile(EX, &vec![position(EX, 5.0)]).unwrap();
    r.reconcile(EX, &vec![position(EX, 5.0)]).unwrap();
    r.reconcile(EX, &vec![position(EX, 1.0)]).unwrap();
    r.reconcile(EX, &vec![position(EX, 5.0)]).unwrap();
    r.reconcile(EX, &vec![position(EX, 5.0)])
        .expect("清零后只累计到 2，不应致命");
}

#[test]
fn local_position_absent_from_report_is_drift() {
    let mut r = reconciler_with(1, &vec![baseline_on(EX, 2.0)]);

    let err = r
        .reconcile(EX, &vec![])
        .expect_err("本地有仓而读数为空必须判为漂移");
    assert!(err.contains("交易所 0"), "got: {err}");
}

#[test]
fn unknown_exchange_position_is_drift() {
    let mut r = reconciler_with(1, &vec![baseline_on(EX, 0.0)]);
    let err = r
        .reconcile(EX, &vec![position(EX, 1.5)])
        .expect_err("本地空仓而交易所有仓必须判为漂移");
    assert!(err.contains("本地 0"), "got: {err}");
}

#[test]
fn no_reconciliation_for_unseeded_legs() {
    let mut r = reconciler_with(1, &vec![]);
    for _ in 0..5 {
        r.reconcile(EX, &vec![position(EX, 123.0)])
            .expect("基线未写入的腿不应对账");
    }
    r.register(&vec![SYM.to_string()], &vec![baseline_on(EX, 123.0)]);
    r.reconcile(EX, &vec![position(EX, 123.0)])
        .expect("基线与读数一致");
    let err = r
        .reconcile(EX, &vec![position(EX, 0.0)])
        .expect_err("基线之后出现真实分歧才该报");
    assert!(err.contains("本地 123"), "got: {err}");
}

#[test]
fn fills_covered_by_snapshot_are_not_double_counted() {
    let mut r = reconciler_with(1, &vec![baseline_on(EX, 2.0)]);
    r.on_event(&fill_on(EX, Side::Long, 1.0, SNAPSHOT_TS));
    r.on_event(&fill_on(EX, Side::Long, 4.0, SNAPSHOT_TS + 5));
    r.reconcile(EX, &vec![position(EX, 6.0)])
        .expect("快照已含的 Fill 不该重复累加");
    let err = r
        .reconcile(EX, &vec![position(EX, 7.0)])
        .expect_err("若旧 Fill 也被累加，本地会是 7.0 而这里不会报漂移");
    assert!(err.contains("本地 6"), "got: {err}");
}

#[test]
fn re_registration_never_overwrites_the_mirror() {
    let mut r = reconciler_with(1, &vec![baseline_on(EX, 2.0)]);
    r.on_event(&fill(Side::Long, 1.0));
    r.register(
        &vec![SYM.to_string()],
        &vec![PositionBaseline {
            position: position(EX, 3.0),
            snapshot_req_ts: 100,
        }],
    );
    r.reconcile(EX, &vec![position(EX, 3.0)])
        .expect("镜像应保持 3.0（基线 2.0 + Fill 1.0），与交易所一致");
}

#[test]
fn untracked_symbols_are_ignored() {
    let mut r = reconciler_with(1, &vec![baseline_on(EX, 1.0)]);
    let other_bucket = Position {
        exchange: EX,
        symbol: "ETH".to_string(),
        size: coins(42.0),
    };
    r.reconcile(EX, &vec![position(EX, 1.0), other_bucket])
        .expect("其他桶的 symbol 不该触发漂移");
}

#[test]
fn streaks_are_per_exchange() {
    let mut r = reconciler_with(2, &vec![baseline_on(EX, 1.0), baseline_on(OTHER_EX, 0.0)]);
    r.reconcile(EX, &vec![position(EX, 9.0)]).unwrap();
    r.reconcile(OTHER_EX, &vec![]).unwrap();
    let err = r
        .reconcile(EX, &vec![position(EX, 9.0)])
        .expect_err("同一个所连续两次应致命");
    assert!(err.contains("Binance"), "got: {err}");
}

#[test]
fn per_exchange_legs_are_compared_independently() {
    let mut r = reconciler_with(1, &vec![baseline_on(EX, 1.0), baseline_on(OTHER_EX, -1.0)]);
    r.reconcile(OTHER_EX, &vec![position(OTHER_EX, -1.0)])
        .expect("OKX 腿对得上");
    let err = r
        .reconcile(EX, &vec![position(EX, 4.0)])
        .expect_err("Binance 腿应报漂移");
    assert!(err.contains("Binance"), "got: {err}");
    assert!(!err.contains("OKX"), "不该牵连对得上的 OKX 腿: {err}");
}

#[test]
fn report_never_feeds_the_mirror() {
    let mut r = reconciler_with(2, &vec![baseline_on(EX, 1.0)]);
    r.reconcile(EX, &vec![position(EX, 7.0)]).unwrap();
    let err = r
        .reconcile(EX, &vec![position(EX, 7.0)])
        .expect_err("读数若写进镜像，漂移会被自我抹平");
    assert!(err.contains("本地 1"), "镜像被读数污染了: {err}");
}

#[test]
fn every_leg_that_drifts_is_told() {
    let mut r = reconciler_with(1, &vec![baseline_on(EX, 2.5)]);
    let err = r.reconcile(EX, &vec![position(EX, -0.25)]).unwrap_err();
    assert!(err.contains("BTC"), "{err}");
    assert!(err.contains("2.5"), "{err}");
    assert!(err.contains("-0.25"), "{err}");
}

#[test]
fn silence_is_borne_for_a_while() {
    let mut g = StalenessGuard::new("positions".to_string(), 60_000, 1_000);
    let down = ExchangeError::Other("down".to_string());
    assert_eq!(g.stale_ms(31_000), 30_000);
    assert!(g.check_failure(&down, 61_000).is_ok());
    let err = g.check_failure(&down, 61_001).unwrap_err();
    assert!(err.contains("positions"), "{err}");
    assert!(err.contains("down"), "{err}");
    g.record_success(61_001);
    assert!(g.check_failure(&down, 61_002).is_ok());
    assert_eq!(g.stale_ms(5), 0);
}

fn watch(max_consecutive_mismatches: u32) -> PositionReconcileActor {
    let mut a = PositionReconcileActor::new(
        PositionReconcileArgs {
            exchanges: vec![EX, OTHER_EX],
            symbol_metas: metas(),
            interval_ms: 3_000,
            max_consecutive_mismatches,
        },
        0,
    );
    a.reconciler.register(&vec![SYM.to_string()], &vec![baseline_on(EX, 1.0), baseline_on(OTHER_EX, 0.0)]);
    a
}

#[test]
fn one_venue_going_silent_does_not_hide_the_other() {
    let mut a = watch(1);
    let down = || Err(ExchangeError::Other("down".to_string()));
    assert!(a.poll_and_reconcile(&vec![(EX, Ok(vec![position(EX, 1.0)])), (OTHER_EX, down())], 10).is_ok());
    let err = a
        .poll_and_reconcile(&vec![(EX, Ok(vec![position(EX, 9.0)])), (OTHER_EX, down())], 20)
        .unwrap_err();
    assert!(err.contains("Binance"), "{err}");
}

#[test]
fn a_venue_that_stays_silent_is_a_failure() {
    let mut a = watch(3);
    let down = || Err(ExchangeError::Other("down".to_string()));
    assert!(a.on_reading(OTHER_EX, &down(), MAX_POLL_STALENESS_MS).is_ok());
    assert!(a.on_reading(OTHER_EX, &down(), MAX_POLL_STALENESS_MS + 1).is_err());
    assert!(a.on_reading(OTHER_EX, &Ok(vec![]), MAX_POLL_STALENESS_MS + 2).is_ok());
    assert!(a.on_reading(OTHER_EX, &down(), MAX_POLL_STALENESS_MS + 3).is_ok());
}

#[test]
fn a_reading_changes_neither_the_rules_nor_the_patience() {
    let mut a = watch(2);
    let wrong = || vec![(EX, Ok(vec![position(EX, 9.0)])), (OTHER_EX, Ok(vec![]))];
    let right = || vec![(EX, Ok(vec![position(EX, 1.0)])), (OTHER_EX, Ok(vec![]))];
    for at in [10, 30, 50] {
        assert!(a.poll_and_reconcile(&wrong(), at).is_ok(), "one reading is not enough");
        assert!(a.poll_and_reconcile(&right(), at + 10).is_ok());
    }
    assert!(a.poll_and_reconcile(&wrong(), 70).is_ok());
    assert!(a.poll_and_reconcile(&wrong(), 80).is_err());
}

#[test]
fn registering_again_keeps_a_reading_agreeing() {
    let mut r = reconciler_with(1, &vec![baseline_on(EX, 2.0)]);
    r.reconcile(EX, &vec![position(EX, 2.0)]).unwrap();
    r.register(&vec![SYM.to_string()], &vec![baseline_on(EX, 7.0)]);
    r.reconcile(EX, &vec![position(EX, 2.0)]).unwrap();
    assert!(r.reconcile(EX, &vec![position(EX, 7.0)]).is_err());
}
