use hft_engine::domain::{AccountId, Exchange, ExchangeError, Order, OrderStatus, OrderType, OrderUpdate};
use hft_engine::domain::{OutcomeEvent, RejectReason, Side, StepFormatter, SymbolMeta, SymbolMetas, TimeInForce};
use hft_engine::event::{AccountData, IncomeEvent};
use hft_engine::live::outcome_processor::{cancel_recheck_verdict, live_requests, CancelRecheckVerdict};
use hft_engine::live::outcome_processor::{CancelStep, ExchangeOrder, LiveRequest, OrderGateway, PlaceStep};
use hft_engine::live::outcome_processor::PlaceVerdict;
use hft_engine::live::AccountOutcome;
use hft_engine::table::Table;

/// The decimal as a whole number of units of 10^-places.
fn fixed(x: f64, places: usize) -> i128 {
    let text = format!("{}", x);
    let (negative, digits) = match text.strip_prefix('-') {
        Some(rest) => (true, rest.to_string()),
        None => (false, text),
    };
    let (whole, part) = match digits.split_once('.') {
        Some((a, b)) => (a.to_string(), b.to_string()),
        None => (digits, String::new()),
    };
    let mut padded = part;
    while padded.len() < places {
        padded.push('0');
    }
    let n: i128 = format!("{}{}", whole, padded).parse().unwrap();
    if negative {
        -n
    } else {
        n
    }
}

fn coins(x: f64) -> i128 {
    fixed(x, 16)
}

fn price(x: f64) -> i128 {
    fixed(x, 8)
}

const EX: Exchange = Exchange::Binance;
const SYM: &str = "BTC";
const CID: &str = "x-test-1";

fn lots(x: f64) -> i128 {
    fixed(x, 8)
}

fn open_order(order_id: &str, client_order_id: Option<&str>) -> OrderUpdate {
    OrderUpdate {
        order_id: order_id.to_string(),
        client_order_id: client_order_id.map(str::to_string),
        exchange: EX,
        symbol: SYM.to_string(),
        side: Side::Long,
        status: OrderStatus::Pending,
        quantity: coins(1.0),
    }
}

fn meta() -> SymbolMeta {
    SymbolMeta {
        exchange: EX,
        symbol: SYM.to_string(),
        price_formatter: StepFormatter::new(price(0.1)),
        size_step: lots(0.001),
        min_order_size: lots(0.001),
        contract_size: lots(1.0),
    }
}

fn metas() -> SymbolMetas {
    let mut t = Table::new();
    t.insert((EX, SYM.to_string()), meta());
    t
}

fn order() -> Order {
    Order {
        id: String::new(),
        exchange: EX,
        symbol: SYM.to_string(),
        side: Side::Short,
        order_type: OrderType::Limit { price: price(100.0), tif: TimeInForce::GTC },
        quantity: coins(1.0),
        reduce_only: true,
        client_order_id: CID.to_string(),
    }
}

fn gateway() -> OrderGateway {
    OrderGateway::new(&vec![EX], metas(), false)
}

fn is_error(report: &Option<OrderUpdate>) -> bool {
    match report {
        Some(u) => matches!(u.status, OrderStatus::Error { .. }),
        None => false,
    }
}

#[test]
fn still_open_is_detected_by_client_order_id_even_with_empty_order_id() {
    let open = vec![open_order("777", Some("x-abc"))];
    assert_eq!(
        cancel_recheck_verdict(&open, "", "x-abc"),
        CancelRecheckVerdict::StillOpen,
        "空 order_id 时活单被误判为已终态 —— 会清掉活单的 pending，策略重复下单"
    );
}

#[test]
fn still_open_is_detected_by_order_id_fallback() {
    let open = vec![open_order("777", None)];
    assert_eq!(cancel_recheck_verdict(&open, "777", "x-abc"), CancelRecheckVerdict::StillOpen);
}

#[test]
fn anonymous_open_order_with_empty_order_id_is_unverifiable() {
    let open = vec![open_order("777", None)];
    assert_eq!(
        cancel_recheck_verdict(&open, "", "x-abc"),
        CancelRecheckVerdict::Unverifiable,
        "匿名挂单可能就是本单，判 Gone 会误清活单"
    );
}

#[test]
fn gone_only_when_all_open_orders_are_identifiable_and_none_match() {
    let open = vec![open_order("888", Some("x-other"))];
    assert_eq!(cancel_recheck_verdict(&open, "777", "x-abc"), CancelRecheckVerdict::Gone);
    assert_eq!(cancel_recheck_verdict(&vec![], "", "x-abc"), CancelRecheckVerdict::Gone);
}

fn sent(id: &str) -> (OrderGateway, Order) {
    let mut g = gateway();
    let mut o = order();
    o.client_order_id = id.to_string();
    assert!(matches!(g.place(&o), PlaceStep::Send(_)));
    (g, o)
}

fn failed() -> Result<String, ExchangeError> {
    Err(ExchangeError::Other("503".to_string()))
}

#[test]
fn late_rest_failure_is_dropped_when_exchange_already_reported() {
    let (mut g, o) = sent("c-1");
    g.ack(&"c-1".to_string());
    assert!(
        !is_error(&g.place_reply(&o, &failed()).report),
        "交易所已回报过，迟到的 REST 失败不该再上报"
    );
}

#[test]
fn rest_failure_is_reported_when_exchange_never_spoke() {
    let (mut g, o) = sent("c-2");
    assert!(
        is_error(&g.place_reply(&o, &failed()).report),
        "交易所从未回报，REST 失败就是结论，必须上报"
    );
}

#[test]
fn a_single_order_is_judged_at_most_once() {
    let (mut g, o) = sent("c-3");
    assert!(is_error(&g.place_reply(&o, &failed()).report));
    assert!(!is_error(&g.place_reply(&o, &failed()).report), "已判过的单不该再次上报");
}

#[test]
fn rest_accept_is_accepted() {
    let (mut g, o) = sent(CID);
    let r = g.place_reply(&o, &Ok("ex-1".to_string()));
    assert_eq!(r.verdict, Ok(PlaceVerdict::Accepted));
    assert!(!is_error(&r.report), "受理成功不该发失败回报");
}

#[test]
fn reduce_only_closed_is_already_closed() {
    let (mut g, o) = sent(CID);
    let r = g.place_reply(&o, &Err(ExchangeError::OrderRejected(EX, RejectReason::ReduceOnlyClosed)));
    assert_eq!(r.verdict, Ok(PlaceVerdict::ReduceOnlyAlreadyClosed));
    assert!(is_error(&r.report), "策略侧仍需 Error 回报清 pending");
}

#[test]
fn pure_rest_failure_is_err_with_feedback() {
    let (mut g, o) = sent(CID);
    let r = g.place_reply(&o, &Err(ExchangeError::Other("boom".to_string())));
    assert_eq!(r.verdict, Err("boom".to_string()), "真失败必须是 Err: {:?}", r.verdict);
    assert!(is_error(&r.report), "真失败必须反馈 Error 回报");
}

#[test]
fn ws_report_during_rest_flight_is_exchange_spoke_not_success() {
    let (mut g, o) = sent(CID);
    let report = IncomeEvent::account(
        AccountId::Live,
        1,
        1,
        AccountData::OrderUpdate(open_order("9", Some(CID))),
    );
    g.on_event(&report);
    let r = g.place_reply(&o, &Err(ExchangeError::Other("late 503".to_string())));
    assert_eq!(
        r.verdict,
        Ok(PlaceVerdict::ExchangeSpoke),
        "交易所已表态但内容未知 —— 不是成功，也不是可上报的失败"
    );
    assert!(!is_error(&r.report), "交易所已回报过，迟到的 REST 失败不该再发假 Error");
}

#[test]
fn orders_go_out_in_lots_at_quoted_prices() {
    let okx = SymbolMeta {
        exchange: Exchange::OKX,
        symbol: SYM.to_string(),
        price_formatter: StepFormatter::new(price(0.1)),
        size_step: lots(1.0),
        min_order_size: lots(1.0),
        contract_size: lots(0.01),
    };
    let mut o = order();
    o.exchange = Exchange::OKX;
    o.quantity = coins(0.125);
    o.order_type = OrderType::Limit { price: price(62500.17), tif: TimeInForce::PostOnly };
    let wire = ExchangeOrder::from_domain(&o, &okx).unwrap();
    assert_eq!(wire.lots, lots(12.0));
    assert_eq!(wire.order_type, OrderType::Limit { price: price(62500.2), tif: TimeInForce::PostOnly });
    o.quantity = coins(0.009);
    assert_eq!(
        ExchangeOrder::from_domain(&o, &okx).unwrap_err(),
        "OKX/BTC: order quantity rounds down to zero"
    );
    let strict = SymbolMeta { min_order_size: lots(5.0), ..okx.clone() };
    o.quantity = coins(0.04);
    assert_eq!(
        ExchangeOrder::from_domain(&o, &strict).unwrap_err(),
        "OKX/BTC: order quantity is below the minimum order size"
    );
    let broken = SymbolMeta { contract_size: 0, ..okx };
    assert_eq!(
        ExchangeOrder::from_domain(&o, &broken).unwrap_err(),
        "OKX/BTC: contract size is not positive"
    );
}

#[test]
fn an_order_that_cannot_be_sent_is_told() {
    let mut g = gateway();
    let mut o = order();
    o.exchange = Exchange::OKX;
    match g.place(&o) {
        PlaceStep::Refused { reason, report } => {
            assert_eq!(reason, "No client found for exchange OKX");
            assert_eq!(report.status, OrderStatus::Error { reason: reason.clone() });
            assert_eq!(report.client_order_id, Some(CID.to_string()));
        }
        other => panic!("{:?}", other),
    }
    let mut o = order();
    o.symbol = "ETH".to_string();
    match g.place(&o) {
        PlaceStep::Refused { reason, .. } => assert_eq!(
            reason,
            "No SymbolMeta for Binance/ETH, cannot convert order quantity to exchange unit"
        ),
        other => panic!("{:?}", other),
    }
    let mut dry = OrderGateway::new(&vec![EX], metas(), true);
    assert!(matches!(dry.place(&order()), PlaceStep::DryRun));
}

#[test]
fn cancellations() {
    let g = gateway();
    assert!(matches!(g.cancel(EX), CancelStep::Send));
    match g.cancel(Exchange::IBKR) {
        CancelStep::Refused { reason } => assert_eq!(reason, "No client found for cancel_order on IBKR"),
        other => panic!("{:?}", other),
    }
    let dry = OrderGateway::new(&vec![EX], metas(), true);
    assert!(matches!(dry.cancel(EX), CancelStep::DryRun));
    let (sym, id, cid) = (SYM.to_string(), "777".to_string(), "x-abc".to_string());
    let done = g.cancel_accepted(EX, &sym, &id, &cid);
    assert_eq!(done.verdict, Ok(()));
    assert_eq!(done.report.unwrap().status, OrderStatus::Cancelled);
    let e = ExchangeError::Other("no".to_string());
    let gone = g.cancel_failed(EX, &sym, &id, &cid, &e, &Ok(vec![]));
    assert_eq!(gone.verdict, Ok(()));
    assert_eq!(gone.report.unwrap().status, OrderStatus::Cancelled);
    let open = g.cancel_failed(EX, &sym, &id, &cid, &e, &Ok(vec![open_order("777", None)]));
    assert_eq!(open.verdict, Err("撤单失败且订单仍挂在交易所: no".to_string()));
    assert!(open.report.is_none());
    let anon = g.cancel_failed(EX, &sym, &String::new(), &cid, &e, &Ok(vec![open_order("777", None)]));
    assert_eq!(anon.verdict, Err("撤单失败且无法核实订单是否仍挂着: no".to_string()));
    let blind = g.cancel_failed(EX, &sym, &id, &cid, &e, &Err(ExchangeError::Other("down".to_string())));
    assert_eq!(blind.verdict, Err("撤单失败（no）且复查也失败（down）".to_string()));
}

#[test]
fn only_decisions_for_the_real_account_become_requests() {
    let place = |account: AccountId| AccountOutcome {
        account,
        event: OutcomeEvent::PlaceOrders { orders: vec![order(), order()], comment: String::new() },
    };
    assert_eq!(live_requests(&place(AccountId::Live)).len(), 2);
    assert!(live_requests(&place(AccountId::Paper("BTC".to_string()))).is_empty());
    let cancel = AccountOutcome {
        account: AccountId::Live,
        event: OutcomeEvent::CancelOrder {
            exchange: EX,
            symbol: SYM.to_string(),
            order_id: "7".to_string(),
            client_order_id: CID.to_string(),
        },
    };
    let requests = live_requests(&cancel);
    assert_eq!(requests.len(), 1);
    assert!(matches!(&requests[0], LiveRequest::Cancel { .. }));
}
