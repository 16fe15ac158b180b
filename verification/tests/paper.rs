use hft_engine::domain::{AccountId, Exchange, Fill, Order, OrderStatus, OrderType, OutcomeEvent, Side};
use hft_engine::domain::{StepFormatter, SymbolMeta, SymbolMetas, TimeInForce};
use hft_engine::event::{AccountData, AccountEvent, BBO, MarketData, MarketEvent, MarketTrade, MarkPrice};
use hft_engine::live::paper_counter::{ApplyPlace, CounterRequest, PaperCounterActor, PaperCounterArgs};
use hft_engine::live::AccountOutcome;
use hft_engine::sim::{SimConfig, SimState};
use hft_engine::table::Table;

/// The decimal as a whole number of units of 10^-places.
fn fixed(x: f64, places: usize) -> i128 {
    let text = format!("{}", x);
    let (negative, digits) = match text.strip_prefix('-') {
        Some(rest) => (true, rest.to_string()),
        None => (false, text),
    };
    let (whole, part) = match digits.split_once('.') {
        Some((a, b)) => (a.to_string(), b.to_string()),
        None => (digits, String::new()),
    };
    let mut padded = part;
    while padded.len() < places {
        padded.push('0');
    }
    let n: i128 = format!("{}{}", whole, padded).parse().unwrap();
    if negative {
        -n
    } else {
        n
    }
}

fn coins(x: f64) -> i128 {
    fixed(x, 16)
}

fn price(x: f64) -> i128 {
    fixed(x, 8)
}

fn usd(x: f64) -> i128 {
    fixed(x, 24)
}

const EX: Exchange = Exchange::Binance;
const SYM: &str = "BTC";

fn account() -> AccountId {
    AccountId::Paper(SYM.to_string())
}

fn test_metas() -> SymbolMetas {
    let mut t = Table::new();
    for exchange in [Exchange::Binance, Exchange::OKX] {
        t.insert(
            (exchange, SYM.to_string()),
            SymbolMeta {
                exchange,
                symbol: SYM.to_string(),
                price_formatter: StepFormatter::new(price(0.001)),
                size_step: fixed(0.001, 8),
                min_order_size: fixed(0.001, 8),
                contract_size: fixed(1.0, 8),
            },
        );
    }
    t
}

/// The counter, with a clock of its own that carries requests over the delay.
struct Harness {
    counter: PaperCounterActor,
    events: Vec<AccountEvent>,
    now: u64,
    on_the_way: Vec<(u64, CounterRequest)>,
}

fn order_on(exchange: Exchange, side: Side, at: f64, qty: f64, tif: TimeInForce) -> Order {
    Order {
        id: String::new(),
        exchange,
        symbol: SYM.to_string(),
        side,
        order_type: OrderType::Limit { price: price(at), tif },
        quantity: coins(qty),
        reduce_only: false,
        client_order_id: "c1".to_string(),
    }
}

impl Harness {
    fn new(order_delay_ms: u64) -> Self {
        Self::with_fees(order_delay_ms, 0.0, 0.0)
    }

    fn with_fees(order_delay_ms: u64, maker: f64, taker: f64) -> Self {
        Harness {
            counter: PaperCounterActor::new(PaperCounterArgs {
                config: SimConfig {
                    initial_balance_usdt: usd(10_000.0),
                    maker_fee_rate: fixed(maker, 8),
                    taker_fee_rate: fixed(taker, 8),
                    order_to_exchange_delay_ms: order_delay_ms,
                    exchange_to_strategy_delay_ms: 0,
                },
                symbol_metas: test_metas(),
            }),
            events: Vec::new(),
            now: 0,
            on_the_way: Vec::new(),
        }
    }

    fn market(&mut self, at: u64, data: MarketData) {
        let mut told = self.counter.on_market(&MarketEvent { exchange_ts: at, local_ts: at, data });
        self.events.append(&mut told);
    }

    fn bbo(&mut self, bid: f64, ask: f64) {
        self.market(
            1,
            MarketData::BBO(BBO {
                exchange: EX,
                symbol: SYM.to_string(),
                bid_price: price(bid),
                bid_qty: coins(1.0),
                ask_price: price(ask),
                ask_qty: coins(1.0),
                timestamp: 1,
            }),
        );
    }

    fn trade_on(&mut self, exchange: Exchange, at: f64) {
        self.market(
            2,
            MarketData::MarketTrade(MarketTrade {
                exchange,
                symbol: SYM.to_string(),
                price: price(at),
                qty: coins(1.0),
                is_buyer_maker: false,
                timestamp: 2,
            }),
        );
    }

    fn trade(&mut self, at: f64) {
        self.trade_on(EX, at);
    }

    fn decide(&mut self, event: OutcomeEvent) {
        assert!(self.counter.ids_left() >= 16);
        let requests = self.counter.on_outcome(&AccountOutcome { account: account(), event });
        let due = self.now + self.counter.order_delay_ms();
        for r in requests {
            self.on_the_way.push((due, r));
        }
    }

    fn place(&mut self, side: Side, at: f64, qty: f64) {
        self.place_tif(side, at, qty, TimeInForce::PostOnly);
    }

    fn place_tif(&mut self, side: Side, at: f64, qty: f64, tif: TimeInForce) {
        let orders = vec![order_on(EX, side, at, qty, tif)];
        self.decide(OutcomeEvent::PlaceOrders { orders, comment: "t".to_string() });
    }

    /// Lets time pass, and what is due arrive.
    fn settle(&mut self, ms: u64) {
        self.now += ms;
        let mut later = Vec::new();
        for (due, r) in self.on_the_way.drain(..) {
            if due > self.now {
                later.push((due, r));
                continue;
            }
            let mut told = match r {
                CounterRequest::Place(p) => self.counter.apply_place(&p, due),
                CounterRequest::Cancel(c) => self.counter.apply_cancel(&c, due),
            };
            self.events.append(&mut told);
        }
        self.on_the_way = later;
    }

    fn statuses(&self) -> Vec<OrderStatus> {
        self.events
            .iter()
            .filter_map(|e| match &e.data {
                AccountData::OrderUpdate(u) => Some(u.status.clone()),
                _ => None,
            })
            .collect()
    }

    fn all_fills(&self) -> Vec<Fill> {
        self.events
            .iter()
            .filter_map(|e| match &e.data {
                AccountData::Fill(f) => Some(f.clone()),
                _ => None,
            })
            .collect()
    }

    fn fills(&self) -> Vec<(i128, i128)> {
        self.all_fills().iter().map(|f| (f.price, f.size)).collect()
    }

    fn order_ids(&self) -> Vec<String> {
        self.events
            .iter()
            .filter_map(|e| match &e.data {
                AccountData::OrderUpdate(u) => Some(u.order_id.clone()),
                _ => None,
            })
            .collect()
    }
}

fn done(at: f64, size: f64) -> (i128, i128) {
    (price(at), coins(size))
}

#[test]
fn cross_exchange_trade_never_fills_other_exchanges_order() {
    let mut h = Harness::new(0);
    h.bbo(100.0, 100.1);
    h.place(Side::Long, 99.0, 0.5);
    h.settle(50);
    assert_eq!(h.statuses(), vec![OrderStatus::Pending]);
    h.trade_on(Exchange::OKX, 98.0);
    h.settle(50);
    assert!(h.fills().is_empty(), "OKX 的成交撮合了 Binance 的挂单 —— 跨所串账");
    h.trade(98.0);
    h.settle(50);
    assert_eq!(h.fills(), vec![done(99.0, 0.5)]);
}

#[test]
fn account_info_carries_the_counters_own_exchange() {
    let mut h = Harness::new(0);
    let order = order_on(Exchange::OKX, Side::Long, 99.0, 0.5, TimeInForce::PostOnly);
    h.decide(OutcomeEvent::PlaceOrders { orders: vec![order], comment: "t".to_string() });
    h.settle(50);
    h.market(3, MarketData::Clock);
    h.settle(50);
    let exchanges: Vec<Exchange> = h
        .events
        .iter()
        .filter_map(|e| match &e.data {
            AccountData::AccountInfo { exchange, .. } => Some(*exchange),
            _ => None,
        })
        .collect();
    assert_eq!(exchanges, vec![Exchange::OKX], "净值必须带柜台自己的所，不是写死的 Binance");
}

#[test]
fn fill_is_decided_by_trade_crossing_not_by_quote() {
    let mut h = Harness::new(0);
    h.bbo(100.0, 100.1);
    h.place(Side::Long, 99.0, 0.5);
    h.settle(50);
    assert_eq!(h.statuses(), vec![OrderStatus::Pending]);
    h.bbo(98.0, 98.5);
    h.settle(30);
    assert!(h.fills().is_empty(), "盘口越价不应成交");
    h.trade(98.9);
    h.settle(30);
    assert_eq!(h.fills(), vec![done(99.0, 0.5)]);
    assert!(h.statuses().contains(&OrderStatus::Filled));
}

#[test]
fn undersized_order_is_rejected_like_live() {
    let mut h = Harness::new(0);
    h.bbo(100.0, 100.1);
    h.place(Side::Long, 99.0, 0.0004);
    h.settle(50);
    assert!(
        h.statuses().iter().any(|st| matches!(st, OrderStatus::Rejected { .. })),
        "校验失败必须以 Rejected 终态回报: {:?}",
        h.statuses()
    );
    h.trade(98.0);
    h.settle(30);
    assert!(h.fills().is_empty(), "未通过校验的单不该成交");
}

#[test]
fn trade_qty_budget_yields_partial_fills() {
    let mut h = Harness::new(0);
    h.bbo(100.0, 100.1);
    h.place(Side::Long, 99.0, 7.5);
    h.settle(50);
    h.trade(98.0);
    h.settle(30);
    assert_eq!(h.fills(), vec![done(99.0, 1.0)]);
    assert!(
        h.statuses().contains(&OrderStatus::PartiallyFilled),
        "部分成交必须以 PartiallyFilled 回报: {:?}",
        h.statuses()
    );
    h.trade(98.0);
    h.settle(30);
    assert_eq!(h.fills(), vec![done(99.0, 1.0), done(99.0, 1.0)]);
}

#[test]
fn order_does_not_match_before_delay_elapses() {
    let mut h = Harness::new(300);
    h.bbo(100.0, 100.1);
    h.place(Side::Long, 99.0, 0.5);
    h.settle(60);
    h.trade(98.0);
    h.settle(30);
    assert!(h.statuses().is_empty(), "延迟未到不应有任何回报");
    assert!(h.fills().is_empty(), "延迟未到不应成交");
    h.settle(300);
    assert_eq!(h.statuses(), vec![OrderStatus::Pending]);
    assert!(h.fills().is_empty(), "入簿后还需新的越价成交才成交");
    h.trade(98.0);
    h.settle(30);
    assert_eq!(h.fills(), vec![done(99.0, 0.5)]);
}

#[test]
fn order_crossing_live_quote_on_arrival_fills_as_taker() {
    let mut h = Harness::new(0);
    h.bbo(100.0, 100.1);
    h.place_tif(Side::Long, 101.0, 0.5, TimeInForce::GTC);
    h.settle(50);
    assert_eq!(h.fills(), vec![done(100.1, 0.5)]);
    assert!(h.statuses().contains(&OrderStatus::Filled));
}

#[test]
fn marketability_is_judged_when_delay_elapses_not_at_submit() {
    let mut h = Harness::new(200);
    h.bbo(100.0, 100.1);
    h.place_tif(Side::Long, 100.05, 0.5, TimeInForce::GTC);
    h.settle(60);
    h.bbo(99.9, 100.0);
    assert!(h.statuses().is_empty(), "延迟未到不应有回报");
    h.settle(250);
    assert_eq!(h.fills(), vec![done(100.0, 0.5)], "应按到达时的实时盘口以 taker 成交于对手价 100.0");
}

#[test]
fn order_rests_if_quote_moves_away_during_delay() {
    let mut h = Harness::new(200);
    h.bbo(100.0, 100.1);
    h.place_tif(Side::Long, 100.2, 0.5, TimeInForce::GTC);
    h.settle(60);
    h.bbo(100.5, 100.6);
    h.settle(250);
    assert_eq!(h.statuses(), vec![OrderStatus::Pending], "应改为挂单");
    assert!(h.fills().is_empty());
}

#[test]
fn taker_fill_charges_taker_fee() {
    let mut h = Harness::with_fees(0, 0.0002, 0.0005);
    h.bbo(100.0, 100.1);
    h.place_tif(Side::Long, 101.0, 2.0, TimeInForce::GTC);
    h.settle(50);
    let fee = h.all_fills().first().expect("fill").fee;
    assert_eq!(fee, usd(0.1001), "taker 费率应生效，实得 {fee}");
}

#[test]
fn maker_fill_charges_maker_fee() {
    let mut h = Harness::with_fees(0, 0.0002, 0.0005);
    h.bbo(100.0, 100.1);
    h.place(Side::Short, 101.0, 1.0);
    h.settle(50);
    h.trade(101.5);
    assert_eq!(h.fills(), vec![done(101.0, 1.0)]);
    assert_eq!(h.all_fills()[0].fee, usd(0.0202));
}

#[test]
fn cancel_removes_order_from_book() {
    let mut h = Harness::new(0);
    h.bbo(100.0, 100.1);
    h.place(Side::Long, 99.0, 0.5);
    h.settle(50);
    let order_id = h.order_ids().first().cloned().expect("order id");
    h.decide(OutcomeEvent::CancelOrder {
        exchange: EX,
        symbol: SYM.to_string(),
        order_id,
        client_order_id: "c1".to_string(),
    });
    h.settle(50);
    assert!(h.statuses().contains(&OrderStatus::Cancelled));
    h.trade(98.0);
    h.settle(30);
    assert!(h.fills().is_empty(), "已撤单不应成交");
}

#[test]
fn marketable_post_only_is_rejected() {
    let mut h = Harness::new(0);
    h.bbo(100.0, 100.1);
    h.place(Side::Long, 100.5, 0.5);
    h.settle(50);
    assert!(
        h.statuses().iter().any(|s| matches!(s, OrderStatus::Rejected { .. })),
        "得到 {:?}",
        h.statuses()
    );
    assert!(h.fills().is_empty());
}

#[test]
fn market_events_are_never_republished() {
    let mut h = Harness::new(0);
    h.bbo(100.0, 100.1);
    h.trade(100.0);
    h.market(
        3,
        MarketData::MarkPrice(MarkPrice {
            exchange: EX,
            symbol: SYM.to_string(),
            price: price(100.0),
            timestamp: 3,
        }),
    );
    h.settle(50);
    assert!(h.events.is_empty(), "柜台把行情回显发回了总线");
}

#[test]
fn clock_publishes_account_info_per_account() {
    let mut h = Harness::new(0);
    h.bbo(100.0, 100.1);
    h.place(Side::Long, 99.0, 0.5);
    h.settle(50);
    h.market(5, MarketData::Clock);
    h.settle(30);
    let equity = h.events.iter().find_map(|e| match &e.data {
        AccountData::AccountInfo { equity, .. } => Some(*equity),
        _ => None,
    });
    assert_eq!(equity, Some(usd(10_000.0)));
}

#[test]
fn orders_for_the_real_account_are_left_alone() {
    let mut h = Harness::new(0);
    let requests = h.counter.on_outcome(&AccountOutcome {
        account: AccountId::Live,
        event: OutcomeEvent::PlaceOrders {
            orders: vec![order_on(EX, Side::Long, 1.0, 1.0, TimeInForce::GTC)],
            comment: "t".to_string(),
        },
    });
    assert!(requests.is_empty());
}

#[test]
fn every_order_gets_an_id_of_its_own() {
    let mut h = Harness::new(0);
    let left = h.counter.ids_left();
    h.place(Side::Long, 99.0, 0.5);
    h.place(Side::Long, 98.0, 0.5);
    assert_eq!(h.counter.ids_left(), left - 2);
    h.settle(1);
    let ids = h.order_ids();
    assert_eq!(ids.len(), 2);
    assert_ne!(ids[0], ids[1]);
}

#[test]
fn a_new_counter_knows_the_last_quote() {
    let mut h = Harness::new(0);
    h.bbo(100.0, 100.1);
    let order = order_on(EX, Side::Short, 99.0, 0.5, TimeInForce::IOC);
    let told = h.counter.apply_place(
        &ApplyPlace { account: AccountId::Paper("late".to_string()), order, order_id: "p".to_string() },
        7,
    );
    match &told[0].data {
        AccountData::Fill(f) => assert_eq!((f.price, f.size), done(100.0, 0.5)),
        other => panic!("{other:?}"),
    }
    assert_eq!(told[0].account.name(), AccountId::Paper("late".to_string()).name());
}

fn venue() -> SimState {
    SimState::empty(EX, usd(1_000.0), fixed(0.0002, 8), fixed(0.0005, 8), test_metas())
}

fn quote(bid: f64, ask: f64) -> BBO {
    BBO {
        exchange: EX,
        symbol: SYM.to_string(),
        bid_price: price(bid),
        bid_qty: coins(1.0),
        ask_price: price(ask),
        ask_qty: coins(1.0),
        timestamp: 1,
    }
}

#[test]
fn what_an_account_is_worth() {
    let mut s = venue();
    s.observe_bbo(&quote(100.0, 102.0));
    let mut order = order_on(EX, Side::Long, 103.0, 2.0, TimeInForce::GTC);
    s.on_order_arrived(1, &order, &"a".to_string());
    // 1000 - 2 * 102 - 0.102 + 2 * 101
    assert_eq!(s.equity(), usd(997.898));
    assert_eq!(s.notional(), usd(202.0));
    s.observe_mark(&SYM.to_string(), price(110.0));
    assert_eq!(s.equity(), usd(1015.898));
    assert_eq!(s.notional(), usd(220.0));
    order.side = Side::Short;
    order.order_type = OrderType::Market;
    s.on_order_arrived(2, &order, &"b".to_string());
    // what was spent and taken, and both fees
    assert_eq!(s.equity(), usd(995.798));
    assert_eq!(s.notional(), 0);
}

#[test]
fn orders_share_a_trade_in_the_order_in_which_they_came() {
    let mut s = venue();
    s.observe_bbo(&quote(100.0, 102.0));
    s.on_order_arrived(1, &order_on(EX, Side::Long, 99.0, 0.75, TimeInForce::GTC), &"a".to_string());
    s.on_order_arrived(1, &order_on(EX, Side::Long, 99.0, 0.75, TimeInForce::GTC), &"b".to_string());
    let at_the_price = MarketTrade {
        exchange: EX,
        symbol: SYM.to_string(),
        price: price(99.0),
        qty: coins(1.0),
        is_buyer_maker: true,
        timestamp: 2,
    };
    assert!(s.on_trade(&at_the_price, 2).is_empty(), "a trade at the price does not go through it");
    let through = MarketTrade { price: price(98.5), ..at_the_price };
    let sizes: Vec<(String, i128)> = s
        .on_trade(&through, 3)
        .iter()
        .filter_map(|r| match r {
            AccountData::Fill(f) => Some((f.order_id.clone(), f.size)),
            _ => None,
        })
        .collect();
    assert_eq!(sizes, vec![("a".to_string(), coins(0.75)), ("b".to_string(), coins(0.25))]);
    assert!(s.on_cancel_arrived(&"a".to_string()).is_empty(), "nothing is left of it");
    assert_eq!(s.on_cancel_arrived(&"b".to_string()).len(), 1);
}
