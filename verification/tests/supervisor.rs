use hft_engine::domain::{AccountId, Exchange, Fill, FillReason, Side, Timestamp};
use hft_engine::event::{AccountData, AccountEvent};
use hft_engine::live::supervisor::policy::{AnyPolicy, Decision, NeverPromote, PromotionPolicy, SymbolPerformance};
use hft_engine::live::supervisor::record::{Ratio, SymbolRecord};
use hft_engine::live::supervisor::{SupervisorActor, SupervisorArgs, Transition};

/// The decimal as a whole number of units of 10^-places.
fn fixed(x: f64, places: usize) -> i128 {
    let text = format!("{}", x);
    let (negative, digits) = match text.strip_prefix('-') {
        Some(rest) => (true, rest.to_string()),
        None => (false, text),
    };
    let (whole, part) = match digits.split_once('.') {
        Some((a, b)) => (a.to_string(), b.to_string()),
        None => (digits, String::new()),
    };
    let mut padded = part;
    while padded.len() < places {
        padded.push('0');
    }
    let n: i128 = format!("{}{}", whole, padded).parse().unwrap();
    if negative {
        -n
    } else {
        n
    }
}

fn coins(x: f64) -> i128 {
    fixed(x, 16)
}

fn price(x: f64) -> i128 {
    fixed(x, 8)
}

fn usd(x: f64) -> i128 {
    fixed(x, 24)
}

const SYM: &str = "BTC";

fn fill(side: Side, at: f64, size: f64, fee: f64, ts: Timestamp) -> Fill {
    Fill {
        exchange: Exchange::Binance,
        symbol: SYM.to_string(),
        side,
        price: price(at),
        size: coins(size),
        client_order_id: None,
        order_id: "1".to_string(),
        timestamp: ts,
        fee: usd(fee),
        reason: FillReason::Normal,
    }
}

fn record() -> SymbolRecord {
    SymbolRecord::new(SYM.to_string(), 8)
}

#[test]
fn open_then_close_yields_one_round_trip_net_of_fees() {
    let mut r = record();
    assert!(r.apply_fill(&fill(Side::Long, 100.0, 1.0, 0.1, 10)).is_none());
    assert!(!r.is_flat());
    let trip = r.apply_fill(&fill(Side::Short, 101.0, 1.0, 0.1, 20)).expect("往返完成");
    assert_eq!(trip.net_pnl, usd(0.8));
    assert_eq!(trip.fills, 2);
    assert_eq!(trip.opened_at, 10);
    assert_eq!(trip.closed_at, 20);
    assert_eq!(trip.open_notional, usd(100.0));
    assert!(r.is_flat());
    assert_eq!(r.realized_pnl(), usd(0.8));
}

#[test]
fn losing_round_trip_is_recorded() {
    let mut r = record();
    r.apply_fill(&fill(Side::Long, 100.0, 1.0, 0.0, 1));
    let trip = r.apply_fill(&fill(Side::Short, 99.0, 1.0, 0.0, 2)).unwrap();
    assert_eq!(trip.net_pnl, usd(-1.0));
    let Ratio { numerator, denominator } = trip.return_on_notional();
    assert_eq!(numerator * 100, -denominator, "-0.01");
}

#[test]
fn partial_scaling_counts_as_single_round_trip() {
    let mut r = record();
    assert!(r.apply_fill(&fill(Side::Long, 100.0, 1.0, 0.0, 1)).is_none());
    assert!(r.apply_fill(&fill(Side::Long, 102.0, 1.0, 0.0, 2)).is_none());
    assert!(r.apply_fill(&fill(Side::Short, 103.0, 1.0, 0.0, 3)).is_none());
    let trip = r.apply_fill(&fill(Side::Short, 103.0, 1.0, 0.0, 4)).unwrap();
    assert_eq!(trip.net_pnl, usd(4.0));
    assert_eq!(trip.fills, 4);
    assert_eq!(trip.open_notional, usd(202.0));
}

#[test]
fn short_side_round_trip_is_symmetric() {
    let mut r = record();
    r.apply_fill(&fill(Side::Short, 100.0, 1.0, 0.0, 1));
    let trip = r.apply_fill(&fill(Side::Long, 99.0, 1.0, 0.0, 2)).unwrap();
    assert_eq!(trip.net_pnl, usd(1.0), "做空下跌应盈利");
}

#[test]
fn round_trips_are_capped_but_realized_pnl_is_not() {
    let mut r = SymbolRecord::new(SYM.to_string(), 2);
    for i in 0..4u64 {
        r.apply_fill(&fill(Side::Long, 100.0, 1.0, 0.0, i * 10));
        r.apply_fill(&fill(Side::Short, 101.0, 1.0, 0.0, i * 10 + 1));
    }
    assert_eq!(r.round_trips().len(), 2);
    assert_eq!(r.round_trips()[0].opened_at, 20, "只保留最近两次");
    assert_eq!(r.realized_pnl(), usd(4.0), "累计盈亏含全部 4 次");
}

#[test]
fn tiny_float_residual_is_treated_as_flat() {
    let mut r = record();
    r.apply_fill(&fill(Side::Long, 100.0, 0.1, 0.0, 1));
    r.apply_fill(&fill(Side::Long, 100.0, 0.2, 0.0, 2));
    let trip = r.apply_fill(&fill(Side::Short, 100.0, 0.3, 0.0, 3));
    assert!(trip.is_some(), "0.1+0.2-0.3 的残差必须视为空仓");
    assert!(r.is_flat());
    assert_eq!(r.position(), coins(0.0));
}

#[test]
fn a_residue_is_flat_up_to_the_epsilon() {
    let mut r = record();
    r.apply_fill(&fill(Side::Long, 100.0, 1.0, 0.0, 1));
    let mut rest = fill(Side::Short, 100.0, 1.0, 0.0, 2);
    rest.size = rest.size - 10_000;
    assert!(r.apply_fill(&rest).is_some());
    assert_eq!(r.position(), 0);
    let mut r = record();
    r.apply_fill(&fill(Side::Long, 100.0, 1.0, 0.0, 1));
    rest.size = rest.size - 1;
    assert!(r.apply_fill(&rest).is_none());
    assert_eq!(r.position(), 10_001);
}

#[test]
fn never_promote_holds_regardless_of_profit() {
    let symbol = SYM.to_string();
    let mut paper = SymbolRecord::new(symbol.clone(), 8);
    paper.apply_fill(&fill(Side::Long, 100.0, 1.0, 0.0, 1));
    paper.apply_fill(&fill(Side::Short, 110.0, 1.0, 0.0, 2));
    assert!(paper.realized_pnl() > 0);
    let view = SymbolPerformance { symbol: &symbol, paper: &paper, live: None, live_since: None, now: 100 };
    assert_eq!(NeverPromote.decide(&view), Decision::Hold);
}

struct CountingPolicy {
    calls: u32,
}

impl PromotionPolicy for CountingPolicy {
    fn decide(&mut self, _view: &SymbolPerformance<'_>) -> Decision {
        self.calls += 1;
        if self.calls >= 3 {
            Decision::Promote
        } else {
            Decision::Hold
        }
    }
}

#[test]
fn policy_may_accumulate_its_own_state_across_calls() {
    let symbol = SYM.to_string();
    let paper = SymbolRecord::new(symbol.clone(), 8);
    let mut policy = CountingPolicy { calls: 0 };
    let view = || SymbolPerformance { symbol: &symbol, paper: &paper, live: None, live_since: None, now: 0 };
    assert_eq!(policy.decide(&view()), Decision::Hold);
    assert_eq!(policy.decide(&view()), Decision::Hold);
    assert_eq!(policy.decide(&view()), Decision::Promote);
}

#[test]
fn live_view_exposes_elapsed_time_and_record() {
    let symbol = SYM.to_string();
    let paper = SymbolRecord::new(symbol.clone(), 8);
    let live = SymbolRecord::new(symbol.clone(), 8);
    let view = SymbolPerformance {
        symbol: &symbol,
        paper: &paper,
        live: Some(&live),
        live_since: Some(1_000),
        now: 61_000,
    };
    assert!(view.is_live());
    assert_eq!(view.live_elapsed_ms(), 60_000);
    assert_eq!(view.live.map(|r| r.realized_pnl()), Some(usd(0.0)));
}

#[test]
fn live_elapsed_is_zero_when_not_live() {
    let symbol = SYM.to_string();
    let paper = SymbolRecord::new(symbol.clone(), 8);
    let view = SymbolPerformance { symbol: &symbol, paper: &paper, live: None, live_since: None, now: 1_000 };
    assert!(!view.is_live());
    assert_eq!(view.live_elapsed_ms(), 0);
}

/// Wants an instrument live as long as its simulation has made money.
struct Profit;

impl PromotionPolicy for Profit {
    fn decide(&mut self, view: &SymbolPerformance<'_>) -> Decision {
        if view.is_live() {
            match view.live {
                Some(r) if r.realized_pnl() < 0 => Decision::Demote,
                _ => Decision::Hold,
            }
        } else if view.paper.realized_pnl() > 0 {
            Decision::Promote
        } else {
            Decision::Hold
        }
    }
}

fn told(account: AccountId, f: Fill) -> AccountEvent {
    AccountEvent { account, exchange_ts: f.timestamp, local_ts: f.timestamp, data: AccountData::Fill(f) }
}

#[test]
fn an_instrument_goes_live_and_comes_back() {
    let sym = SYM.to_string();
    let mut s = SupervisorActor::new(SupervisorArgs {
        symbols: vec![sym.clone(), "ETH".to_string()],
        exchange: Exchange::Binance,
        policy: AnyPolicy::new(Box::new(Profit)),
    });
    let started = s.start_all_paper();
    assert_eq!(started.len(), 2);
    assert_eq!(started[0].1.name(), SupervisorActor::paper_account(&sym).name());
    assert!(started[0].1.is_paper());
    assert!(s.consider(&sym, 5).transition.is_none());

    s.record_fill(&told(AccountId::Paper(SYM.to_string()), fill(Side::Long, 100.0, 1.0, 0.0, 1)));
    s.record_fill(&told(AccountId::Paper(SYM.to_string()), fill(Side::Short, 110.0, 1.0, 0.0, 2)));
    let shown = s.performance(&sym, 10).unwrap();
    assert_eq!(shown.symbol, SYM);
    assert_eq!(shown.paper.realized_pnl(), usd(10.0));
    assert!(!shown.is_live() && shown.now == 10);
    match s.consider(&sym, 10).transition {
        Some(Transition::Promote(symbol)) => assert_eq!(symbol, SYM),
        _ => panic!("a profitable instrument goes live"),
    }
    assert!(s.performance(&sym, 11).is_none());
    assert!(s.consider(&sym, 11).transition.is_none(), "nothing is asked twice");
    assert!(s.consider(&"ETH".to_string(), 11).transition.is_none());
    s.promoted(&sym, false, 12);
    assert!(matches!(s.consider(&sym, 13).transition, Some(Transition::Promote(_))), "a failed attempt is made again");
    s.promoted(&sym, true, 14);
    let held = s.consider(&sym, 15);
    assert!(held.transition.is_none() && !held.ignored);
    assert_eq!(held.decision, Some(Decision::Hold));

    s.record_fill(&told(AccountId::Live, fill(Side::Long, 100.0, 1.0, 0.0, 20)));
    s.record_fill(&told(AccountId::Live, fill(Side::Short, 90.0, 1.0, 0.0, 21)));
    match s.consider(&sym, 22).transition {
        Some(Transition::Demote(removal)) => {
            assert!(removal.account.is_live());
            assert_eq!(removal.symbols, vec![sym.clone()]);
            assert_eq!(removal.exchange, Exchange::Binance);
            assert!(removal.flatten);
        }
        _ => panic!("a losing instrument leaves"),
    }
    s.demoted(&sym, true);
    assert!(matches!(s.consider(&sym, 24).transition, Some(Transition::Promote(_))));
    assert!(s.consider(&"XRP".to_string(), 25).transition.is_none());
}

#[test]
fn decisions_that_contradict_the_standing_are_ignored() {
    let sym = SYM.to_string();
    let mut s = SupervisorActor::new(SupervisorArgs {
        symbols: vec![sym.clone()],
        exchange: Exchange::Binance,
        policy: AnyPolicy::new(Box::new(NeverPromote)),
    });
    assert!(s.act(&sym, Decision::Demote).is_none());
    assert!(matches!(s.act(&sym, Decision::Promote), Some(Transition::Promote(_))));
    s.promoted(&sym, true, 1);
    assert!(s.act(&sym, Decision::Promote).is_none());
    assert!(matches!(s.act(&sym, Decision::Demote), Some(Transition::Demote(_))));
    s.demoted(&sym, false);
    assert!(s.act(&sym, Decision::Promote).is_none(), "an instrument that would not leave is still live");
}

#[test]
fn a_flat_record_has_realized_what_its_trips_earned() {
    let mut r = record();
    let mut earned = 0;
    for (i, close) in [110.0, 95.0, 101.0].iter().enumerate() {
        let at = 10 * i as Timestamp;
        assert!(r.apply_fill(&fill(Side::Long, 100.0, 1.0, 0.5, at + 1)).is_none());
        let trip = r.apply_fill(&fill(Side::Short, *close, 1.0, 0.5, at + 2)).expect("a trip");
        earned += trip.net_pnl;
    }
    assert!(r.is_flat());
    assert_eq!(r.realized_pnl(), earned);
    assert_eq!(earned, usd(3.0));
}

/// Keeps what it is shown.
struct Watcher {
    seen: std::sync::Arc<std::sync::Mutex<Vec<(String, i128, bool, Timestamp)>>>,
}

impl PromotionPolicy for Watcher {
    fn decide(&mut self, view: &SymbolPerformance<'_>) -> Decision {
        let shown = (view.symbol.clone(), view.paper.realized_pnl(), view.is_live(), view.now);
        self.seen.lock().unwrap().push(shown);
        Decision::Promote
    }
}

#[test]
fn a_policy_is_shown_the_instrument_and_its_record() {
    let sym = SYM.to_string();
    let seen = std::sync::Arc::new(std::sync::Mutex::new(Vec::new()));
    let mut s = SupervisorActor::new(SupervisorArgs {
        symbols: vec![sym.clone()],
        exchange: Exchange::Binance,
        policy: AnyPolicy::new(Box::new(Watcher { seen: seen.clone() })),
    });
    s.record_fill(&told(AccountId::Paper(SYM.to_string()), fill(Side::Long, 100.0, 1.0, 0.0, 1)));
    s.record_fill(&told(AccountId::Paper(SYM.to_string()), fill(Side::Short, 110.0, 1.0, 0.0, 2)));
    assert!(matches!(s.consider(&sym, 9).transition, Some(Transition::Promote(_))));
    assert!(s.consider(&sym, 10).transition.is_none(), "it is not asked while the instrument changes over");
    assert!(s.consider(&"XRP".to_string(), 11).transition.is_none());
    assert_eq!(*seen.lock().unwrap(), vec![(sym, usd(10.0), false, 9)]);
}

/// Always wants the same.
struct Stubborn(Decision);

impl PromotionPolicy for Stubborn {
    fn decide(&mut self, _view: &SymbolPerformance<'_>) -> Decision {
        self.0
    }
}

#[test]
fn a_contradictory_decision_is_told() {
    let sym = SYM.to_string();
    let supervise = |decision: Decision| {
        SupervisorActor::new(SupervisorArgs {
            symbols: vec![sym.clone()],
            exchange: Exchange::Binance,
            policy: AnyPolicy::new(Box::new(Stubborn(decision))),
        })
    };
    let mut s = supervise(Decision::Demote);
    let told = s.consider(&sym, 1);
    assert_eq!((told.decision, told.ignored), (Some(Decision::Demote), true));
    assert!(told.transition.is_none());
    let mut s = supervise(Decision::Promote);
    let told = s.consider(&sym, 1);
    assert!(!told.ignored && told.transition.is_some());
    assert_eq!(s.decide(&sym, 2), None, "it is not asked while the instrument changes over");
    s.promoted(&sym, true, 3);
    assert_eq!(s.decide(&sym, 4), Some(Decision::Promote));
    assert!(s.ignores(&sym, Decision::Promote) && !s.ignores(&sym, Decision::Demote));
    assert!(s.consider(&sym, 5).ignored);
    assert!(!s.ignores(&sym, Decision::Hold));
    assert!(!s.ignores(&"XRP".to_string(), Decision::Promote));
}
