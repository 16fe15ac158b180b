//! How the parts of the engine come up, whom they listen to, and how they go down.

use vstd::prelude::*;
use vstd::string::StringExecFns;
use crate::domain;
use crate::domain::{Exchange, ExchangeError};
use crate::event::{AccountData, AccountEvent};
use crate::live;
use crate::live::{to_live_outlet, to_paper_outlet, AccountOutcome};
use crate::live::income_processor;
use crate::live::income_processor::{drop_id, ActorId};
use crate::subscription::Capabilities;
use crate::table::Table;

verus! {

/// A venue that takes part.
#[derive(Clone, Copy, Debug, PartialEq, Eq, Structural)]
pub struct ExchangeSetup {
    pub exchange: Exchange,
    /// Whether the engine has an account there; without one it can only listen.
    pub has_account: bool,
    pub capabilities: Capabilities,
}

/// The lines along which events travel.
#[derive(Clone, Copy, Debug, PartialEq, Eq, Structural)]
pub enum Bus {
    Market,
    Account,
    Outcome,
}

/// What listens.
#[derive(Clone, Copy, Debug, PartialEq, Eq, Structural)]
pub enum Consumer {
    IncomeProcessor,
    OutcomeProcessor,
    PaperCounter,
    Metrics,
    PositionLedger,
}

/// What a listener wants to hear.
#[derive(Clone, Copy, Debug, PartialEq, Eq, Structural)]
pub enum Interest {
    Everything,
    /// Decisions for the real account.
    LiveOutcomes,
    /// Decisions for simulated accounts.
    PaperOutcomes,
    /// Reports on orders.
    OrderUpdates,
    /// Fills of the real account.
    LiveFills,
}

/// One thing to do on the way up.
#[derive(Clone, Copy, Debug, PartialEq, Eq, Structural)]
pub enum StartStep {
    /// Ask a venue for the rules of its instruments.
    LoadMetas(Exchange),
    StartBus(Bus),
    StartConsumer(Consumer),
    Subscribe(Bus, Consumer, Interest),
    StartClock,
    StartVenue(Exchange),
}

/// Whether an account's event is of interest.
pub open spec fn hears_account(interest: Interest, event: AccountEvent) -> bool {
    match interest {
        Interest::Everything => true,
        Interest::OrderUpdates => event.data is OrderUpdate,
        Interest::LiveFills => event.account is Live && event.data is Fill,
        Interest::LiveOutcomes => false,
        Interest::PaperOutcomes => false,
    }
}

/// Whether a decision is of interest.
pub open spec fn hears_outcome(interest: Interest, outcome: AccountOutcome) -> bool {
    match interest {
        Interest::Everything => true,
        Interest::LiveOutcomes => live::outlet(outcome.account) is Live,
        Interest::PaperOutcomes => live::outlet(outcome.account) is Paper,
        Interest::OrderUpdates => false,
        Interest::LiveFills => false,
    }
}

impl Interest {
    /// Whether an account's event is of interest.
    pub fn takes_account(&self, event: &AccountEvent) -> (b: bool)
        ensures
            b == hears_account(*self, *event),
    {
        match self {
            Interest::Everything => true,
            Interest::OrderUpdates => match &event.data {
                AccountData::OrderUpdate(_) => true,
                _ => false,
            },
            Interest::LiveFills => match &event.data {
                AccountData::Fill(_) => event.account.is_live(),
                _ => false,
            },
            Interest::LiveOutcomes => false,
            Interest::PaperOutcomes => false,
        }
    }

    /// Whether a decision is of interest.
    pub fn takes_outcome(&self, outcome: &AccountOutcome) -> (b: bool)
        ensures
            b == hears_outcome(*self, *outcome),
    {
        match self {
            Interest::Everything => true,
            Interest::LiveOutcomes => to_live_outlet(outcome),
            Interest::PaperOutcomes => to_paper_outlet(outcome),
            Interest::OrderUpdates => false,
            Interest::LiveFills => false,
        }
    }
}

/// No venue takes part twice.
pub open spec fn distinct_venues(setups: Seq<ExchangeSetup>) -> bool {
    forall|i: int, j: int| 0 <= i < j < setups.len() ==> (#[trigger] setups[i]).exchange != (#[trigger] setups[j]).exchange
}

/// How it is told that a venue would take part twice.
pub open spec fn twice_text(exchange: Exchange) -> Seq<char> {
    domain::exchange_name(exchange) + " 被装配了两次（bin 侧重复 push 同一交易所的 setup），拒绝启动"@
}

/// Whether a venue stands earlier in the list.
pub open spec fn earlier(setups: Seq<ExchangeSetup>, n: int, exchange: Exchange) -> bool {
    exists|i: int| 0 <= i < n && (#[trigger] setups[i]).exchange == exchange
}

/// The first venue that comes a second time.
pub open spec fn is_first_repeat(setups: Seq<ExchangeSetup>, k: int) -> bool {
    &&& 0 <= k < setups.len()
    &&& earlier(setups, k, setups[k].exchange)
    &&& forall|j: int| 0 <= j < k ==> !earlier(setups, j, (#[trigger] setups[j]).exchange)
}

/// Whether the error tells of the first venue that comes a second time.
pub open spec fn refuses(setups: Seq<ExchangeSetup>, e: ExchangeError) -> bool {
    exists|k: int|
        #[trigger] is_first_repeat(setups, k) && (e matches ExchangeError::Other(s) && s@ == twice_text(
            setups[k].exchange,
        ))
}

/// Refuses a venue that would take part twice: everything it says would count twice.
pub fn check_setups(setups: &Vec<ExchangeSetup>) -> (res: Result<(), ExchangeError>)
    ensures
        match res {
            Ok(()) => distinct_venues(setups@),
            Err(e) => refuses(setups@, e),
        },
        res is Ok <==> distinct_venues(setups@),
{
    let mut i: usize = 0;
    while i < setups.len()
        invariant
            i <= setups.len(),
            forall|j: int| 0 <= j < i ==> !earlier(setups@, j, (#[trigger] setups@[j]).exchange),
        decreases setups.len() - i,
    {
        let mut j: usize = 0;
        while j < i
            invariant
                j <= i < setups.len(),
                forall|k: int| 0 <= k < i ==> !earlier(setups@, k, (#[trigger] setups@[k]).exchange),
                forall|k: int| 0 <= k < j ==> (#[trigger] setups@[k]).exchange != setups@[i as int].exchange,
            decreases i - j,
        {
            if setups[j].exchange == setups[i].exchange {
                let mut s = setups[i].exchange.name().to_owned();
                s.append(" 被装配了两次（bin 侧重复 push 同一交易所的 setup），拒绝启动");
                assert(is_first_repeat(setups@, i as int));
                return Err(ExchangeError::Other(s));
            }
            j = j + 1;
        }
        i = i + 1;
    }
    assert forall|i: int, j: int| 0 <= i < j < setups@.len() implies (#[trigger] setups@[i]).exchange != (#[trigger] setups@[j]).exchange by {
        if setups@[i].exchange == setups@[j].exchange {
            assert(earlier(setups@, j, setups@[j].exchange));
        }
    }
    Ok(())
}

/// The questions for the rules.
pub open spec fn loading(setups: Seq<ExchangeSetup>) -> Seq<StartStep> {
    Seq::new(setups.len(), |i: int| StartStep::LoadMetas(setups[i].exchange))
}

/// The venues' starts.
pub open spec fn connecting(setups: Seq<ExchangeSetup>) -> Seq<StartStep> {
    Seq::new(setups.len(), |i: int| StartStep::StartVenue(setups[i].exchange))
}

/// What comes up between the two, whatever the venues are.
pub open spec fn wiring() -> Seq<StartStep> {
    seq![
        StartStep::StartBus(Bus::Market),
        StartStep::StartBus(Bus::Account),
        StartStep::StartBus(Bus::Outcome),
        StartStep::StartConsumer(Consumer::IncomeProcessor),
        StartStep::Subscribe(Bus::Market, Consumer::IncomeProcessor, Interest::Everything),
        StartStep::Subscribe(Bus::Account, Consumer::IncomeProcessor, Interest::Everything),
        StartStep::StartConsumer(Consumer::OutcomeProcessor),
        StartStep::Subscribe(Bus::Outcome, Consumer::OutcomeProcessor, Interest::LiveOutcomes),
        StartStep::Subscribe(Bus::Account, Consumer::OutcomeProcessor, Interest::OrderUpdates),
        StartStep::StartConsumer(Consumer::PaperCounter),
        StartStep::Subscribe(Bus::Outcome, Consumer::PaperCounter, Interest::PaperOutcomes),
        StartStep::Subscribe(Bus::Market, Consumer::PaperCounter, Interest::Everything),
        StartStep::StartConsumer(Consumer::Metrics),
        StartStep::Subscribe(Bus::Market, Consumer::Metrics, Interest::Everything),
        StartStep::Subscribe(Bus::Account, Consumer::Metrics, Interest::Everything),
        StartStep::StartConsumer(Consumer::PositionLedger),
        StartStep::Subscribe(Bus::Account, Consumer::PositionLedger, Interest::LiveFills),
        StartStep::StartClock,
    ]
}

/// All steps on the way up.
pub open spec fn startup_plan(setups: Seq<ExchangeSetup>) -> Seq<StartStep> {
    loading(setups) + wiring() + connecting(setups)
}

/// The steps on the way up. The venues themselves come up last, all at once.
pub fn startup(setups: &Vec<ExchangeSetup>) -> (res: Result<Vec<StartStep>, ExchangeError>)
    ensures
        match res {
            Ok(v) => v@ == startup_plan(setups@),
            Err(e) => refuses(setups@, e),
        },
        res is Ok <==> distinct_venues(setups@),
{
    match check_setups(setups) {
        Err(e) => {
            return Err(e);
        },
        Ok(()) => {},
    }
    let mut v: Vec<StartStep> = Vec::new();
    let mut i: usize = 0;
    while i < setups.len()
        invariant
            i <= setups.len(),
            v@.len() == i,
            forall|j: int| 0 <= j < i ==> #[trigger] v@[j] == loading(setups@)[j],
        decreases setups.len() - i,
    {
        v.push(StartStep::LoadMetas(setups[i].exchange));
        i = i + 1;
    }
    assert(v@ =~= loading(setups@));
    v.push(StartStep::StartBus(Bus::Market));
    v.push(StartStep::StartBus(Bus::Account));
    v.push(StartStep::StartBus(Bus::Outcome));
    v.push(StartStep::StartConsumer(Consumer::IncomeProcessor));
    v.push(StartStep::Subscribe(Bus::Market, Consumer::IncomeProcessor, Interest::Everything));
    v.push(StartStep::Subscribe(Bus::Account, Consumer::IncomeProcessor, Interest::Everything));
    v.push(StartStep::StartConsumer(Consumer::OutcomeProcessor));
    v.push(StartStep::Subscribe(Bus::Outcome, Consumer::OutcomeProcessor, Interest::LiveOutcomes));
    v.push(StartStep::Subscribe(Bus::Account, Consumer::OutcomeProcessor, Interest::OrderUpdates));
    v.push(StartStep::StartConsumer(Consumer::PaperCounter));
    v.push(StartStep::Subscribe(Bus::Outcome, Consumer::PaperCounter, Interest::PaperOutcomes));
    v.push(StartStep::Subscribe(Bus::Market, Consumer::PaperCounter, Interest::Everything));
    v.push(StartStep::StartConsumer(Consumer::Metrics));
    v.push(StartStep::Subscribe(Bus::Market, Consumer::Metrics, Interest::Everything));
    v.push(StartStep::Subscribe(Bus::Account, Consumer::Metrics, Interest::Everything));
    v.push(StartStep::StartConsumer(Consumer::PositionLedger));
    v.push(StartStep::Subscribe(Bus::Account, Consumer::PositionLedger, Interest::LiveFills));
    v.push(StartStep::StartClock);
    let ghost so_far = loading(setups@) + wiring();
    assert(v@ =~= so_far);
    i = 0;
    while i < setups.len()
        invariant
            i <= setups.len(),
            v@.len() == so_far.len() + i,
            forall|j: int| 0 <= j < so_far.len() ==> #[trigger] v@[j] == so_far[j],
            forall|j: int| so_far.len() <= j < so_far.len() + i ==> #[trigger] v@[j] == connecting(setups@)[j - so_far.len()],
        decreases setups.len() - i,
    {
        v.push(StartStep::StartVenue(setups[i].exchange));
        i = i + 1;
    }
    assert(v@ =~= startup_plan(setups@));
    Ok(v)
}

/// Whether something says things of its own accord.
pub open spec fn speaks(step: StartStep) -> bool {
    step is StartClock || step is StartVenue
}

/// Nobody misses the first word: whoever listens does so before anything speaks.
pub proof fn listeners_are_there_first(setups: Seq<ExchangeSetup>, i: int, j: int)
    requires
        0 <= i < startup_plan(setups).len(),
        0 <= j < startup_plan(setups).len(),
        startup_plan(setups)[i] is Subscribe,
        speaks(startup_plan(setups)[j]),
    ensures
        i < j,
{
    let p = startup_plan(setups);
    let n = setups.len() as int;
    let m = wiring().len() as int;
    lemma_wiring(i - n);
    lemma_wiring(j - n);
    if i < n {
        assert(p[i] == loading(setups)[i]);
    } else if i < n + m {
        assert(p[i] == wiring()[i - n]);
    } else {
        assert(p[i] == connecting(setups)[i - n - m]);
    }
    if j < n {
        assert(p[j] == loading(setups)[j]);
    } else if j < n + m {
        assert(p[j] == wiring()[j - n]);
    } else {
        assert(p[j] == connecting(setups)[j - n - m]);
    }
}

proof fn lemma_wiring(i: int)
    ensures
        wiring().len() == 18,
        0 <= i < 18 ==> (speaks(wiring()[i]) <==> i == 17),
{
    let w = wiring();
    if 0 <= i < 18 {
        if i < 9 {
            assert(i == 0 || i == 1 || i == 2 || i == 3 || i == 4 || i == 5 || i == 6 || i == 7 || i == 8);
        } else {
            assert(i == 9 || i == 10 || i == 11 || i == 12 || i == 13 || i == 14 || i == 15 || i == 16 || i == 17);
        }
    }
}

/// A decision is heard by exactly one of those who carry decisions out.
pub proof fn a_decision_is_heard_once(o: AccountOutcome)
    ensures
        hears_outcome(Interest::LiveOutcomes, o) != hears_outcome(Interest::PaperOutcomes, o),
{
}

/// What happens on a simulated account never reaches the ledger of real positions.
pub proof fn simulated_fills_stay_out_of_the_ledger(event: AccountEvent)
    requires
        event.account is Paper,
    ensures
        !hears_account(Interest::LiveFills, event),
{
}

/// The venues on which the engine has an account.
pub open spec fn account_venues(setups: Seq<ExchangeSetup>) -> Set<Exchange> {
    Set::new(|e: Exchange| exists|i: int| 0 <= i < setups.len() && (#[trigger] setups[i]).exchange == e && setups[i].has_account)
}

/// The venues on which the engine has an account.
pub fn accounts_of(setups: &Vec<ExchangeSetup>) -> (t: Table<Exchange, ()>)
    ensures
        t@.dom() == account_venues(setups@),
{
    let mut t: Table<Exchange, ()> = Table::new();
    let mut i: usize = 0;
    assert(t@.dom() =~= account_venues(setups@.take(0)));
    while i < setups.len()
        invariant
            i <= setups.len(),
            t@.dom() == account_venues(setups@.take(i as int)),
        decreases setups.len() - i,
    {
        let ghost was = t@.dom();
        let ghost seen = setups@.take(i as int);
        let ghost now = setups@.take(i + 1);
        let s = setups[i];
        if s.has_account {
            t.insert(s.exchange, ());
        }
        proof {
            assert forall|e: Exchange| #[trigger] t@.dom().contains(e) == account_venues(now).contains(e) by {
                if account_venues(seen).contains(e) {
                    let k = choose|k: int| 0 <= k < seen.len() && (#[trigger] seen[k]).exchange == e && seen[k].has_account;
                    assert(now[k].exchange == e);
                }
                if account_venues(now).contains(e) {
                    let k = choose|k: int| 0 <= k < now.len() && (#[trigger] now[k]).exchange == e && now[k].has_account;
                    if k < i {
                        assert(seen[k].exchange == e);
                    }
                }
                assert(now[i as int] == s);
            }
            assert(t@.dom() =~= account_venues(now));
        }
        i = i + 1;
    }
    assert(setups@.take(i as int) =~= setups@);
    t
}

/// What the venues' adapters carry; of two setups of a venue, the later counts.
pub open spec fn carried(setups: Seq<ExchangeSetup>) -> Map<Exchange, Capabilities>
    decreases setups.len(),
{
    if setups.len() == 0 {
        Map::empty()
    } else {
        carried(setups.drop_last()).insert(setups.last().exchange, setups.last().capabilities)
    }
}

/// What the venues' adapters carry.
pub fn capabilities_of(setups: &Vec<ExchangeSetup>) -> (t: Table<Exchange, Capabilities>)
    ensures
        t@ == carried(setups@),
{
    let mut t: Table<Exchange, Capabilities> = Table::new();
    let mut i: usize = 0;
    assert(t@ =~= carried(setups@.take(0)));
    while i < setups.len()
        invariant
            i <= setups.len(),
            t@ == carried(setups@.take(i as int)),
        decreases setups.len() - i,
    {
        assert(setups@.take(i + 1).drop_last() =~= setups@.take(i as int));
        t.insert(setups[i].exchange, setups[i].capabilities);
        i = i + 1;
    }
    assert(setups@.take(i as int) =~= setups@);
    t
}

/// Why a part stopped.
#[derive(Clone, Copy, Debug, PartialEq, Eq, Structural)]
pub enum StopReason {
    /// It was asked to.
    Normal,
    Killed,
    Panicked,
    /// A part that it depends on stopped.
    LinkDied,
}

/// What the engine does when a part has stopped.
#[derive(Clone, Copy, Debug, PartialEq, Eq, Structural)]
pub enum AfterStop {
    Continue,
    /// The engine stops too, and says which part took it down and why.
    Break(ActorId, StopReason),
}

/// What the engine does when a part has stopped: it goes on if the part was asked to stop, and
/// stops too if anything else ended the part.
pub fn on_link_died(id: ActorId, reason: StopReason) -> (r: AfterStop)
    ensures
        r == (if reason is Normal {
            AfterStop::Continue
        } else {
            AfterStop::Break(id, reason)
        }),
{
    match reason {
        StopReason::Normal => AfterStop::Continue,
        _ => AfterStop::Break(id, reason),
    }
}

/// The parts that are running, by the place they have in the flow of events.
pub struct Children {
    /// Those who speak: venues, the clock and the strategies.
    pub producers: Vec<ActorId>,
    pub buses: Vec<ActorId>,
    /// Those who listen.
    pub consumers: Vec<ActorId>,
}

impl Children {
    /// No parts.
    pub fn new() -> (c: Self)
        ensures
            c.producers@.len() == 0,
            c.buses@.len() == 0,
            c.consumers@.len() == 0,
    {
        Children { producers: Vec::new(), buses: Vec::new(), consumers: Vec::new() }
    }

    /// Forgets a strategy that has stopped.
    pub fn remove_producer(&mut self, id: ActorId)
        ensures
            final(self).producers@ == income_processor::without(old(self).producers@, id),
            final(self).buses == old(self).buses,
            final(self).consumers == old(self).consumers,
    {
        self.producers = drop_id(&self.producers, id);
    }

    /// The groups in the order in which they stop, each only when the one before has stopped.
    /// That is the way events flow, so none gets lost between two groups.
    pub fn shutdown(self) -> (groups: Vec<Vec<ActorId>>)
        ensures
            groups@ == seq![self.producers, self.buses, self.consumers],
    {
        let mut groups: Vec<Vec<ActorId>> = Vec::new();
        groups.push(self.producers);
        groups.push(self.buses);
        groups.push(self.consumers);
        assert(groups@ =~= seq![self.producers, self.buses, self.consumers]);
        groups
    }
}

/// Who hears of an account's event: those who hear all, those who follow reports if it is one, and those
/// who follow the real account's fills if it is one of these.
pub proof fn account_events_are_heard_by_interest(event: AccountEvent)
    ensures
        hears_account(Interest::Everything, event),
        hears_account(Interest::OrderUpdates, event) <==> event.data is OrderUpdate,
        hears_account(Interest::LiveFills, event) <==> event.data is Fill && event.account is Live,
        !hears_account(Interest::LiveOutcomes, event),
        !hears_account(Interest::PaperOutcomes, event),
{
}

/// Who hears of a decision: those who hear all, and those who carry out what the account's kind of
/// account decides.
pub proof fn decisions_are_heard_by_account(outcome: AccountOutcome)
    ensures
        hears_outcome(Interest::Everything, outcome),
        hears_outcome(Interest::LiveOutcomes, outcome) <==> outcome.account is Live,
        hears_outcome(Interest::PaperOutcomes, outcome) <==> outcome.account is Paper,
        !hears_outcome(Interest::OrderUpdates, outcome),
        !hears_outcome(Interest::LiveFills, outcome),
{
}

/// Every venue's rules are loaded before anything starts, and every venue is connected after all else,
/// in the order in which they were set up.
pub proof fn every_venue_is_loaded_and_connected(setups: Seq<ExchangeSetup>, i: int)
    requires
        0 <= i < setups.len(),
    ensures
        ({
            let steps = startup_plan(setups);
            let n = setups.len() as int;
            &&& steps.len() >= 2 * n
            &&& steps[i] == StartStep::LoadMetas(setups[i].exchange)
            &&& steps[steps.len() - n + i] == StartStep::StartVenue(setups[i].exchange)
            &&& forall|k: int| n <= k < steps.len() - n ==> !(#[trigger] steps[k] is LoadMetas) && !(steps[k] is StartVenue)
        }),
{
}

/// Everyone hears what they live on: whoever routes events hears all of the market and of the accounts,
/// the gateway the real account's decisions and all reports, the simulated counter the simulated
/// accounts' decisions and the market, the metrics both, and the ledger the real account's fills.
pub proof fn everyone_hears_what_they_need(setups: Seq<ExchangeSetup>)
    ensures
        startup_plan(setups).contains(StartStep::Subscribe(Bus::Market, Consumer::IncomeProcessor, Interest::Everything)),
        startup_plan(setups).contains(StartStep::Subscribe(Bus::Account, Consumer::IncomeProcessor, Interest::Everything)),
        startup_plan(setups).contains(StartStep::Subscribe(Bus::Outcome, Consumer::OutcomeProcessor, Interest::LiveOutcomes)),
        startup_plan(setups).contains(StartStep::Subscribe(Bus::Account, Consumer::OutcomeProcessor, Interest::OrderUpdates)),
        startup_plan(setups).contains(StartStep::Subscribe(Bus::Outcome, Consumer::PaperCounter, Interest::PaperOutcomes)),
        startup_plan(setups).contains(StartStep::Subscribe(Bus::Market, Consumer::PaperCounter, Interest::Everything)),
        startup_plan(setups).contains(StartStep::Subscribe(Bus::Market, Consumer::Metrics, Interest::Everything)),
        startup_plan(setups).contains(StartStep::Subscribe(Bus::Account, Consumer::Metrics, Interest::Everything)),
        startup_plan(setups).contains(StartStep::Subscribe(Bus::Account, Consumer::PositionLedger, Interest::LiveFills)),
        startup_plan(setups).contains(StartStep::StartClock),
{
    let n = setups.len() as int;
    let steps = startup_plan(setups);
    assert forall|k: int| 0 <= k < wiring().len() implies steps.contains(#[trigger] wiring()[k]) by {
        assert(steps[n + k] == wiring()[k]);
    }
    assert(steps.contains(wiring()[4]));
    assert(steps.contains(wiring()[5]));
    assert(steps.contains(wiring()[7]));
    assert(steps.contains(wiring()[8]));
    assert(steps.contains(wiring()[10]));
    assert(steps.contains(wiring()[11]));
    assert(steps.contains(wiring()[13]));
    assert(steps.contains(wiring()[14]));
    assert(steps.contains(wiring()[16]));
    assert(steps.contains(wiring()[17]));
}

/// Nobody is subscribed before they and the bus are there.
pub proof fn nobody_is_subscribed_before_they_are_there(setups: Seq<ExchangeSetup>, i: int)
    requires
        0 <= i < startup_plan(setups).len(),
        startup_plan(setups)[i] is Subscribe,
    ensures
        exists|j: int|
            0 <= j < i && #[trigger] startup_plan(setups)[j] == StartStep::StartConsumer(
                startup_plan(setups)[i]->Subscribe_1,
            ),
        exists|j: int|
            0 <= j < i && #[trigger] startup_plan(setups)[j] == StartStep::StartBus(startup_plan(setups)[i]->Subscribe_0),
{
    let n = setups.len() as int;
    let steps = startup_plan(setups);
    assert(n <= i < n + wiring().len());
    assert(steps[i] == wiring()[i - n]);
    assert forall|k: int| 0 <= k < wiring().len() implies #[trigger] steps[n + k] == wiring()[k] by {}
    assert(steps[n + 0] == StartStep::StartBus(Bus::Market));
    assert(steps[n + 1] == StartStep::StartBus(Bus::Account));
    assert(steps[n + 2] == StartStep::StartBus(Bus::Outcome));
    assert(steps[n + 3] == StartStep::StartConsumer(Consumer::IncomeProcessor));
    assert(steps[n + 6] == StartStep::StartConsumer(Consumer::OutcomeProcessor));
    assert(steps[n + 9] == StartStep::StartConsumer(Consumer::PaperCounter));
    assert(steps[n + 12] == StartStep::StartConsumer(Consumer::Metrics));
    assert(steps[n + 15] == StartStep::StartConsumer(Consumer::PositionLedger));
}

/// What a venue carries is what it was last set up with, and a venue that was not set up carries nothing.
pub proof fn a_venue_carries_what_it_was_set_up_with(setups: Seq<ExchangeSetup>, i: int, exchange: Exchange)
    ensures
        0 <= i < setups.len() && setups[i].exchange == exchange && (forall|j: int|
            i < j < setups.len() ==> (#[trigger] setups[j]).exchange != exchange) ==> carried(setups).dom().contains(
            exchange,
        ) && carried(setups)[exchange] == setups[i].capabilities,
        (forall|j: int| 0 <= j < setups.len() ==> (#[trigger] setups[j]).exchange != exchange)
            ==> !carried(setups).dom().contains(exchange),
    decreases setups.len(),
{
    if setups.len() > 0 {
        let rest = setups.drop_last();
        a_venue_carries_what_it_was_set_up_with(rest, i, exchange);
        assert(setups[setups.len() - 1] == setups.last());
        assert forall|j: int| 0 <= j < rest.len() implies rest[j] == #[trigger] setups[j] by {}
    }
}

/// Setups are refused exactly when a venue comes twice, and the refusal names it.
pub proof fn a_venue_set_up_twice_is_named(setups: Seq<ExchangeSetup>, e: ExchangeError)
    requires
        refuses(setups, e),
    ensures
        !distinct_venues(setups),
        exists|i: int, j: int|
            0 <= i < j < setups.len() && (#[trigger] setups[i]).exchange == (#[trigger] setups[j]).exchange
                && crate::text::has_prefix(domain::error_text(e), domain::exchange_name(setups[j].exchange)),
{
    let k = choose|k: int|
        #[trigger] is_first_repeat(setups, k) && (e matches ExchangeError::Other(s) && s@ == twice_text(
            setups[k].exchange,
        ));
    assert(earlier(setups, k, setups[k].exchange));
    let i = choose|i: int| 0 <= i < k && (#[trigger] setups[i]).exchange == setups[k].exchange;
    let name = domain::exchange_name(setups[k].exchange);
    assert(twice_text(setups[k].exchange).take(name.len() as int) =~= name);
    assert(setups[i].exchange == setups[k].exchange);
}

/// A venue has an account exactly when one of its setups says so.
pub proof fn a_venue_has_an_account_as_set_up(setups: Seq<ExchangeSetup>, exchange: Exchange)
    ensures
        account_venues(setups).contains(exchange) <==> exists|i: int|
            0 <= i < setups.len() && (#[trigger] setups[i]).exchange == exchange && setups[i].has_account,
{
}

} // verus!
