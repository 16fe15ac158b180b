//! Decides which instruments trade for real.
//!
//! Every instrument trades in simulation all the time. When the policy says so it also trades for
//! real, until the policy says otherwise. The supervisor keeps the records, asks the policy, and
//! asks for what it decides; only when that has been done does the record change.

use vstd::prelude::*;
use crate::domain::{AccountId, Exchange, Symbol, Timestamp};
use crate::event::{AccountData, AccountEvent};
use crate::live::manager::RemoveStrategies;
use crate::live::supervisor::policy::{AnyPolicy, Decision, Shown};
use crate::live::supervisor::policy::SymbolPerformance;
use crate::live::supervisor::record::{RecordModel, SymbolRecord};
use crate::scope;
use crate::table::{Key, Table};

pub mod policy;
pub mod record;

verus! {

/// How many round trips are kept of each instrument.
pub const DEFAULT_ROUND_TRIP_CAPACITY: usize = 512;

/// Where an instrument stands.
#[verifier::ext_equal]
pub struct Standing {
    pub paper: RecordModel,
    /// Some, while the instrument trades for real.
    pub live: Option<RecordModel>,
    pub live_since: Option<Timestamp>,
    /// Whether a change has been asked for and not been answered.
    pub in_transition: bool,
}

/// An instrument that trades in simulation only, and has not traded yet.
pub open spec fn unproven(symbol: Symbol) -> Standing {
    Standing {
        paper: record::untraded(symbol, DEFAULT_ROUND_TRIP_CAPACITY),
        live: None,
        live_since: None,
        in_transition: false,
    }
}

/// Where an instrument stands.
struct SymbolState {
    paper: SymbolRecord,
    live: Option<SymbolRecord>,
    live_since: Option<Timestamp>,
    in_transition: bool,
}

impl View for SymbolState {
    type V = Standing;

    closed spec fn view(&self) -> Standing {
        Standing {
            paper: self.paper@,
            live: match self.live {
                Some(r) => Some(r@),
                None => None,
            },
            live_since: self.live_since,
            in_transition: self.in_transition,
        }
    }
}

impl SymbolState {
    fn new(symbol: &Symbol) -> (s: Self)
        ensures
            s@ == unproven(*symbol),
    {
        SymbolState {
            paper: SymbolRecord::new(symbol.clone(), DEFAULT_ROUND_TRIP_CAPACITY),
            live: None,
            live_since: None,
            in_transition: false,
        }
    }
}

/// What the supervisor starts from.
pub struct SupervisorArgs {
    pub symbols: Vec<Symbol>,
    /// Where instruments trade for real.
    pub exchange: Exchange,
    pub policy: AnyPolicy,
}

/// What the supervisor asks for.
#[derive(Debug)]
pub enum Transition {
    /// A strategy for the instrument on the real account.
    Promote(Symbol),
    /// The end of the instrument's strategy on the real account.
    Demote(RemoveStrategies),
}

/// What is to be done about a decision. One that contradicts where the instrument stands asks for
/// nothing.
pub open spec fn asks_for(s: Standing, d: Decision) -> Decision {
    match d {
        Decision::Promote => if s.live is None {
            Decision::Promote
        } else {
            Decision::Hold
        },
        Decision::Demote => if s.live is Some {
            Decision::Demote
        } else {
            Decision::Hold
        },
        Decision::Hold => Decision::Hold,
    }
}

/// Whether this is what is asked for.
pub open spec fn is_request(t: Option<Transition>, asked: Decision, symbol: Seq<char>, exchange: Exchange) -> bool {
    match asked {
        Decision::Hold => t is None,
        Decision::Promote => t matches Some(Transition::Promote(s)) && s@ == symbol,
        Decision::Demote => t matches Some(Transition::Demote(msg)) && msg.account is Live
            && msg.symbols@.len() == 1 && msg.symbols@[0]@ == symbol && msg.exchange == exchange
            && msg.flatten,
    }
}

/// The standings after one changes.
pub open spec fn standing_set(
    m: Map<Seq<char>, Standing>,
    symbol: Seq<char>,
    s: Standing,
) -> Map<Seq<char>, Standing> {
    if m.dom().contains(symbol) {
        m.insert(symbol, s)
    } else {
        m
    }
}

/// A fill goes into the record of its account: the simulated one always, the real one while the
/// instrument trades for real.
pub open spec fn fill_recorded(s: Standing, account: AccountId, fill: crate::domain::Fill) -> Standing {
    match account {
        AccountId::Paper(_) => Standing { paper: record::after_fill(s.paper, fill), ..s },
        AccountId::Live => match s.live {
            Some(live) => Standing { live: Some(record::after_fill(live, fill)), ..s },
            None => s,
        },
    }
}

/// An instrument has been put on the real account, or has not.
pub open spec fn promotion_answered(s: Standing, symbol: Symbol, done: bool, now: Timestamp) -> Standing {
    if done {
        Standing {
            live: Some(record::untraded(symbol, DEFAULT_ROUND_TRIP_CAPACITY)),
            live_since: Some(now),
            in_transition: false,
            ..s
        }
    } else {
        Standing { in_transition: false, ..s }
    }
}

/// An instrument has been taken off the real account, or may still be on it.
pub open spec fn demotion_answered(s: Standing, done: bool) -> Standing {
    if done {
        Standing { live: None, live_since: None, in_transition: false, ..s }
    } else {
        Standing { in_transition: false, ..s }
    }
}

spec fn standings(m: Map<Seq<char>, SymbolState>) -> Map<Seq<char>, Standing> {
    m.map_values(|s: SymbolState| s@)
}

/// What a policy is told of where an instrument stands.
pub open spec fn shown_of(s: Standing, symbol: Seq<char>, now: Timestamp) -> Shown {
    Shown { symbol, paper: s.paper, live: s.live, live_since: s.live_since, now }
}

fn shown<'a>(states: &'a Table<Symbol, SymbolState>, symbol: &'a Symbol, now: Timestamp) -> (view: Option<
    SymbolPerformance<'a>,
>)
    ensures
        view is Some == (states@.dom().contains(symbol@) && !states@[symbol@]@.in_transition),
        view matches Some(v) ==> v@ == shown_of(states@[symbol@]@, symbol@, now),
{
    match states.get(symbol) {
        None => None,
        Some(state) => if state.in_transition {
            None
        } else {
            Some(
                SymbolPerformance {
                    symbol,
                    paper: &state.paper,
                    live: state.live.as_ref(),
                    live_since: state.live_since,
                    now,
                },
            )
        },
    }
}

/// Whether a decision contradicts where an instrument stands: it is to go where it is.
pub open spec fn contradicts(s: Standing, d: Decision) -> bool {
    d !is Hold && asks_for(s, d) is Hold
}

/// What came of asking the policy about an instrument.
pub struct Considered {
    /// What the policy decided, if it was asked.
    pub decision: Option<Decision>,
    /// Whether that contradicts where the instrument stands.
    pub ignored: bool,
    /// What is to be done.
    pub transition: Option<Transition>,
}

/// A decision is carried out or told to be ignored, never both: none is dropped unseen.
pub proof fn no_decision_is_dropped_unseen(s: Standing, d: Decision)
    ensures
        (asks_for(s, d) == d) != contradicts(s, d),
{
}

/// Decides which instruments trade for real.
pub struct SupervisorActor {
    symbols: Vec<Symbol>,
    exchange: Exchange,
    states: Table<Symbol, SymbolState>,
    policy: AnyPolicy,
}

impl SupervisorActor {
    /// Where the instruments stand.
    pub closed spec fn standings(&self) -> Map<Seq<char>, Standing> {
        standings(self.states@)
    }

    /// Where instruments trade for real.
    pub closed spec fn venue(&self) -> Exchange {
        self.exchange
    }

    /// The instruments, in the order in which the policy is asked about them.
    pub closed spec fn list(&self) -> Seq<Symbol> {
        self.symbols@
    }

    /// Whether the policy may decide this on an instrument that stands so, after it has been asked `k`
    /// more times.
    pub closed spec fn may_decide(&self, k: nat, shown: Shown, d: Decision) -> bool {
        self.policy.may_decide(k, shown, d)
    }

    /// No instrument trades for real.
    pub fn new(args: SupervisorArgs) -> (s: Self)
        ensures
            s.list() == args.symbols@,
            s.venue() == args.exchange,
            forall|k: nat, shown: Shown, d: Decision| #[trigger] s.may_decide(k, shown, d) == args.policy.may_decide(k, shown, d),
            forall|name: Seq<char>| #[trigger] s.standings().dom().contains(name) == scope::listed(args.symbols@, name),
            forall|i: int| 0 <= i < args.symbols@.len() ==> s.standings()[(#[trigger] args.symbols@[i])@].paper.symbol@ == args.symbols@[i]@,
            forall|name: Seq<char>| #[trigger] s.standings().dom().contains(name) ==> exists|symbol: Symbol| symbol@ == name && s.standings()[name] == #[trigger] unproven(symbol),
    {
        let mut states: Table<Symbol, SymbolState> = Table::new();
        let mut i: usize = 0;
        assert forall|name: Seq<char>| #[trigger] standings(states@).dom().contains(name) == scope::listed(args.symbols@.take(0), name) by {}
        while i < args.symbols.len()
            invariant
                i <= args.symbols.len(),
                forall|name: Seq<char>| #[trigger] standings(states@).dom().contains(name) == scope::listed(args.symbols@.take(i as int), name),
                forall|name: Seq<char>| #[trigger] standings(states@).dom().contains(name) ==> exists|symbol: Symbol| symbol@ == name && standings(states@)[name] == #[trigger] unproven(symbol),
            decreases args.symbols.len() - i,
        {
            let ghost was = states@;
            let symbol = &args.symbols[i];
            states.insert(symbol.clone(), SymbolState::new(symbol));
            proof {
                let done = args.symbols@.take(i as int);
                assert(args.symbols@.take(i + 1) =~= done.push(*symbol));
                scope::lemma_listed_push(done, *symbol);
                assert(standings(states@) =~= standings(was).insert(symbol@, unproven(*symbol)));
                assert forall|name: Seq<char>| #[trigger] standings(states@).dom().contains(name) == scope::listed(args.symbols@.take(i + 1), name) by {
                    assert(scope::listed(done.push(*symbol), name) == (scope::listed(done, name) || name == symbol@));
                }
                assert forall|name: Seq<char>| #[trigger] standings(states@).dom().contains(name) implies exists|x: Symbol| x@ == name && standings(states@)[name] == #[trigger] unproven(x) by {
                    if name == symbol@ {
                        assert(standings(states@)[name] == unproven(*symbol));
                    } else {
                        assert(standings(was).dom().contains(name));
                    }
                }
            }
            i = i + 1;
        }
        assert(args.symbols@.take(i as int) =~= args.symbols@);
        assert forall|i: int| 0 <= i < args.symbols@.len() implies standings(states@)[(#[trigger] args.symbols@[i])@].paper.symbol@ == args.symbols@[i]@ by {
            assert(scope::listed(args.symbols@, args.symbols@[i]@));
            assert(standings(states@).dom().contains(args.symbols@[i]@));
        }
        SupervisorActor { symbols: args.symbols, exchange: args.exchange, states, policy: args.policy }
    }

    /// The simulated account of an instrument: every instrument has its own.
    pub fn paper_account(symbol: &Symbol) -> (a: AccountId)
        ensures
            a == AccountId::Paper(*symbol),
    {
        AccountId::Paper(symbol.clone())
    }

    /// The strategies to start with: each instrument, on its simulated account.
    pub fn start_all_paper(&self) -> (v: Vec<(Symbol, AccountId)>)
        ensures
            v@.len() == self.list().len(),
            forall|i: int| 0 <= i < v@.len() ==> #[trigger] v@[i] == (self.list()[i], AccountId::Paper(self.list()[i])),
    {
        let mut v: Vec<(Symbol, AccountId)> = Vec::new();
        let mut i: usize = 0;
        while i < self.symbols.len()
            invariant
                i <= self.symbols.len(),
                v@.len() == i,
                forall|j: int| 0 <= j < i ==> #[trigger] v@[j] == (self.symbols@[j], AccountId::Paper(self.symbols@[j])),
            decreases self.symbols.len() - i,
        {
            v.push((self.symbols[i].clone(), Self::paper_account(&self.symbols[i])));
            i = i + 1;
        }
        v
    }

    /// Takes in an account's event: a fill of an instrument that is supervised goes into the
    /// account's record, and nothing else changes anything.
    pub fn record_fill(&mut self, event: &AccountEvent)
        ensures
            final(self).standings() == (match event.data {
                AccountData::Fill(fill) => standing_set(
                    old(self).standings(),
                    fill.symbol@,
                    fill_recorded(old(self).standings()[fill.symbol@], event.account, fill),
                ),
                _ => old(self).standings(),
            }),
            final(self).list() == old(self).list(),
            final(self).venue() == old(self).venue(),
            forall|k: nat, shown: Shown, d: Decision| #[trigger]
                final(self).may_decide(k, shown, d) == old(self).may_decide(k, shown, d),
    {
        if let AccountData::Fill(fill) = &event.data {
            let ghost m = self.states@;
            if let Some(at) = self.states.position(&fill.symbol) {
                let mut s = self.states.replace_at(at, SymbolState::new(&fill.symbol));
                match &event.account {
                    AccountId::Paper(_) => {
                        s.paper.apply_fill(fill);
                    },
                    AccountId::Live => {
                        if let Some(mut live) = s.live {
                            live.apply_fill(fill);
                            s.live = Some(live);
                        }
                    },
                }
                self.states.replace_at(at, s);
                assert(standings(self.states@) =~= standings(m).insert(fill.symbol@, s@));
                assert(s@ =~= fill_recorded(standings(m)[fill.symbol@], event.account, *fill));
            }
        }
    }

    /// What is to be done about what the policy decided on an instrument. While what was asked for
    /// is not answered, the instrument is in transition.
    pub fn act(&mut self, symbol: &Symbol, decision: Decision) -> (t: Option<Transition>)
        ensures
            final(self).list() == old(self).list(),
            final(self).venue() == old(self).venue(),
            forall|k: nat, shown: Shown, d: Decision| #[trigger]
                final(self).may_decide(k, shown, d) == old(self).may_decide(k, shown, d),
            !old(self).standings().dom().contains(symbol@) ==> t is None && final(self).standings() == old(self).standings(),
            old(self).standings().dom().contains(symbol@) ==> {
                let s = old(self).standings()[symbol@];
                &&& is_request(t, asks_for(s, decision), symbol@, old(self).venue())
                &&& final(self).standings() == (if asks_for(s, decision) is Hold {
                    old(self).standings()
                } else {
                    old(self).standings().insert(symbol@, Standing { in_transition: true, ..s })
                })
            },
    {
        let ghost m = self.states@;
        match self.states.position(symbol) {
            None => None,
            Some(at) => {
                let live = self.states.value_at(at).live.is_some();
                let t = match decision {
                    Decision::Hold => None,
                    Decision::Promote => if live {
                        None
                    } else {
                        Some(Transition::Promote(symbol.clone()))
                    },
                    Decision::Demote => if live {
                        let mut symbols: Vec<Symbol> = Vec::new();
                        symbols.push(symbol.clone());
                        Some(
                            Transition::Demote(
                                RemoveStrategies {
                                    account: AccountId::Live,
                                    symbols,
                                    exchange: self.exchange,
                                    flatten: true,
                                },
                            ),
                        )
                    } else {
                        None
                    },
                };
                if t.is_some() {
                    let mut s = self.states.replace_at(at, SymbolState::new(symbol));
                    s.in_transition = true;
                    self.states.replace_at(at, s);
                    assert(standings(self.states@) =~= standings(m).insert(symbol@, s@));
                }
                t
            },
        }
    }

    /// What the policy is shown of an instrument, unless it is in transition.
    pub fn performance<'a>(&'a self, symbol: &'a Symbol, now: Timestamp) -> (view: Option<SymbolPerformance<'a>>)
        ensures
            view is Some == (self.standings().dom().contains(symbol@) && !self.standings()[symbol@].in_transition),
            view matches Some(v) ==> v@ == shown_of(self.standings()[symbol@], symbol@, now),
    {
        shown(&self.states, symbol, now)
    }

    /// Asks the policy about an instrument, unless it is in transition.
    pub fn decide(&mut self, symbol: &Symbol, now: Timestamp) -> (d: Option<Decision>)
        ensures
            final(self).list() == old(self).list(),
            final(self).venue() == old(self).venue(),
            final(self).standings() == old(self).standings(),
            d is Some == (old(self).standings().dom().contains(symbol@) && !old(self).standings()[symbol@].in_transition),
            d matches Some(decision) ==> old(self).may_decide(
                0,
                shown_of(old(self).standings()[symbol@], symbol@, now),
                decision,
            ),
            d is None ==> forall|k: nat, shown: Shown, e: Decision| #[trigger]
                final(self).may_decide(k, shown, e) == old(self).may_decide(k, shown, e),
            d is Some ==> forall|k: nat, shown: Shown, e: Decision| #[trigger]
                final(self).may_decide(k, shown, e) ==> old(self).may_decide(k + 1, shown, e),
    {
        match shown(&self.states, symbol, now) {
            None => None,
            Some(view) => Some(self.policy.decide(&view)),
        }
    }

    /// Whether a decision contradicts where an instrument stands. It is then ignored, which is to be
    /// told.
    pub fn ignores(&self, symbol: &Symbol, decision: Decision) -> (b: bool)
        ensures
            b == (self.standings().dom().contains(symbol@) && contradicts(self.standings()[symbol@], decision)),
    {
        match self.states.get(symbol) {
            None => false,
            Some(state) => match decision {
                Decision::Hold => false,
                Decision::Promote => state.live.is_some(),
                Decision::Demote => state.live.is_none(),
            },
        }
    }

    /// Asks the policy about an instrument, unless it is in transition, and says what is to be done.
    pub fn consider(&mut self, symbol: &Symbol, now: Timestamp) -> (c: Considered)
        ensures
            final(self).list() == old(self).list(),
            final(self).venue() == old(self).venue(),
            c.decision is Some == (old(self).standings().dom().contains(symbol@)
                && !old(self).standings()[symbol@].in_transition),
            c.decision is None ==> c.transition is None && !c.ignored && final(self).standings() == old(self).standings(),
            c.decision is None ==> forall|k: nat, shown: Shown, d: Decision| #[trigger]
                final(self).may_decide(k, shown, d) == old(self).may_decide(k, shown, d),
            c.decision is Some ==> forall|k: nat, shown: Shown, d: Decision| #[trigger]
                final(self).may_decide(k, shown, d) ==> old(self).may_decide(k + 1, shown, d),
            c.decision matches Some(d) ==> {
                let s = old(self).standings()[symbol@];
                &&& old(self).may_decide(0, shown_of(s, symbol@, now), d)
                &&& c.ignored == contradicts(s, d)
                &&& is_request(c.transition, asks_for(s, d), symbol@, old(self).venue())
                &&& final(self).standings() == (if asks_for(s, d) is Hold {
                    old(self).standings()
                } else {
                    old(self).standings().insert(symbol@, Standing { in_transition: true, ..s })
                })
            },
    {
        match self.decide(symbol, now) {
            None => Considered { decision: None, ignored: false, transition: None },
            Some(decision) => {
                let ignored = self.ignores(symbol, decision);
                let transition = self.act(symbol, decision);
                Considered { decision: Some(decision), ignored, transition }
            },
        }
    }

    /// An instrument that was to trade for real does, or does not.
    pub fn promoted(&mut self, symbol: &Symbol, done: bool, now: Timestamp)
        ensures
            final(self).standings() == standing_set(
                old(self).standings(),
                symbol@,
                promotion_answered(old(self).standings()[symbol@], *symbol, done, now),
            ),
            final(self).list() == old(self).list(),
            final(self).venue() == old(self).venue(),
            forall|k: nat, shown: Shown, d: Decision| #[trigger]
                final(self).may_decide(k, shown, d) == old(self).may_decide(k, shown, d),
    {
        let ghost m = self.states@;
        if let Some(at) = self.states.position(symbol) {
            let mut s = self.states.replace_at(at, SymbolState::new(symbol));
            if done {
                s.live = Some(SymbolRecord::new(symbol.clone(), DEFAULT_ROUND_TRIP_CAPACITY));
                s.live_since = Some(now);
            }
            s.in_transition = false;
            self.states.replace_at(at, s);
            assert(standings(self.states@) =~= standings(m).insert(symbol@, s@));
            assert(s@ =~= promotion_answered(standings(m)[symbol@], *symbol, done, now));
        }
    }

    /// An instrument that was to trade for real no longer does not, or may still do.
    pub fn demoted(&mut self, symbol: &Symbol, done: bool)
        ensures
            final(self).standings() == standing_set(
                old(self).standings(),
                symbol@,
                demotion_answered(old(self).standings()[symbol@], done),
            ),
            final(self).list() == old(self).list(),
            final(self).venue() == old(self).venue(),
            forall|k: nat, shown: Shown, d: Decision| #[trigger]
                final(self).may_decide(k, shown, d) == old(self).may_decide(k, shown, d),
    {
        let ghost m = self.states@;
        if let Some(at) = self.states.position(symbol) {
            let mut s = self.states.replace_at(at, SymbolState::new(symbol));
            if done {
                s.live = None;
                s.live_since = None;
            }
            s.in_transition = false;
            self.states.replace_at(at, s);
            assert(standings(self.states@) =~= standings(m).insert(symbol@, s@));
            assert(s@ =~= demotion_answered(standings(m)[symbol@], done));
        }
    }

    /// The instruments, in the order in which the policy is asked about them.
    pub fn symbols(&self) -> (v: &Vec<Symbol>)
        ensures
            v@ == self.list(),
    {
        &self.symbols
    }
}

/// A decision that contradicts where an instrument stands asks for nothing.
pub proof fn contradictory_decisions_are_ignored(s: Standing)
    ensures
        s.live is Some ==> asks_for(s, Decision::Promote) is Hold,
        s.live is None ==> asks_for(s, Decision::Demote) is Hold,
        asks_for(s, Decision::Hold) is Hold,
{
}

/// An instrument counts as off the real account only once that has been done.
pub proof fn a_failed_demotion_keeps_the_record(s: Standing)
    ensures
        demotion_answered(s, false).live == s.live,
        demotion_answered(s, false).live_since == s.live_since,
        demotion_answered(s, true).live is None,
{
}

/// Simulated fills never touch the real record, nor real fills the simulated one.
pub proof fn records_are_kept_apart(s: Standing, label: String, fill: crate::domain::Fill)
    ensures
        fill_recorded(s, AccountId::Paper(label), fill).live == s.live,
        fill_recorded(s, AccountId::Live, fill).paper == s.paper,
{
}

/// A decision is carried out exactly when it would change something: an instrument that is not live can
/// be promoted, one that is can be demoted.
pub proof fn a_decision_counts_where_it_changes_something(s: Standing)
    ensures
        s.live is None ==> asks_for(s, Decision::Promote) is Promote,
        s.live is Some ==> asks_for(s, Decision::Demote) is Demote,
{
}

/// What is asked for is what was decided, of the instrument decided on: a demotion is of the real account
/// on the venue, of that instrument alone, and closes what is held.
pub proof fn a_request_names_its_instrument(t: Option<Transition>, asked: Decision, symbol: Seq<char>, exchange: Exchange)
    requires
        is_request(t, asked, symbol, exchange),
    ensures
        t is None <==> asked is Hold,
        asked is Promote ==> t->0 is Promote && t->0->Promote_0@ == symbol,
        asked is Demote ==> {
            &&& t->0 is Demote
            &&& t->0->Demote_0.account is Live
            &&& t->0->Demote_0.exchange == exchange
            &&& t->0->Demote_0.symbols@.len() == 1
            &&& t->0->Demote_0.symbols@[0]@ == symbol
            &&& t->0->Demote_0.flatten
        },
{
}

/// A standing moves on its own, and only where there is one.
pub proof fn a_standing_moves_alone(m: Map<Seq<char>, Standing>, symbol: Seq<char>, s: Standing, other: Seq<char>)
    ensures
        standing_set(m, symbol, s).dom() == m.dom(),
        m.dom().contains(symbol) ==> standing_set(m, symbol, s)[symbol] == s,
        other != symbol ==> standing_set(m, symbol, s)[other] == m[other],
{
    assert(standing_set(m, symbol, s).dom() =~= m.dom());
}

/// A fill goes into the record of its own kind of account: a simulated one into the trial's, a real one
/// into the real one's where there is one.
pub proof fn a_fill_is_recorded_with_its_kind(s: Standing, account: AccountId, fill: crate::domain::Fill)
    ensures
        ({
            let after = fill_recorded(s, account, fill);
            &&& account is Paper ==> after.paper == record::after_fill(s.paper, fill) && after.live == s.live
            &&& account is Live ==> after.paper == s.paper
            &&& account is Live && s.live is Some ==> after.live == Some(record::after_fill(s.live->0, fill))
            &&& account is Live && s.live is None ==> after.live is None
            &&& after.live_since == s.live_since
            &&& after.in_transition == s.in_transition
        }),
{
}

/// A promotion that succeeds starts a blank real record as of now; whatever comes of it, the transition
/// is over and the trial's record stays.
pub proof fn a_promotion_starts_a_blank_record(s: Standing, symbol: Symbol, done: bool, now: Timestamp)
    ensures
        ({
            let after = promotion_answered(s, symbol, done, now);
            &&& !after.in_transition
            &&& after.paper == s.paper
            &&& !done ==> after.live == s.live && after.live_since == s.live_since
            &&& done ==> {
                &&& after.live_since == Some(now)
                &&& after.live is Some
                &&& after.live->0.symbol == symbol
                &&& after.live->0.stats.fills == 0
                &&& after.live->0.position == 0
                &&& after.live->0.cash == 0
                &&& after.live->0.round_trips.len() == 0
            }
        }),
{
}

/// A demotion that succeeds ends the real record; whatever comes of it, the transition is over and the
/// trial's record stays.
pub proof fn a_demotion_ends_the_real_record(s: Standing, done: bool)
    ensures
        ({
            let after = demotion_answered(s, done);
            &&& !after.in_transition
            &&& after.paper == s.paper
            &&& after.live is None <==> done || s.live is None
            &&& done ==> after.live_since is None
        }),
{
}

/// What a policy is shown is what the records say.
pub proof fn a_policy_is_shown_the_records(s: Standing, symbol: Seq<char>, now: Timestamp)
    ensures
        shown_of(s, symbol, now).symbol == symbol,
        shown_of(s, symbol, now).paper == s.paper,
        shown_of(s, symbol, now).live == s.live,
        shown_of(s, symbol, now).live_since == s.live_since,
        shown_of(s, symbol, now).now == now,
{
}

/// An instrument starts on trial with nothing traded.
pub proof fn an_instrument_starts_on_trial(symbol: Symbol)
    ensures
        unproven(symbol).live is None,
        unproven(symbol).live_since is None,
        !unproven(symbol).in_transition,
        unproven(symbol).paper.symbol == symbol,
        unproven(symbol).paper.stats.fills == 0,
        unproven(symbol).paper.position == 0,
        unproven(symbol).paper.cash == 0,
        unproven(symbol).paper.round_trips.len() == 0,
{
}

} // verus!
