//! What the engine asks of a strategy.

use vstd::prelude::*;
use crate::domain::{Exchange, OutcomeEvent, Symbol};
use crate::event::IncomeEvent;
use crate::state::{StateManager, StateModel};
use crate::subscription::SubscriptionKind;

verus! {

/// What a strategy wants of the venues.
#[derive(Debug)]
pub struct PublicStreams {
    /// The streams.
    pub kinds: Vec<(Exchange, SubscriptionKind)>,
    /// The venues, and the instruments of venues, that it names without wanting a stream of them.
    pub bare: Vec<(Exchange, Option<Symbol>)>,
}

impl PublicStreams {
    /// These streams; nothing is named without one.
    pub fn of(kinds: Vec<(Exchange, SubscriptionKind)>) -> (s: Self)
        ensures
            s.kinds == kinds,
            s.bare@.len() == 0,
    {
        PublicStreams { kinds, bare: Vec::new() }
    }
}

/// A trading strategy. Whatever it decides, the engine carries it out.
pub trait Strategy: Send {
    /// Whether it may answer that it wants these streams, and names this without one.
    open spec fn may_want(&self, kinds: Seq<(Exchange, SubscriptionKind)>, bare: Seq<(Exchange, Option<Symbol>)>) -> bool {
        true
    }

    /// Whether it may answer that it gives an order up after so long.
    open spec fn may_wait(&self, ms: u64) -> bool {
        true
    }

    /// Whether it may decide this on an event, given what it knows, after it has been asked `k` more
    /// times.
    open spec fn may_decide(&self, k: nat, event: IncomeEvent, known: StateModel, decisions: Seq<OutcomeEvent>) -> bool {
        true
    }

    /// The streams that it wants.
    fn public_streams(&self) -> (streams: PublicStreams)
        ensures
            self.may_want(streams.kinds@, streams.bare@),
    ;

    /// After how many milliseconds an order without a report is given up; never, if zero.
    fn order_timeout_ms(&self) -> (ms: u64)
        ensures
            self.may_wait(ms),
    ;

    /// What it decides on an event, given what it knows.
    fn on_event(&mut self, event: &IncomeEvent, state: &StateManager) -> (decisions: Vec<OutcomeEvent>)
        ensures
            old(self).may_decide(0, *event, state@, decisions@),
            forall|k: nat, e: IncomeEvent, known: StateModel, ds: Seq<OutcomeEvent>| #[trigger]
                final(self).may_decide(k, e, known, ds) ==> old(self).may_decide(k + 1, e, known, ds),
    ;
}

/// What may be decided on an event, given what is known, after so many other questions.
pub type Judgement = spec_fn(nat, IncomeEvent, StateModel, Seq<OutcomeEvent>) -> bool;

/// Whether one question lies between these: what may be decided after it is no more than what could
/// be expected before it.
pub open spec fn one_question_on(before: Judgement, after: Judgement) -> bool {
    forall|k: nat, e: IncomeEvent, known: StateModel, ds: Seq<OutcomeEvent>| #[trigger]
        after(k, e, known, ds) ==> before(k + 1, e, known, ds)
}

/// Whether one question lies between each of these and the next.
pub open spec fn are_asked_in_turn(judgements: Seq<Judgement>) -> bool {
    forall|i: int, j: int| 0 <= i && j == i + 1 && j < judgements.len() ==> one_question_on(
        #[trigger] judgements[i],
        #[trigger] judgements[j],
    )
}

/// What is decided at a question is what could be expected of that question from the first on.
pub proof fn an_answer_was_to_be_expected(
    judgements: Seq<Judgement>,
    n: int,
    k: nat,
    event: IncomeEvent,
    known: StateModel,
    decisions: Seq<OutcomeEvent>,
)
    requires
        are_asked_in_turn(judgements),
        0 <= n < judgements.len(),
        judgements[n](k, event, known, decisions),
    ensures
        judgements[0](n as nat + k, event, known, decisions),
    decreases n,
{
    if n > 0 {
        assert(one_question_on(judgements[n - 1], judgements[n]));
        an_answer_was_to_be_expected(judgements, n - 1, k + 1, event, known, decisions);
    }
}

/// Holds a strategy, whichever it is.
pub struct Held<S> {
    pub strategy: S,
}

/// A strategy, whichever it is.
pub type AnyStrategy = Held<Box<dyn Strategy>>;

impl Held<Box<dyn Strategy>> {
    /// Whether it may answer that it wants these streams, and names this without one.
    pub open spec fn may_want(&self, kinds: Seq<(Exchange, SubscriptionKind)>, bare: Seq<(Exchange, Option<Symbol>)>) -> bool {
        self.strategy.may_want(kinds, bare)
    }

    /// Whether it may answer that it gives an order up after so long.
    pub open spec fn may_wait(&self, ms: u64) -> bool {
        self.strategy.may_wait(ms)
    }

    /// What it may decide.
    pub open spec fn judgement(&self) -> Judgement {
        |k: nat, event: IncomeEvent, known: StateModel, ds: Seq<OutcomeEvent>|
            self.strategy.may_decide(k, event, known, ds)
    }

    /// Holds a strategy; it answers as before.
    pub fn new(strategy: Box<dyn Strategy>) -> (h: Self)
        ensures
            forall|kinds: Seq<(Exchange, SubscriptionKind)>, bare: Seq<(Exchange, Option<Symbol>)>| #[trigger]
                h.may_want(kinds, bare) == strategy.may_want(kinds, bare),
            forall|ms: u64| #[trigger] h.may_wait(ms) == strategy.may_wait(ms),
            forall|k: nat, event: IncomeEvent, known: StateModel, ds: Seq<OutcomeEvent>| #[trigger]
                h.judgement()(k, event, known, ds) == strategy.may_decide(k, event, known, ds),
    {
        let held = Held { strategy };
        held
    }

    /// The streams that it wants.
    pub fn public_streams(&self) -> (streams: PublicStreams)
        ensures
            self.may_want(streams.kinds@, streams.bare@),
    {
        self.strategy.public_streams()
    }

    /// After how many milliseconds an order without a report is given up; never, if zero.
    pub fn order_timeout_ms(&self) -> (ms: u64)
        ensures
            self.may_wait(ms),
    {
        self.strategy.order_timeout_ms()
    }

    /// What it decides on an event, given what it knows.
    pub fn on_event(&mut self, event: &IncomeEvent, state: &StateManager) -> (decisions: Vec<OutcomeEvent>)
        ensures
            old(self).judgement()(0, *event, state@, decisions@),
            one_question_on(old(self).judgement(), final(self).judgement()),
    {
        self.strategy.on_event(event, state)
    }
}

} // verus!
