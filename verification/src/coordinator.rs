//! Brings up two venues and a processor for each instrument.

use vstd::prelude::*;
use std::sync::Arc;
use crate::domain::{Exchange, Order, Symbol};
use crate::event;
use crate::event::{Delivery, IncomeEvent, Reach};
use crate::state;
use crate::state::{SymbolModel, SymbolState};

verus! {

/// How many events wait for one instrument's processor.
pub const EVENT_BUS_CAPACITY: usize = 256;

/// One thing to do on the way up. Instruments are meant by their place in the list.
#[derive(Clone, Copy, Debug, PartialEq, Eq, Structural)]
pub enum CoordinatorStep {
    OpenBus,
    ConnectPublic(Exchange),
    ConnectPrivate(Exchange),
    DispatchPublic(Exchange),
    DispatchPrivate(Exchange),
    StartProcessor(usize),
}

/// What comes up before the processors.
pub open spec fn channels() -> Seq<CoordinatorStep> {
    seq![
        CoordinatorStep::OpenBus,
        CoordinatorStep::ConnectPublic(Exchange::Binance),
        CoordinatorStep::ConnectPublic(Exchange::OKX),
        CoordinatorStep::ConnectPrivate(Exchange::Binance),
        CoordinatorStep::ConnectPrivate(Exchange::OKX),
        CoordinatorStep::DispatchPublic(Exchange::Binance),
        CoordinatorStep::DispatchPublic(Exchange::OKX),
        CoordinatorStep::DispatchPrivate(Exchange::Binance),
        CoordinatorStep::DispatchPrivate(Exchange::OKX),
    ]
}

/// The processors' starts.
pub open spec fn processing(n: nat) -> Seq<CoordinatorStep> {
    Seq::new(n, |i: int| CoordinatorStep::StartProcessor(i as usize))
}

/// The places of the instruments that an event names; all, where it names none.
pub open spec fn named_by(symbols: Seq<Symbol>, reach: Reach) -> Seq<usize>
    decreases symbols.len(),
{
    if symbols.len() == 0 {
        Seq::empty()
    } else {
        let earlier = named_by(symbols.drop_last(), reach);
        let named = match reach {
            Reach::Symbol(_, symbol) => symbol == symbols.last()@,
            _ => true,
        };
        if named {
            earlier.push((symbols.len() - 1) as usize)
        } else {
            earlier
        }
    }
}

/// Brings everything up.
pub struct Coordinator {
    pub symbols: Vec<Symbol>,
}

impl Coordinator {
    /// A coordinator for these instruments.
    pub fn new(symbols: Vec<Symbol>) -> (c: Self)
        ensures
            c.symbols == symbols,
    {
        Coordinator { symbols }
    }

    /// Whose processors an event goes to: those of the instrument that it names, and all where it
    /// names none.
    pub fn concerned(&self, event: &IncomeEvent) -> (v: Vec<usize>)
        ensures
            v@ == named_by(self.symbols@, event::reach(*event)),
    {
        let delivery = event.delivery();
        let mut v: Vec<usize> = Vec::new();
        let mut i: usize = 0;
        while i < self.symbols.len()
            invariant
                i <= self.symbols.len(),
                delivery@ == event::reach(*event),
                v@ == named_by(self.symbols@.take(i as int), delivery@),
            decreases self.symbols.len() - i,
        {
            assert(self.symbols@.take(i + 1).drop_last() =~= self.symbols@.take(i as int));
            let named = match &delivery {
                Delivery::Symbol(_, symbol) => *symbol == self.symbols[i],
                _ => true,
            };
            if named {
                v.push(i);
            }
            i = i + 1;
        }
        assert(self.symbols@.take(i as int) =~= self.symbols@);
        v
    }

    /// The steps on the way up; the first that fails is the last that is taken.
    pub fn start(&self) -> (v: Vec<CoordinatorStep>)
        ensures
            v@ == channels() + processing(self.symbols@.len()),
    {
        let mut v: Vec<CoordinatorStep> = Vec::new();
        v.push(CoordinatorStep::OpenBus);
        v.push(CoordinatorStep::ConnectPublic(Exchange::Binance));
        v.push(CoordinatorStep::ConnectPublic(Exchange::OKX));
        v.push(CoordinatorStep::ConnectPrivate(Exchange::Binance));
        v.push(CoordinatorStep::ConnectPrivate(Exchange::OKX));
        v.push(CoordinatorStep::DispatchPublic(Exchange::Binance));
        v.push(CoordinatorStep::DispatchPublic(Exchange::OKX));
        v.push(CoordinatorStep::DispatchPrivate(Exchange::Binance));
        v.push(CoordinatorStep::DispatchPrivate(Exchange::OKX));
        assert(v@ =~= channels());
        let mut i: usize = 0;
        assert(v@ =~= channels() + processing(0));
        while i < self.symbols.len()
            invariant
                i <= self.symbols.len(),
                v@ == channels() + processing(i as nat),
            decreases self.symbols.len() - i,
        {
            v.push(CoordinatorStep::StartProcessor(i));
            assert(v@ =~= channels() + processing((i + 1) as nat));
            i = i + 1;
        }
        v
    }
}

/// What one instrument's processor does next.
#[derive(Clone, Copy, Debug, PartialEq, Eq, Structural)]
pub enum ProcessorStep {
    /// Take the event down and ask the strategy.
    Handle,
    End,
}

/// What one instrument's processor does next: it ends when it is told to, or when no more events
/// can come.
pub fn processor_step(cancelled: bool, has_event: bool) -> (s: ProcessorStep)
    ensures
        s == (if !cancelled && has_event {
            ProcessorStep::Handle
        } else {
            ProcessorStep::End
        }),
{
    if !cancelled && has_event {
        ProcessorStep::Handle
    } else {
        ProcessorStep::End
    }
}

/// A strategy that judges one instrument by what is known of it.
pub trait SymbolStrategy: Send {
    /// Whether it may ask for this order, or for none, given what is known.
    open spec fn may_ask(&self, known: SymbolModel, order: Option<Order>) -> bool {
        true
    }

    /// The order that it asks for, if any.
    fn evaluate(&self, state: &SymbolState) -> (order: Option<Order>)
        ensures
            self.may_ask(state@, order),
    ;
}

/// Keeps what is known of one instrument, and has the strategy judge it.
pub struct SymbolProcessor<S: SymbolStrategy> {
    pub symbol: Symbol,
    pub state: SymbolState,
    pub strategy: Arc<S>,
}

impl<S: SymbolStrategy> SymbolProcessor<S> {
    /// Nothing is known of the instrument.
    pub fn new(symbol: Symbol, strategy: Arc<S>) -> (p: Self)
        ensures
            p.symbol == symbol,
            p.state@ == state::unknown_symbol(),
            p.state.name() == symbol@,
            p.strategy == strategy,
    {
        let state = SymbolState::new(symbol.clone());
        SymbolProcessor { symbol, state, strategy }
    }

    /// Takes an event down, and has the strategy judge what is known then. The order that it asks
    /// for is to be carried out.
    pub fn handle_event(&mut self, event: &IncomeEvent) -> (order: Option<Order>)
        ensures
            final(self).symbol == old(self).symbol,
            final(self).strategy == old(self).strategy,
            final(self).state@ == state::symbol_applied(old(self).state@, *event),
            final(self).state.name() == old(self).state.name(),
            old(self).strategy.may_ask(final(self).state@, order),
    {
        self.state.apply(event);
        self.strategy.evaluate(&self.state)
    }
}

/// The bus is open before anything is connected, every venue is connected before what it says is handed
/// on, and what it says in public and in private is handed on.
pub proof fn venues_are_connected_before_they_are_heard(exchange: Exchange)
    requires
        exchange is Binance || exchange is OKX,
    ensures
        channels()[0] is OpenBus,
        exists|i: int, j: int|
            0 < i < j < channels().len() && #[trigger] channels()[i] == CoordinatorStep::ConnectPublic(exchange)
                && #[trigger] channels()[j] == CoordinatorStep::DispatchPublic(exchange),
        exists|i: int, j: int|
            0 < i < j < channels().len() && #[trigger] channels()[i] == CoordinatorStep::ConnectPrivate(exchange)
                && #[trigger] channels()[j] == CoordinatorStep::DispatchPrivate(exchange),
{
    let k: int = if exchange is Binance { 0 } else { 1 };
    assert(channels()[1 + k] == CoordinatorStep::ConnectPublic(exchange));
    assert(channels()[3 + k] == CoordinatorStep::ConnectPrivate(exchange));
    assert(channels()[5 + k] == CoordinatorStep::DispatchPublic(exchange));
    assert(channels()[7 + k] == CoordinatorStep::DispatchPrivate(exchange));
}

/// Every instrument gets a processor of its own, in its place.
pub proof fn every_instrument_gets_a_processor(n: nat, i: int)
    requires
        0 <= i < n,
    ensures
        processing(n).len() == n,
        processing(n)[i] == CoordinatorStep::StartProcessor(i as usize),
{
}

/// What names an instrument goes to its processors alone, and anything else to all, in their order.
pub proof fn an_event_goes_to_the_processors_it_names(symbols: Seq<Symbol>, reach: Reach, i: int)
    requires
        symbols.len() <= usize::MAX,
        0 <= i < symbols.len(),
    ensures
        named_by(symbols, reach).contains(i as usize) <==> (reach is Symbol ==> symbols[i]@ == reach->Symbol_1),
        forall|j: int, k: int|
            0 <= j < k < named_by(symbols, reach).len() ==> (#[trigger] named_by(symbols, reach)[j]) < (
            #[trigger] named_by(symbols, reach)[k]),
        forall|j: int|
            0 <= j < named_by(symbols, reach).len() ==> (#[trigger] named_by(symbols, reach)[j]) < symbols.len(),
{
    lemma_named(symbols, reach);
    lemma_named_by(symbols, reach, i);
}

proof fn lemma_named(symbols: Seq<Symbol>, reach: Reach)
    requires
        symbols.len() <= usize::MAX,
    ensures
        forall|j: int, k: int|
            0 <= j < k < named_by(symbols, reach).len() ==> (#[trigger] named_by(symbols, reach)[j]) < (
            #[trigger] named_by(symbols, reach)[k]),
        forall|j: int|
            0 <= j < named_by(symbols, reach).len() ==> (#[trigger] named_by(symbols, reach)[j]) < symbols.len(),
    decreases symbols.len(),
{
    if symbols.len() > 0 {
        let earlier = named_by(symbols.drop_last(), reach);
        let all = named_by(symbols, reach);
        lemma_named(symbols.drop_last(), reach);
        assert forall|j: int| 0 <= j < all.len() implies (#[trigger] all[j]) < symbols.len() by {
            if j < earlier.len() {
                assert(earlier[j] < symbols.drop_last().len());
            }
        }
        assert forall|j: int, k: int| 0 <= j < k < all.len() implies (#[trigger] all[j]) < (#[trigger] all[k]) by {
            assert(earlier[j] < symbols.drop_last().len());
            if k < earlier.len() {
                assert(earlier[j] < earlier[k]);
            }
        }
    }
}

proof fn lemma_named_by(symbols: Seq<Symbol>, reach: Reach, i: int)
    requires
        symbols.len() <= usize::MAX,
        0 <= i < symbols.len(),
    ensures
        named_by(symbols, reach).contains(i as usize) <==> (reach is Symbol ==> symbols[i]@ == reach->Symbol_1),
    decreases symbols.len(),
{
    let rest = symbols.drop_last();
    let earlier = named_by(rest, reach);
    let all = named_by(symbols, reach);
    lemma_named(rest, reach);
    if i < rest.len() {
        assert(rest[i] == symbols[i]);
        lemma_named_by(rest, reach, i);
        if earlier.contains(i as usize) {
            let k = choose|k: int| 0 <= k < earlier.len() && earlier[k] == i as usize;
            assert(all[k] == i as usize);
        }
        if all.contains(i as usize) {
            let k = choose|k: int| 0 <= k < all.len() && all[k] == i as usize;
            assert(k < earlier.len());
            assert(earlier[k] == i as usize);
        }
    } else {
        assert(symbols[i] == symbols.last());
        if all.len() > earlier.len() {
            assert(all[earlier.len() as int] == i as usize);
        } else if all.contains(i as usize) {
            let k = choose|k: int| 0 <= k < all.len() && all[k] == i as usize;
            assert(earlier[k] == i as usize);
        }
    }
}

} // verus!
