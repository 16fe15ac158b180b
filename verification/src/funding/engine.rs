//! Runs strategies on the venues that it has clients for from the start.

use vstd::prelude::*;
use crate::config::MetricsConfig;
use crate::domain::{AccountId, Exchange, OutcomeEvent, Symbol, SymbolMeta};
use crate::engine;
use crate::engine::{Core, EngineKind, EngineRun};
use crate::event::IncomeEvent;
use crate::live::manager::StrategySpec;
use crate::state::StateModel;
use crate::strategy::{Held, Strategy};
use crate::subscription::SubscriptionKind;
use crate::table::Table;

verus! {

/// The engine for funding-rate strategies.
pub struct FundingEngine {
    pub metrics_config: MetricsConfig,
    pub core: Core,
}

impl FundingEngine {
    /// An engine with clients for Binance and OKX, and for no other venue.
    pub fn new(metrics_config: MetricsConfig) -> (e: Self)
        ensures
            e.metrics_config == metrics_config,
            e.core.reached() == set![Exchange::Binance, Exchange::OKX],
            e.core.list().len() == 0,
            e.core.metas() == Map::<(Exchange, Seq<char>), SymbolMeta>::empty(),
    {
        let mut clients: Table<Exchange, ()> = Table::new();
        clients.insert(Exchange::Binance, ());
        clients.insert(Exchange::OKX, ());
        assert(clients@.dom() =~= set![Exchange::Binance, Exchange::OKX]);
        FundingEngine { metrics_config, core: Core::new(clients) }
    }

    /// One more strategy.
    pub fn add_strategy(&mut self, strategy: Box<dyn Strategy>)
        ensures
            final(self).core.list().len() == old(self).core.list().len() + 1,
            final(self).core.list().drop_last() == old(self).core.list(),
            final(self).core.list().last().account == AccountId::Live,
            forall|kinds: Seq<(Exchange, SubscriptionKind)>, bare: Seq<(Exchange, Option<Symbol>)>| #[trigger]
                final(self).core.list().last().strategy.may_want(kinds, bare) == strategy.may_want(kinds, bare),
            forall|ms: u64| #[trigger]
                final(self).core.list().last().strategy.may_wait(ms) == strategy.may_wait(ms),
            forall|k: nat, event: IncomeEvent, known: StateModel, ds: Seq<OutcomeEvent>| #[trigger]
                final(self).core.list().last().strategy.judgement()(k, event, known, ds) == strategy.may_decide(
                    k,
                    event,
                    known,
                    ds,
                ),
            final(self).core.reached() == old(self).core.reached(),
            final(self).core.metas() == old(self).core.metas(),
            final(self).metrics_config == old(self).metrics_config,
    {
        let held = Held { strategy };
        self.core.strategies.push(StrategySpec { strategy: held, account: AccountId::Live });
        assert(self.core.list().drop_last() =~= old(self).core.list());
    }

    /// Plans how the engine comes up.
    pub fn run(&self) -> (run: EngineRun)
        ensures
            engine::are_streams_of(run.stream_list(), run.bare_list(), self.core.list()),
            engine::sets_out(
                run,
                EngineKind::Funding,
                run.stream_list(),
                run.bare_list(),
                self.core.list().len(),
                self.core.reached(),
            ),
    {
        self.core.run(EngineKind::Funding)
    }
}

} // verus!
