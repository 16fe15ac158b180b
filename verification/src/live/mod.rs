//! The engine that trades: events in, orders out, and what watches over both.

use vstd::prelude::*;
use crate::domain::{AccountId, OutcomeEvent};

pub mod assembly;
pub mod clock;
pub mod engine;
pub mod executor;
pub mod income_processor;
pub mod manager;
pub mod metrics;
pub mod outcome_processor;
pub mod paper_counter;
pub mod position_polling;
pub mod position_reconcile;
pub mod supervisor;

verus! {

/// A strategy's decision, with the account that it is made for.
#[derive(Clone, Debug)]
pub struct AccountOutcome {
    pub account: AccountId,
    pub event: OutcomeEvent,
}

/// Who carries a decision out.
#[derive(Clone, Copy, Debug, PartialEq, Eq, Structural)]
pub enum Outlet {
    /// The venue.
    Live,
    /// The simulated counter.
    Paper,
}

/// Who carries out the decisions for an account.
pub open spec fn outlet(account: AccountId) -> Outlet {
    match account {
        AccountId::Live => Outlet::Live,
        AccountId::Paper(_) => Outlet::Paper,
    }
}

/// Who carries out the decisions for an account. The kind of account decides, not its label.
pub fn outlet_for(account: &AccountId) -> (o: Outlet)
    ensures
        o == outlet(*account),
{
    match account {
        AccountId::Live => Outlet::Live,
        AccountId::Paper(_) => Outlet::Paper,
    }
}

/// Whether the decision goes to the venue.
pub fn to_live_outlet(o: &AccountOutcome) -> (b: bool)
    ensures
        b == (outlet(o.account) is Live),
        b == (o.account is Live),
{
    match outlet_for(&o.account) {
        Outlet::Live => true,
        Outlet::Paper => false,
    }
}

/// Whether the decision goes to the simulated counter.
pub fn to_paper_outlet(o: &AccountOutcome) -> (b: bool)
    ensures
        b == (outlet(o.account) is Paper),
        b == (o.account is Paper),
{
    match outlet_for(&o.account) {
        Outlet::Live => false,
        Outlet::Paper => true,
    }
}

/// Every decision is carried out by exactly one outlet.
pub proof fn exactly_one_outlet_takes_a_decision(o: AccountOutcome)
    ensures
        (outlet(o.account) is Live) != (outlet(o.account) is Paper),
{
}

/// The gateway carries out the real account's decisions, the simulated counter those of the others.
pub proof fn an_account_trades_where_it_is_held(account: AccountId)
    ensures
        outlet(account) is Live <==> account is Live,
        outlet(account) is Paper <==> account is Paper,
{
}

} // verus!
