//! When an instrument is to trade for real, and when no longer: left to the user.

use vstd::prelude::*;
use crate::domain::{Symbol, Timestamp};
use crate::live::supervisor::record::{RecordModel, SymbolRecord};

verus! {

/// All that a policy is told of an instrument.
pub struct SymbolPerformance<'a> {
    pub symbol: &'a Symbol,
    /// How the simulated account has done.
    pub paper: &'a SymbolRecord,
    /// How the real account has done, while the instrument trades for real.
    pub live: Option<&'a SymbolRecord>,
    /// Since when it trades for real.
    pub live_since: Option<Timestamp>,
    pub now: Timestamp,
}

/// All that a policy is told of an instrument.
#[verifier::ext_equal]
pub struct Shown {
    pub symbol: Seq<char>,
    pub paper: RecordModel,
    pub live: Option<RecordModel>,
    pub live_since: Option<Timestamp>,
    pub now: Timestamp,
}

impl View for SymbolPerformance<'_> {
    type V = Shown;

    open spec fn view(&self) -> Shown {
        Shown {
            symbol: self.symbol@,
            paper: self.paper@,
            live: match self.live {
                Some(r) => Some(r@),
                None => None,
            },
            live_since: self.live_since,
            now: self.now,
        }
    }
}

impl SymbolPerformance<'_> {
    /// Whether the instrument trades for real.
    pub fn is_live(&self) -> (b: bool)
        ensures
            b == self.live is Some,
    {
        self.live.is_some()
    }

    /// For how many milliseconds it has traded for real; none if it does not.
    pub fn live_elapsed_ms(&self) -> (ms: u64)
        ensures
            ms == match self.live_since {
                Some(t) => if self.now > t {
                    self.now - t
                } else {
                    0
                },
                None => 0,
            },
    {
        match self.live_since {
            Some(t) => self.now.saturating_sub(t),
            None => 0,
        }
    }
}

/// What a policy decides.
#[derive(Clone, Copy, Debug, PartialEq, Eq, Structural)]
pub enum Decision {
    /// Leave it as it is.
    Hold,
    /// Trade for real.
    Promote,
    /// Stop trading for real, and close the position.
    Demote,
}

/// Decides which instruments trade for real. It may remember what it likes from call to call.
pub trait PromotionPolicy: Send {
    /// Whether it may decide this on an instrument that stands so, after it has been asked `k` more
    /// times.
    open spec fn may_decide(&self, k: nat, shown: Shown, d: Decision) -> bool {
        true
    }

    /// What it decides on an instrument.
    fn decide(&mut self, view: &SymbolPerformance<'_>) -> (d: Decision)
        ensures
            old(self).may_decide(0, view@, d),
            forall|k: nat, s: Shown, e: Decision| #[trigger]
                final(self).may_decide(k, s, e) ==> old(self).may_decide(k + 1, s, e),
    ;
}

/// Holds a policy, whichever it is.
pub struct HeldPolicy<P> {
    pub policy: P,
}

/// A policy, whichever it is.
pub type AnyPolicy = HeldPolicy<Box<dyn PromotionPolicy>>;

impl HeldPolicy<Box<dyn PromotionPolicy>> {
    /// Whether it may decide this on an instrument that stands so, after it has been asked `k` more
    /// times.
    pub open spec fn may_decide(&self, k: nat, shown: Shown, d: Decision) -> bool {
        self.policy.may_decide(k, shown, d)
    }

    /// Holds a policy; it decides as before.
    pub fn new(policy: Box<dyn PromotionPolicy>) -> (h: Self)
        ensures
            forall|k: nat, shown: Shown, d: Decision| #[trigger]
                h.may_decide(k, shown, d) == policy.may_decide(k, shown, d),
    {
        let held = HeldPolicy { policy };
        held
    }

    /// What it decides on an instrument.
    pub fn decide(&mut self, view: &SymbolPerformance<'_>) -> (d: Decision)
        ensures
            old(self).may_decide(0, view@, d),
            forall|k: nat, s: Shown, e: Decision| #[trigger]
                final(self).may_decide(k, s, e) ==> old(self).may_decide(k + 1, s, e),
    {
        self.policy.decide(view)
    }
}

/// Leaves every instrument in simulation.
#[derive(Debug)]
pub struct NeverPromote;

impl Default for NeverPromote {
    fn default() -> (p: Self)
        ensures
            p == NeverPromote,
    {
        NeverPromote
    }
}

impl PromotionPolicy for NeverPromote {
    open spec fn may_decide(&self, k: nat, shown: Shown, d: Decision) -> bool {
        d is Hold
    }

    fn decide(&mut self, view: &SymbolPerformance<'_>) -> (d: Decision)
        ensures
            d is Hold,
    {
        Decision::Hold
    }
}

} // verus!
