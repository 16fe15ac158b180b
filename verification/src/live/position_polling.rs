//! Asks a venue again and again what is held there.

use vstd::prelude::*;
use crate::domain;
use crate::domain::{Exchange, ExchangeError, Position, Timestamp};
use crate::live::position_reconcile;
use crate::live::position_reconcile::{StalenessGuard, MAX_POLL_STALENESS_MS};
use crate::text::joined;

verus! {

/// All that is held on a venue, at one moment.
#[derive(Debug)]
pub struct PositionReport {
    pub exchange: Exchange,
    pub positions: Vec<Position>,
    pub local_ts: Timestamp,
}

/// Asks one venue what is held there.
pub struct PositionPollingActor {
    pub exchange: Exchange,
    pub guard: StalenessGuard,
}

/// Whether this is the guard of a venue.
pub open spec fn guards(p: PositionPollingActor) -> bool {
    &&& p.guard.name@ == domain::exchange_name(p.exchange) + " 持仓对账"@
    &&& p.guard.max_staleness_ms == MAX_POLL_STALENESS_MS
}

impl PositionPollingActor {
    /// The channel counts as working from now on.
    pub fn new(exchange: Exchange, now: Timestamp) -> (p: Self)
        ensures
            guards(p),
            p.exchange == exchange,
            p.guard.last_success_ms == now,
    {
        PositionPollingActor {
            exchange,
            guard: StalenessGuard::new(joined(exchange.name(), " 持仓对账"), MAX_POLL_STALENESS_MS, now),
        }
    }

    /// What the venue answered: a report, or a failure that is borne until the venue has been
    /// silent for too long.
    pub fn poll(&mut self, answer: Result<Vec<Position>, ExchangeError>, now: Timestamp) -> (res: Result<
        Option<PositionReport>,
        String,
    >)
        ensures
            final(self).exchange == old(self).exchange,
            match answer {
                Ok(positions) => {
                    &&& final(self).guard == (StalenessGuard { last_success_ms: now, ..old(self).guard })
                    &&& res == Ok::<Option<PositionReport>, String>(
                        Some(PositionReport { exchange: old(self).exchange, positions, local_ts: now }),
                    )
                },
                Err(e) => {
                    &&& final(self).guard == old(self).guard
                    &&& match res {
                        Ok(r) => r is None && position_reconcile::silence(old(self).guard, now)
                            <= old(self).guard.max_staleness_ms,
                        Err(s) => position_reconcile::silence(old(self).guard, now)
                            > old(self).guard.max_staleness_ms && s@
                            == position_reconcile::silence_report(
                            old(self).guard,
                            now,
                            domain::error_text(e),
                        ),
                    }
                },
            },
    {
        match answer {
            Ok(positions) => {
                self.guard.record_success(now);
                Ok(Some(PositionReport { exchange: self.exchange, positions, local_ts: now }))
            },
            Err(e) => match self.guard.check_failure(&e, now) {
                Ok(()) => Ok(None),
                Err(s) => Err(s),
            },
        }
    }
}

/// A venue's channel is borne in silence for a minute, under the venue's own name.
pub proof fn a_channel_is_borne_for_a_minute(p: PositionPollingActor)
    requires
        guards(p),
    ensures
        p.guard.max_staleness_ms == 60_000,
        crate::text::has_prefix(p.guard.name@, domain::exchange_name(p.exchange)),
{
    let name = domain::exchange_name(p.exchange);
    assert(p.guard.name@.take(name.len() as int) =~= name);
}

} // verus!
