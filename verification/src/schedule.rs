use vstd::prelude::*;

verus! {

/// Ticks between two connection requests (a tick is 50 ms: every second).
pub const CONNECTIONS_PERIOD: u64 = 20;

/// Ticks between two proxy requests (every 5 s).
pub const PROXIES_PERIOD: u64 = 100;

/// Ticks between two rule requests (every 5 s and one tick).
pub const RULES_PERIOD: u64 = 101;

/// Ticks between two version requests (every 5 s and two ticks).
pub const VERSION_PERIOD: u64 = 102;

/// Ticks between two configuration requests (every 5 s and three ticks).
pub const CONFIG_PERIOD: u64 = 103;

/// Which requests to send to the controller on a tick, sent in the field order.
#[derive(Debug, Clone, Copy, PartialEq, Eq, Structural)]
pub struct DueRequests {
    pub version: bool,
    pub connections: bool,
    pub rules: bool,
    pub proxies: bool,
    pub config: bool,
}

/// Whether a request with period `period` is due on tick `tick` (ticks count from 0; each
/// request goes out on the first tick and then once every `period` ticks).
pub open spec fn due(tick: u64, period: u64) -> bool {
    tick % period == 0
}

/// A request that goes out on a tick goes out again `period` ticks later and not in between.
pub proof fn lemma_due_every_period(tick: nat, period: nat, k: nat)
    requires
        period > 0,
        tick % period == 0,
        0 < k < period,
    ensures
        (tick + period) % period == 0,
        (tick + k) % period != 0,
{
    assert((tick + period) % period == 0) by (nonlinear_arith)
        requires
            period > 0,
            tick % period == 0,
    ;
    assert((tick + k) % period == k) by (nonlinear_arith)
        requires
            period > 0,
            tick % period == 0,
            0 < k < period,
    ;
}

/// The requests due on tick `tick` of the polling loop.
pub fn due_requests(tick: u64) -> (r: DueRequests)
    ensures
        r.version == due(tick, VERSION_PERIOD),
        r.connections == due(tick, CONNECTIONS_PERIOD),
        r.rules == due(tick, RULES_PERIOD),
        r.proxies == due(tick, PROXIES_PERIOD),
        r.config == due(tick, CONFIG_PERIOD),
{
    DueRequests {
        version: tick % VERSION_PERIOD == 0,
        connections: tick % CONNECTIONS_PERIOD == 0,
        rules: tick % RULES_PERIOD == 0,
        proxies: tick % PROXIES_PERIOD == 0,
        config: tick % CONFIG_PERIOD == 0,
    }
}

} // verus!
