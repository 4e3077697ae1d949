//! Tears down pipes whose connection is gone.
//!
//! The caller asks the endpoint, for every pipe that is due, whether a path to
//! its peer is active, and hands the answers to [`tick`].

use vstd::prelude::*;

use crate::bytes::bytes_equal;
use crate::peer::{CommandView, EndpointId, PeerCommand};
use crate::routing_v2::{
    has_pipe, Routable, RoutableEntry, Routing, RoutingView, StableConnId,
};
use crate::table::without_value;
use crate::time::{Duration, Instant};

verus! {

/// Nanoseconds between two passes.
pub const DEFAULT_POLL_INTERVAL: u64 = 5_000_000_000;

/// Nanoseconds after its handshake during which a pipe is left alone.
pub const DEFAULT_GRACE_PERIOD: u64 = 10_000_000_000;

/// The endpoint is among those with an active path.
pub open spec fn is_active(active: Seq<EndpointId>, key: Seq<u8>) -> bool {
    exists|i: int| 0 <= i < active.len() && (#[trigger] active[i])@ == key
}

/// The grace period of a routable pipe is over.
pub open spec fn is_due(r: Routable, grace: Duration, now: Instant) -> bool {
    now.nanos_since(r.verified_at) >= grace.nanos
}

/// The pipe of this endpoint is to be torn down: it is live, its grace period
/// is over, and no path to the endpoint is active.
pub open spec fn is_torn_down(
    r: RoutingView,
    active: Seq<EndpointId>,
    grace: Duration,
    now: Instant,
    key: Seq<u8>,
) -> bool {
    &&& r.routable.contains_key(key)
    &&& has_pipe(r.pipes, r.routable[key].stable_id)
    &&& is_due(r.routable[key], grace, now)
    &&& !is_active(active, key)
}

/// The pipe is that of an endpoint whose pipe is to be torn down.
pub open spec fn is_lost(
    r: RoutingView,
    active: Seq<EndpointId>,
    grace: Duration,
    now: Instant,
    id: StableConnId,
) -> bool {
    exists|key: Seq<u8>| #[trigger]
        is_torn_down(r, active, grace, now, key) && r.routable[key].stable_id == id
}

fn contains_endpoint(active: &[EndpointId], endpoint_id: &EndpointId) -> (r: bool)
    ensures
        r == is_active(active@, endpoint_id@),
{
    let mut i: usize = 0;
    while i < active.len()
        invariant
            i <= active@.len(),
            forall|j: int| 0 <= j < i ==> (#[trigger] active@[j])@ != endpoint_id@,
        decreases active@.len() - i,
    {
        if bytes_equal(active[i].bytes.as_slice(), endpoint_id.bytes.as_slice()) {
            assert(active@[i as int]@ == endpoint_id@);
            return true;
        }
        i = i + 1;
    }
    false
}

/// The endpoints about which the caller has to ask, each once, because their
/// pipe is live and its grace period is over.
pub fn due_endpoints(routing: &Routing, grace: Duration, now: Instant) -> (due: Vec<EndpointId>)
    requires
        routing.wf(),
    ensures
        forall|i: int|
            0 <= i < due@.len() ==> is_torn_down(
                routing@,
                Seq::empty(),
                grace,
                now,
                (#[trigger] due@[i])@,
            ),
        forall|key: Seq<u8>| #[trigger]
            is_torn_down(routing@, Seq::empty(), grace, now, key) ==> is_active(due@, key),
        forall|i: int, j: int|
            0 <= i < j < due@.len() ==> (#[trigger] due@[i])@ != (#[trigger] due@[j])@,
{
    let entries = routing.routable_entries();
    let mut due: Vec<EndpointId> = Vec::new();
    let mut i: usize = 0;
    while i < entries.len()
        invariant
            i <= entries@.len(),
            forall|j: int| 0 <= j < entries@.len() ==> routing@.routable_live(#[trigger] entries@[j]),
            forall|j: int|
                0 <= j < due@.len() ==> is_torn_down(
                    routing@,
                    Seq::empty(),
                    grace,
                    now,
                    (#[trigger] due@[j])@,
                ),
            forall|a: int, b: int|
                0 <= a < b < entries@.len() ==> (#[trigger] entries@[a]).endpoint_id@ != (
                #[trigger] entries@[b]).endpoint_id@,
            forall|j: int|
                0 <= j < due@.len() ==> exists|k: int|
                    0 <= k < i && (#[trigger] entries@[k]).endpoint_id@ == (#[trigger] due@[j])@,
            forall|a: int, b: int|
                0 <= a < b < due@.len() ==> (#[trigger] due@[a])@ != (#[trigger] due@[b])@,
            forall|j: int|
                0 <= j < i && is_due(
                    routing@.routable[(#[trigger] entries@[j]).endpoint_id@],
                    grace,
                    now,
                ) ==> is_active(due@, entries@[j].endpoint_id@),
        decreases entries@.len() - i,
    {
        let entry = &entries[i];
        assert(routing@.routable_live(entries@[i as int]));
        let ghost before = due@;
        if now.saturating_duration_since(entry.verified_at).nanos >= grace.nanos {
            due.push(entry.endpoint_id);
            proof {
                assert(due@[before.len() as int]@ == entries@[i as int].endpoint_id@);
                assert forall|j: int|
                    0 <= j < i + 1 && is_due(
                        routing@.routable[(#[trigger] entries@[j]).endpoint_id@],
                        grace,
                        now,
                    ) implies is_active(due@, entries@[j].endpoint_id@) by {
                    if j < i {
                        let k = choose|k: int|
                            0 <= k < before.len() && (#[trigger] before[k])@
                                == entries@[j].endpoint_id@;
                        assert(due@[k] == before[k]);
                    }
                }
            }
        }
        i = i + 1;
    }
    proof {
        assert forall|key: Seq<u8>| #[trigger]
            is_torn_down(routing@, Seq::empty(), grace, now, key) implies is_active(due@, key) by {
            assert(routing@.routable.contains_key(key));
            let j = choose|j: int|
                0 <= j < entries@.len() && (#[trigger] entries@[j]).endpoint_id@ == key;
            assert(is_due(routing@.routable[entries@[j].endpoint_id@], grace, now));
        }
    }
    due
}

/// One pass. Every pipe that is to be torn down loses its route and is
/// returned, so that the caller can have the registry drain it.
pub fn tick(
    routing: &mut Routing,
    active: &[EndpointId],
    grace: Duration,
    now: Instant,
) -> (torn: Vec<RoutableEntry>)
    requires
        old(routing).wf(),
    ensures
        final(routing).wf(),
        final(routing)@ == (RoutingView {
            routable: Map::new(
                |key: Seq<u8>|
                    old(routing)@.routable.contains_key(key) && !is_torn_down(
                        old(routing)@,
                        active@,
                        grace,
                        now,
                        key,
                    ),
                |key: Seq<u8>| old(routing)@.routable[key],
            ),
            pending: Map::new(
                |key: Seq<u8>|
                    old(routing)@.pending.contains_key(key) && !is_lost(
                        old(routing)@,
                        active@,
                        grace,
                        now,
                        old(routing)@.pending[key],
                    ),
                |key: Seq<u8>| old(routing)@.pending[key],
            ),
            ..old(routing)@
        }),
        forall|i: int|
            0 <= i < torn@.len() ==> old(routing)@.routable_live(#[trigger] torn@[i])
                && is_torn_down(old(routing)@, active@, grace, now, torn@[i].endpoint_id@),
        forall|i: int, j: int|
            0 <= i < j < torn@.len() ==> (#[trigger] torn@[i]).endpoint_id@ != (
            #[trigger] torn@[j]).endpoint_id@,
        forall|key: Seq<u8>| #[trigger]
            is_torn_down(old(routing)@, active@, grace, now, key) ==> exists|i: int|
                0 <= i < torn@.len() && (#[trigger] torn@[i]).endpoint_id@ == key,
{
    let ghost start = routing@;
    let entries = routing.routable_entries();
    let mut torn: Vec<RoutableEntry> = Vec::new();
    let mut i: usize = 0;
    while i < entries.len()
        invariant
            i <= entries@.len(),
            routing.wf(),
            start == old(routing)@,
            routing@ == (RoutingView {
                routable: routing@.routable,
                pending: routing@.pending,
                ..start
            }),
            forall|j: int| 0 <= j < entries@.len() ==> start.routable_live(#[trigger] entries@[j]),
            forall|a: int, b: int|
                0 <= a < b < entries@.len() ==> (#[trigger] entries@[a]).endpoint_id@ != (
                #[trigger] entries@[b]).endpoint_id@,
            forall|key: Seq<u8>| #[trigger]
                routing@.routable.contains_key(key) ==> start.routable.contains_key(key)
                    && routing@.routable[key] == start.routable[key],
            forall|key: Seq<u8>| #[trigger]
                start.routable.contains_key(key) && !is_torn_down(start, active@, grace, now, key)
                    ==> routing@.routable.contains_key(key),
            forall|j: int|
                0 <= j < i && is_torn_down(
                    start,
                    active@,
                    grace,
                    now,
                    (#[trigger] entries@[j]).endpoint_id@,
                ) ==> !routing@.routable.contains_key(entries@[j].endpoint_id@),
            forall|j: int|
                i <= j < entries@.len() ==> routing@.routable.contains_key(
                    (#[trigger] entries@[j]).endpoint_id@,
                ),
            forall|key: Seq<u8>| #[trigger]
                routing@.pending.contains_key(key) ==> start.pending.contains_key(key)
                    && routing@.pending[key] == start.pending[key],
            forall|key: Seq<u8>| #[trigger]
                start.pending.contains_key(key) && !is_lost(
                    start,
                    active@,
                    grace,
                    now,
                    start.pending[key],
                ) ==> routing@.pending.contains_key(key),
            forall|j: int, key: Seq<u8>|
                0 <= j < i && is_torn_down(
                    start,
                    active@,
                    grace,
                    now,
                    (#[trigger] entries@[j]).endpoint_id@,
                ) && #[trigger] routing@.pending.contains_key(key) ==> routing@.pending[key]
                    != entries@[j].stable_id,
            forall|j: int|
                0 <= j < torn@.len() ==> start.routable_live(#[trigger] torn@[j]) && is_torn_down(
                    start,
                    active@,
                    grace,
                    now,
                    torn@[j].endpoint_id@,
                ),
            forall|j: int|
                0 <= j < torn@.len() ==> exists|k: int|
                    0 <= k < i && (#[trigger] entries@[k]).endpoint_id@ == (
                    #[trigger] torn@[j]).endpoint_id@,
            forall|a: int, b: int|
                0 <= a < b < torn@.len() ==> (#[trigger] torn@[a]).endpoint_id@ != (
                #[trigger] torn@[b]).endpoint_id@,
            forall|j: int|
                0 <= j < i && is_torn_down(
                    start,
                    active@,
                    grace,
                    now,
                    (#[trigger] entries@[j]).endpoint_id@,
                ) ==> exists|k: int|
                    0 <= k < torn@.len() && (#[trigger] torn@[k]).endpoint_id@
                        == entries@[j].endpoint_id@,
        decreases entries@.len() - i,
    {
        let entry = &entries[i];
        let ghost key = entry.endpoint_id@;
        assert(start.routable_live(entries@[i as int]));
        let due = now.saturating_duration_since(entry.verified_at).nanos >= grace.nanos;
        if due && !contains_endpoint(active, &entry.endpoint_id) {
            proof {
                assert(is_torn_down(start, active@, grace, now, key));
                assert(is_lost(start, active@, grace, now, entry.stable_id));
            }
            let ghost before = routing@;
            let ghost torn_before = torn@;
            match routing.evict_routable(&entry.endpoint_id) {
                Some(_) => {
                    routing.evict_pipe_state(entry.stable_id);
                },
                None => {
                    assert(false);
                },
            }
            torn.push(
                RoutableEntry {
                    endpoint_id: entry.endpoint_id,
                    stable_id: entry.stable_id,
                    device_id: entry.device_id.clone(),
                    verified_at: entry.verified_at,
                },
            );
            proof {
                let last = torn_before.len() as int;
                assert(torn@[last].endpoint_id@ == key);
                assert(routing@.routable == before.routable.remove(key));
                assert(routing@.pending == without_value(before.pending, entry.stable_id));
                assert forall|k: Seq<u8>| #[trigger] routing@.routable.contains_key(
                    k,
                ) implies start.routable.contains_key(k) && routing@.routable[k]
                    == start.routable[k] by {
                    assert(before.routable.contains_key(k));
                }
                assert forall|k: Seq<u8>| #[trigger] routing@.pending.contains_key(
                    k,
                ) implies start.pending.contains_key(k) && routing@.pending[k]
                    == start.pending[k] by {
                    assert(before.pending.contains_key(k));
                }
                assert forall|k: Seq<u8>| #[trigger]
                    start.pending.contains_key(k) && !is_lost(
                        start,
                        active@,
                        grace,
                        now,
                        start.pending[k],
                    ) implies routing@.pending.contains_key(k) by {
                    assert(before.pending.contains_key(k));
                }
                assert forall|j: int, k: Seq<u8>|
                    0 <= j < i + 1 && is_torn_down(
                        start,
                        active@,
                        grace,
                        now,
                        (#[trigger] entries@[j]).endpoint_id@,
                    ) && #[trigger] routing@.pending.contains_key(k) implies routing@.pending[k]
                    != entries@[j].stable_id by {
                    assert(before.pending.contains_key(k));
                }
                assert forall|j: int| i + 1 <= j < entries@.len() implies routing@.routable
                    .contains_key((#[trigger] entries@[j]).endpoint_id@) by {
                    assert(entries@[i as int].endpoint_id@ != entries@[j].endpoint_id@);
                }
                assert forall|a: int, b: int| 0 <= a < b < torn@.len() implies (
                #[trigger] torn@[a]).endpoint_id@ != (#[trigger] torn@[b]).endpoint_id@ by {
                    assert(torn@[a] == torn_before[a]);
                    if b == last {
                        let k = choose|k: int|
                            0 <= k < i && (#[trigger] entries@[k]).endpoint_id@
                                == torn_before[a].endpoint_id@;
                        assert(entries@[k].endpoint_id@ != entries@[i as int].endpoint_id@);
                    } else {
                        assert(torn@[b] == torn_before[b]);
                    }
                }
                assert forall|j: int| 0 <= j < torn@.len() implies exists|k: int|
                    0 <= k < i + 1 && (#[trigger] entries@[k]).endpoint_id@ == (
                    #[trigger] torn@[j]).endpoint_id@ by {
                    if j == last {
                        assert(entries@[i as int].endpoint_id@ == torn@[j].endpoint_id@);
                    } else {
                        assert(torn@[j] == torn_before[j]);
                    }
                }
                assert forall|j: int|
                    0 <= j < i + 1 && is_torn_down(
                        start,
                        active@,
                        grace,
                        now,
                        (#[trigger] entries@[j]).endpoint_id@,
                    ) implies exists|k: int|
                    0 <= k < torn@.len() && (#[trigger] torn@[k]).endpoint_id@
                        == entries@[j].endpoint_id@ by {
                    if j == i {
                        assert(torn@[last].endpoint_id@ == entries@[j].endpoint_id@);
                    } else {
                        let k = choose|k: int|
                            0 <= k < torn_before.len() && (#[trigger] torn_before[k]).endpoint_id@
                                == entries@[j].endpoint_id@;
                        assert(torn@[k] == torn_before[k]);
                    }
                }
            }
        }
        i = i + 1;
    }
    proof {
        assert forall|key: Seq<u8>| #[trigger]
            is_torn_down(start, active@, grace, now, key) implies !routing@.routable.contains_key(
            key,
        ) && exists|k: int|
            0 <= k < torn@.len() && (#[trigger] torn@[k]).endpoint_id@ == key by {
            assert(start.routable.contains_key(key));
            let j = choose|j: int|
                0 <= j < entries@.len() && (#[trigger] entries@[j]).endpoint_id@ == key;
            assert(entries@[j].endpoint_id@ == key);
        }
        let routable = Map::new(
            |key: Seq<u8>|
                start.routable.contains_key(key) && !is_torn_down(
                    start,
                    active@,
                    grace,
                    now,
                    key,
                ),
            |key: Seq<u8>| start.routable[key],
        );
        assert(routing@.routable =~= routable);
        assert forall|key: Seq<u8>| #[trigger] routing@.pending.contains_key(key) implies !is_lost(
            start,
            active@,
            grace,
            now,
            start.pending[key],
        ) by {
            if is_lost(start, active@, grace, now, start.pending[key]) {
                let lost = choose|lost: Seq<u8>| #[trigger]
                    is_torn_down(start, active@, grace, now, lost)
                        && start.routable[lost].stable_id == start.pending[key];
                assert(start.routable.contains_key(lost));
                let j = choose|j: int|
                    0 <= j < entries@.len() && (#[trigger] entries@[j]).endpoint_id@ == lost;
                assert(start.routable_live(entries@[j]));
                assert(entries@[j].stable_id == start.pending[key]);
            }
        }
        let pending = Map::new(
            |key: Seq<u8>|
                start.pending.contains_key(key) && !is_lost(
                    start,
                    active@,
                    grace,
                    now,
                    start.pending[key],
                ),
            |key: Seq<u8>| start.pending[key],
        );
        assert(routing@.pending =~= pending);
    }
    torn
}

/// What the registry is told of a pipe that was torn down.
pub fn teardown_command(entry: RoutableEntry) -> (command: PeerCommand)
    ensures
        command@ == (CommandView::Stalled { device_id: entry.device_id@ }),
{
    PeerCommand::Stalled { device_id: entry.device_id }
}

/// A pipe whose peer has an active path, or whose grace period still runs,
/// keeps its route.
pub proof fn live_paths_are_left_alone(
    r: RoutingView,
    active: Seq<EndpointId>,
    grace: Duration,
    now: Instant,
    key: Seq<u8>,
)
    requires
        r.routable.contains_key(key),
        is_active(active, key) || !is_due(r.routable[key], grace, now),
    ensures
        !is_torn_down(r, active, grace, now, key),
{
}

} // verus!
