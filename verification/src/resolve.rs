//! Answering how an endpoint can be reached.

use vstd::prelude::*;

use crate::keys::{endpoint_prefix, prefix_from_endpoint};
use crate::peer::{EndpointId, KeyPrefix, WakerId};
use crate::routing::{token_addr, token_custom_addr, CustomAddr};
use crate::routing_v2::{
    waits_for_prefix, wakers_of, Routing, RoutingView, StableConnId, Waiter,
};

verus! {

/// Why an endpoint can be reached.
#[derive(Clone, Copy, PartialEq, Eq, Structural, Debug)]
pub enum ResolveSource {
    Routable,
    Pending,
    ReservationExisting,
    ReservationNew,
}

/// Answers, once, how an endpoint can be reached.
#[derive(Clone, Copy, Debug)]
pub struct EndpointResolveStream {
    pub endpoint_id: EndpointId,
    pub emitted: bool,
}

/// What the asker is told.
#[derive(Debug)]
pub enum ResolvePoll {
    /// The endpoint can be reached at this address.
    Found { addr: CustomAddr, source: ResolveSource },
    /// Nothing more will be said.
    Finished,
    /// Not yet; the waker is kept.
    Pending,
}

/// How an endpoint can be reached: over its routable pipe, over the pipe under
/// way to it, under the id reserved for it, or under an id reserved now because
/// a scan has seen it.
pub open spec fn reachable(r: RoutingView, endpoint_id: EndpointId) -> Option<
    (StableConnId, ResolveSource),
> {
    let key = endpoint_id@;
    let prefix = endpoint_prefix(endpoint_id)@;
    if r.routable.contains_key(key) {
        Some((r.routable[key].stable_id, ResolveSource::Routable))
    } else if r.pending.contains_key(key) {
        Some((r.pending[key], ResolveSource::Pending))
    } else if r.reservations.contains_key(prefix) {
        Some((r.reservations[prefix].stable_id, ResolveSource::ReservationExisting))
    } else if r.scan_hint.contains_key(prefix) {
        Some((r.next(), ResolveSource::ReservationNew))
    } else {
        None
    }
}

/// The id under which an endpoint can be reached.
pub open spec fn reached(r: RoutingView, endpoint_id: EndpointId) -> Option<StableConnId> {
    match reachable(r, endpoint_id) {
        Some((id, _)) => Some(id),
        None => None,
    }
}

/// What asking does to the routing tables.
pub open spec fn asked(r: RoutingView, endpoint_id: EndpointId, waker: WakerId) -> RoutingView {
    let kept = r.parked(endpoint_id, waker);
    match reachable(r, endpoint_id) {
        Some((_, ResolveSource::ReservationNew)) => kept.reserved(endpoint_id),
        _ => kept,
    }
}

impl EndpointResolveStream {
    /// Starts to ask for an endpoint.
    pub fn resolve(endpoint_id: EndpointId) -> (s: Self)
        ensures
            s.endpoint_id == endpoint_id,
            !s.emitted,
    {
        EndpointResolveStream { endpoint_id, emitted: false }
    }

    /// Asks. The waker is kept first, so that a change that comes in between is
    /// not missed.
    pub fn poll_next(&mut self, routing: &mut Routing, waker: WakerId) -> (poll: ResolvePoll)
        requires
            old(routing).wf(),
        ensures
            final(routing).wf(),
            final(self).endpoint_id == old(self).endpoint_id,
            old(self).emitted ==> poll is Finished && final(self).emitted && final(routing)@
                == old(routing)@,
            !old(self).emitted ==> final(routing)@ == asked(
                old(routing)@,
                old(self).endpoint_id,
                waker,
            ) && match reachable(old(routing)@, old(self).endpoint_id) {
                Some((id, source)) => final(self).emitted && (poll matches ResolvePoll::Found {
                    addr,
                    source: s,
                } && addr@ == token_addr(id.raw) && s == source),
                None => !final(self).emitted && poll is Pending,
            },
    {
        if self.emitted {
            return ResolvePoll::Finished;
        }
        let endpoint_id = self.endpoint_id;
        let prefix = prefix_from_endpoint(&endpoint_id);
        routing.register_endpoint_waker(endpoint_id, waker);
        let found: Option<(StableConnId, ResolveSource)> = match routing.routable_pipe_for(
            &endpoint_id,
        ) {
            Some(id) => Some((id, ResolveSource::Routable)),
            None => match routing.pending_pipe_for(&endpoint_id) {
                Some(id) => Some((id, ResolveSource::Pending)),
                None => match routing.reservation_for_prefix(&prefix) {
                    Some(reservation) => Some(
                        (reservation.stable_id, ResolveSource::ReservationExisting),
                    ),
                    None => {
                        if routing.scan_hint_for_prefix(&prefix).is_some() {
                            let id = routing.reserve_outbound(endpoint_id);
                            Some((id, ResolveSource::ReservationNew))
                        } else {
                            None
                        }
                    },
                },
            },
        };
        match found {
            Some((id, source)) => {
                self.emitted = true;
                ResolvePoll::Found { addr: token_custom_addr(id.as_u64()), source }
            },
            None => ResolvePoll::Pending,
        }
    }
}

/// Asking again gives the same address, as long as the routing tables have not
/// changed in between.
pub proof fn resolving_is_idempotent(r: RoutingView, endpoint_id: EndpointId, waker: WakerId)
    requires
        reachable(r, endpoint_id) is Some,
    ensures
        reached(asked(r, endpoint_id, waker), endpoint_id) == reached(r, endpoint_id),
{
}

proof fn lemma_wakers_of(waiting: Seq<Waiter>, matching: spec_fn(Waiter) -> bool, i: int)
    requires
        0 <= i < waiting.len(),
        matching(waiting[i]),
    ensures
        wakers_of(waiting, matching).contains(waiting[i].waker),
    decreases waiting.len(),
{
    let rest = wakers_of(waiting.drop_last(), matching);
    if i == waiting.len() - 1 {
        assert(wakers_of(waiting, matching).last() == waiting[i].waker);
    } else {
        assert(waiting.drop_last()[i] == waiting[i]);
        lemma_wakers_of(waiting.drop_last(), matching, i);
        let k = choose|k: int| 0 <= k < rest.len() && rest[k] == waiting[i].waker;
        assert(wakers_of(waiting, matching)[k] == waiting[i].waker);
    }
}

proof fn lemma_no_wakers(waiting: Seq<Waiter>, matching: spec_fn(Waiter) -> bool)
    requires
        forall|i: int| 0 <= i < waiting.len() ==> !matching(#[trigger] waiting[i]),
    ensures
        wakers_of(waiting, matching).len() == 0,
    decreases waiting.len(),
{
    if waiting.len() > 0 {
        let rest = waiting.drop_last();
        assert forall|i: int| 0 <= i < rest.len() implies !matching(#[trigger] rest[i]) by {
            assert(rest[i] == waiting[i]);
        }
        assert(!matching(waiting[waiting.len() - 1]));
        lemma_no_wakers(rest, matching);
    }
}

/// Whoever was told to wait for an endpoint is woken when a scan sees its
/// prefix.
pub proof fn hints_wake_those_who_wait_for_them(
    r: RoutingView,
    endpoint_id: EndpointId,
    waker: WakerId,
    device: Seq<char>,
)
    requires
        reachable(r, endpoint_id) is None,
    ensures
        asked(r, endpoint_id, waker).hint_noted(endpoint_prefix(endpoint_id), device).due.contains(
            waker,
        ),
{
    let kept = asked(r, endpoint_id, waker);
    let matching = waits_for_prefix(endpoint_prefix(endpoint_id));
    let waiter = Waiter { endpoint_id, waker };
    if !r.waiting.contains(waiter) {
        assert(kept.waiting[kept.waiting.len() - 1] == waiter);
    }
    let i = choose|i: int| 0 <= i < kept.waiting.len() && kept.waiting[i] == waiter;
    assert(matching(kept.waiting[i]));
    lemma_wakers_of(kept.waiting, matching, i);
    let woken = wakers_of(kept.waiting, matching);
    let k = choose|k: int| 0 <= k < woken.len() && woken[k] == waker;
    let after = kept.hint_noted(endpoint_prefix(endpoint_id), device);
    assert(after.due == kept.due + woken);
    assert(after.due[kept.due.len() + k] == waker);
}

/// A scan that sees one prefix wakes nobody who waits for another.
pub proof fn hints_wake_nobody_else(r: RoutingView, prefix: KeyPrefix, device: Seq<char>)
    requires
        forall|i: int|
            0 <= i < r.waiting.len() ==> endpoint_prefix((#[trigger] r.waiting[i]).endpoint_id)
                != prefix,
    ensures
        r.hint_noted(prefix, device).due == r.due,
{
    lemma_no_wakers(r.waiting, waits_for_prefix(prefix));
    assert(r.hint_noted(prefix, device).due =~= r.due);
}


/// Asking twice before there is an answer is asking once: the asker is woken
/// no more often.
pub proof fn waiting_twice_is_waiting_once(r: RoutingView, endpoint_id: EndpointId, waker: WakerId)
    requires
        reachable(r, endpoint_id) is None,
    ensures
        asked(asked(r, endpoint_id, waker), endpoint_id, waker) == asked(r, endpoint_id, waker),
{
    let kept = r.parked(endpoint_id, waker);
    let waiter = Waiter { endpoint_id, waker };
    if !r.waiting.contains(waiter) {
        assert(kept.waiting[kept.waiting.len() - 1] == waiter);
    }
    assert(kept.waiting.contains(waiter));
}

} // verus!
