//! What the routing tables are for: how a pipe, a hint, a reservation or a task
//! that waits changes what is found, and what it leaves alone.

use vstd::prelude::*;

use crate::bytes::{smaller_at, the_first_difference_decides};
use crate::error::IoErrorView;
use crate::hook::{devices_of, first_token, path_token, ConnectionPath};
use crate::peer::{EndpointId, ErrorKind, KeyPrefix, WakerId};
use crate::peer_laws::{lemma_prefix_bytes, lemma_prefix_of_key};
use crate::pipe_watchdog::{is_lost, is_torn_down};
use crate::resolve::{asked, reachable, ResolveSource};
use crate::routing::{token_addr, token_of, CustomAddrView};
use crate::routing_v2::{
    has_pipe, lemma_pipe_place, lemma_reservation_with, lemma_without_pipe, pipe_place,
    waits_for_endpoint, waits_for_prefix, wakers_of, without_pipe, Dialer, Direction, PipeInfo,
    RoutableEntry, RoutingView, StableConnId, Waiter,
};
use crate::time::{Duration, Instant};
use crate::transport::send_target;

verus! {

/// The pipe with this id, if there is one.
pub open spec fn pipe_with(r: RoutingView, id: StableConnId) -> Option<PipeInfo> {
    if exists|i: int| 0 <= i < r.pipes.len() && (#[trigger] r.pipes[i]).id == id {
        Some(r.pipes[choose|i: int| 0 <= i < r.pipes.len() && (#[trigger] r.pipes[i]).id == id])
    } else {
        None
    }
}

proof fn lemma_pipe_with(r: RoutingView, i: int)
    requires
        r.wf(),
        0 <= i < r.pipes.len(),
    ensures
        pipe_with(r, r.pipes[i].id) == Some(r.pipes[i]),
{
    lemma_pipe_place(r.pipes, i);
}

proof fn lemma_evicted(r: RoutingView, id: StableConnId, other: StableConnId)
    requires
        r.wf(),
    ensures
        r.pipe_evicted(id).wf(),
        pipe_with(r.pipe_evicted(id), id) is None,
        other != id ==> pipe_with(r.pipe_evicted(id), other) == pipe_with(r, other),
{
    let after = r.pipe_evicted(id);
    lemma_without_pipe(r.pipes, id);
    if other != id {
        if has_pipe(r.pipes, other) {
            let i = pipe_place(r.pipes, other);
            if has_pipe(r.pipes, id) {
                let gone = pipe_place(r.pipes, id);
                let j = if i < gone {
                    i
                } else {
                    i - 1
                };
                assert(after.pipes[j] == r.pipes[i]);
                lemma_pipe_with(after, j);
            }
            lemma_pipe_with(r, i);
        } else if has_pipe(after.pipes, other) {
            let j = pipe_place(after.pipes, other);
            assert(r.pipes.contains(after.pipes[j]));
            let i = choose|i: int| 0 <= i < r.pipes.len() && r.pipes[i] == after.pipes[j];
            assert(r.pipes[i].id == other);
        }
    }
}

/// A pipe that is registered is found under the next id, with its device, who
/// dialled, and since when; every other id leads where it led. Once the pipe has
/// been evicted its id leads nowhere. Nothing but the pipes changes, and the id
/// that was given out last.
pub proof fn pipes_are_found_until_they_end(
    r: RoutingView,
    device: Seq<char>,
    direction: Direction,
    now: Instant,
    other: StableConnId,
)
    requires
        r.wf(),
    ensures
        ({
            let id = StableConnId {
                raw: if r.last_id == u64::MAX {
                    1
                } else {
                    (r.last_id + 1) as u64
                },
            };
            let open = r.pipe_registered(device, direction, now);
            let ended = open.pipe_evicted(id);
            &&& open == RoutingView { pipes: open.pipes, last_id: id.raw, ..r }
            &&& pipe_with(open, id) == Some(
                PipeInfo { id, device_id: device, direction, created_at: now },
            )
            &&& open.device_of_pipe(id) == Some(device)
            &&& open.direction_of_pipe(id) == direction
            &&& other != id ==> pipe_with(open, other) == pipe_with(r, other)
            &&& ended == RoutingView { pipes: ended.pipes, ..open }
            &&& pipe_with(ended, id) is None
            &&& ended.device_of_pipe(id) is None
            &&& other != id ==> pipe_with(ended, other) == pipe_with(r, other)
        }),
{
    let id = r.next();
    let open = r.pipe_registered(device, direction, now);
    crate::routing_v2::ids_are_fresh(r, device, direction, now);
    let last = open.pipes.len() - 1;
    assert(open.pipes[last].id == id);
    lemma_pipe_place(open.pipes, last);
    lemma_pipe_with(open, last);
    lemma_evicted(open, id, other);
    lemma_evicted(r, id, other);
    let rest = without_pipe(r.pipes, id);
    if other != id {
        if has_pipe(rest, other) {
            let j = pipe_place(rest, other);
            assert(open.pipes[j] == rest[j]);
            lemma_pipe_with(open, j);
            lemma_pipe_with(r.pipe_evicted(id), j);
        } else if has_pipe(open.pipes, other) {
            let j = pipe_place(open.pipes, other);
            assert(rest[j].id == other);
        }
    }
}

/// What is asked of a pipe is what is on record for it: its device and who
/// dialled. An id without a pipe has no device, and counts as one that we dial.
pub proof fn pipes_are_what_is_on_record(r: RoutingView, id: StableConnId)
    ensures
        r.device_of_pipe(id) == match pipe_with(r, id) {
            Some(pipe) => Some(pipe.device_id),
            None => None,
        },
        r.direction_of_pipe(id) == match pipe_with(r, id) {
            Some(pipe) => pipe.direction,
            None => Direction::Outbound,
        },
{
}

/// The task waits for an endpoint whose key starts with these bytes.
pub open spec fn waits_under(prefix: Seq<u8>) -> spec_fn(Waiter) -> bool {
    |w: Waiter| w.endpoint_id@.take(12) == prefix
}

/// The task waits for no such endpoint.
pub open spec fn waits_elsewhere(prefix: Seq<u8>) -> spec_fn(Waiter) -> bool {
    |w: Waiter| w.endpoint_id@.take(12) != prefix
}

proof fn lemma_wakers(waiting: Seq<Waiter>, prefix: KeyPrefix)
    ensures
        wakers_of(waiting, waits_for_prefix(prefix)) == waiting.filter(
            waits_under(prefix@),
        ).map_values(|w: Waiter| w.waker),
        waiting.filter(|w: Waiter| !waits_for_prefix(prefix)(w)) == waiting.filter(
            waits_elsewhere(prefix@),
        ),
    decreases waiting.len(),
{
    reveal(Seq::filter);
    if waiting.len() > 0 {
        lemma_wakers(waiting.drop_last(), prefix);
        let w = waiting.last();
        lemma_prefix_of_key(w.endpoint_id, prefix);
        let before = waiting.drop_last().filter(waits_under(prefix@));
        assert(before.push(w).map_values(|w: Waiter| w.waker) =~= before.map_values(
            |w: Waiter| w.waker,
        ).push(w.waker));
    } else {
        assert(waiting.filter(waits_under(prefix@)).map_values(|w: Waiter| w.waker) =~= Seq::<
            WakerId,
        >::empty());
    }
}

/// A scan that sees a device under a prefix is remembered, in place of what was
/// seen under it before. Those who wait for an endpoint under the prefix are to
/// be woken, in the order in which they came, and wait no longer; the others go
/// on waiting. Nothing else changes.
pub proof fn hints_are_kept_and_wake(
    r: RoutingView,
    prefix: KeyPrefix,
    device: Seq<char>,
    other: Seq<u8>,
)
    ensures
        ({
            let after = r.hint_noted(prefix, device);
            &&& after == RoutingView {
                scan_hint: after.scan_hint,
                waiting: after.waiting,
                due: after.due,
                ..r
            }
            &&& after.scan_hint.contains_key(prefix@) && after.scan_hint[prefix@] == device
            &&& other != prefix@ ==> after.scan_hint.contains_key(other)
                == r.scan_hint.contains_key(other) && after.scan_hint[other] == r.scan_hint[other]
            &&& after.waiting == r.waiting.filter(waits_elsewhere(prefix@))
            &&& after.due == r.due + r.waiting.filter(waits_under(prefix@)).map_values(
                |w: Waiter| w.waker,
            )
        }),
{
    lemma_wakers(r.waiting, prefix);
}

/// The task waits for the endpoint with this key.
pub open spec fn waits_for(key: Seq<u8>) -> spec_fn(Waiter) -> bool {
    |w: Waiter| w.endpoint_id@ == key
}

/// The task waits for another endpoint.
pub open spec fn waits_for_another(key: Seq<u8>) -> spec_fn(Waiter) -> bool {
    |w: Waiter| w.endpoint_id@ != key
}

proof fn lemma_endpoint_wakers(waiting: Seq<Waiter>, key: Seq<u8>)
    ensures
        wakers_of(waiting, waits_for_endpoint(key)) == waiting.filter(waits_for(key)).map_values(
            |w: Waiter| w.waker,
        ),
        waiting.filter(|w: Waiter| !waits_for_endpoint(key)(w)) == waiting.filter(
            waits_for_another(key),
        ),
    decreases waiting.len(),
{
    reveal(Seq::filter);
    if waiting.len() > 0 {
        lemma_endpoint_wakers(waiting.drop_last(), key);
        let w = waiting.last();
        let before = waiting.drop_last().filter(waits_for(key));
        assert(before.push(w).map_values(|w: Waiter| w.waker) =~= before.map_values(
            |w: Waiter| w.waker,
        ).push(w.waker));
    } else {
        assert(waiting.filter(waits_for(key)).map_values(|w: Waiter| w.waker) =~= Seq::<
            WakerId,
        >::empty());
    }
}

/// A pipe under way to an endpoint wakes those who wait for that endpoint, in
/// the order in which they came; the others go on waiting.
pub proof fn pipes_under_way_wake(r: RoutingView, key: Seq<u8>)
    ensures
        ({
            let after = r.woken(waits_for_endpoint(key));
            &&& after == RoutingView { waiting: after.waiting, due: after.due, ..r }
            &&& after.waiting == r.waiting.filter(waits_for_another(key))
            &&& after.due == r.due + r.waiting.filter(waits_for(key)).map_values(
                |w: Waiter| w.waker,
            )
        }),
{
    lemma_endpoint_wakers(r.waiting, key);
}

/// A routable pipe that is live is one that leads to its endpoint, with its
/// device, since its handshake.
pub proof fn routable_pipes_have_a_device(r: RoutingView, entry: RoutableEntry)
    ensures
        r.routable_live(entry) <==> {
            let key = entry.endpoint_id@;
            &&& r.routable.contains_key(key)
            &&& r.routable[key].stable_id == entry.stable_id
            &&& r.routable[key].verified_at == entry.verified_at
            &&& pipe_with(r, entry.stable_id) matches Some(pipe) && pipe.device_id
                == entry.device_id@
        },
{
}

/// A task that waits is on record once, behind those that came before it;
/// nothing else changes.
pub proof fn waiting_tasks_are_on_record_once(
    r: RoutingView,
    endpoint_id: EndpointId,
    waker: WakerId,
)
    ensures
        ({
            let waiter = Waiter { endpoint_id, waker };
            let after = r.parked(endpoint_id, waker);
            &&& after == RoutingView { waiting: after.waiting, ..r }
            &&& after.waiting.contains(waiter)
            &&& r.waiting.contains(waiter) ==> after.waiting == r.waiting
            &&& !r.waiting.contains(waiter) ==> after.waiting == r.waiting + seq![waiter]
        }),
{
    let waiter = Waiter { endpoint_id, waker };
    let after = r.parked(endpoint_id, waker);
    if !r.waiting.contains(waiter) {
        assert(after.waiting =~= r.waiting + seq![waiter]);
        assert(after.waiting[r.waiting.len() as int] == waiter);
    }
}

/// Who dialled, as both sides see it: we did for a pipe that goes out, the peer
/// did for one that comes in. That is the lower of the two keys where it is
/// smaller at the first byte at which they differ.
pub proof fn dialers_are_low_or_high(mine: Seq<u8>, theirs: Seq<u8>, direction: Direction)
    requires
        mine.len() == theirs.len(),
        mine != theirs,
    ensures
        ({
            let lower = exists|k: int| #[trigger] smaller_at(mine, theirs, k);
            let higher = exists|k: int| #[trigger] smaller_at(theirs, mine, k);
            let dialer = Dialer::of(mine, theirs, direction);
            &&& lower != higher
            &&& direction is Outbound ==> (dialer is Low <==> lower)
            &&& direction is Inbound ==> (dialer is Low <==> higher)
        }),
{
    crate::bytes::precedes_total(mine, theirs);
    the_first_difference_decides(mine, theirs);
    the_first_difference_decides(theirs, mine);
}

/// A pipe that is promoted is the one that leads to the endpoint from now on,
/// with who dialled it; what led there before, if it was another, has to make
/// room. No other endpoint is led elsewhere, and nothing else changes.
pub proof fn promoted_pipes_lead_to_their_endpoint(
    r: RoutingView,
    id: StableConnId,
    mine: Seq<u8>,
    remote: Seq<u8>,
    now: Instant,
    other: Seq<u8>,
)
    ensures
        ({
            let after = r.promoted(id, mine, remote, now);
            let direction = match pipe_with(r, id) {
                Some(pipe) => pipe.direction,
                None => Direction::Outbound,
            };
            &&& after == RoutingView { routable: after.routable, ..r }
            &&& after.routable.contains_key(remote)
            &&& after.routable[remote].stable_id == id
            &&& after.routable[remote].verified_at == now
            &&& after.routable[remote].dialer == Dialer::of(mine, remote, direction)
            &&& other != remote ==> after.routable.contains_key(other) == r.routable.contains_key(
                other,
            ) && after.routable[other] == r.routable[other]
            &&& r.displaced_by(id, remote) == if r.routable.contains_key(remote)
                && r.routable[remote].stable_id != id {
                seq![r.routable[remote].stable_id]
            } else {
                seq![]
            }
        }),
{
}

/// An id that is reserved for an endpoint is found under the first twelve bytes
/// of its key. One that is reserved already stays; otherwise it is the next id,
/// which is then reserved for no other endpoint. Other reservations stay.
pub proof fn reservations_are_found(r: RoutingView, endpoint_id: EndpointId, other: Seq<u8>)
    requires
        r.wf(),
    ensures
        ({
            let after = r.reserved(endpoint_id);
            let prefix = endpoint_id@.take(12);
            let next: u64 = if r.last_id == u64::MAX {
                1
            } else {
                (r.last_id + 1) as u64
            };
            &&& r.reservations.contains_key(prefix) ==> after == r
            &&& !r.reservations.contains_key(prefix) ==> {
                &&& after == RoutingView {
                    reservations: after.reservations,
                    last_id: next,
                    ..r
                }
                &&& after.reservations.contains_key(prefix)
                &&& after.reservations[prefix].stable_id.raw == next
                &&& after.reservations[prefix].endpoint_id == endpoint_id
                &&& after.reservations[prefix].prefix@ == prefix
                &&& other != prefix ==> {
                    let taken = r.reservations.contains_key(other)
                        && r.reservations[other].stable_id.raw == next;
                    &&& after.reservations.contains_key(other) == (r.reservations.contains_key(
                        other,
                    ) && !taken)
                    &&& after.reservations.contains_key(other) ==> after.reservations[other]
                        == r.reservations[other]
                }
            }
        }),
{
    lemma_prefix_bytes(endpoint_id);
    let id = r.next();
    lemma_reservation_with(r, id);
    if r.reservations.contains_key(other) && r.reservations[other].stable_id == id {
        let found = r.reservation_with(id)->0;
        assert(r.reservations.contains_key(found.prefix@));
    }
}

/// How an endpoint is reached. A pipe whose handshake is done comes first, then
/// one under way, then an id that is reserved for its prefix; where a scan has
/// seen the prefix, an id is reserved now. Otherwise the endpoint cannot be
/// reached yet.
pub proof fn the_best_way_is_taken(r: RoutingView, endpoint_id: EndpointId)
    ensures
        ({
            let key = endpoint_id@;
            let prefix = key.take(12);
            let found = reachable(r, endpoint_id);
            let next: u64 = if r.last_id == u64::MAX {
                1
            } else {
                (r.last_id + 1) as u64
            };
            let routable = r.routable.contains_key(key);
            let pending = !routable && r.pending.contains_key(key);
            let reserved = !routable && !pending && r.reservations.contains_key(prefix);
            let seen = !routable && !pending && !reserved && r.scan_hint.contains_key(prefix);
            &&& routable ==> found == Some(
                (r.routable[key].stable_id, ResolveSource::Routable),
            )
            &&& pending ==> found == Some((r.pending[key], ResolveSource::Pending))
            &&& reserved ==> found == Some(
                (r.reservations[prefix].stable_id, ResolveSource::ReservationExisting),
            )
            &&& seen ==> found == Some(
                (StableConnId { raw: next }, ResolveSource::ReservationNew),
            )
            &&& !routable && !pending && !reserved && !seen ==> found is None
        }),
{
    lemma_prefix_bytes(endpoint_id);
}

/// Whoever asks for an endpoint is on record as waiting for it. Where the answer
/// is an id reserved now, that id is reserved for the endpoint: whoever asks
/// next is told the same. Nothing else changes.
pub proof fn asking_puts_the_asker_on_record(
    r: RoutingView,
    endpoint_id: EndpointId,
    waker: WakerId,
)
    ensures
        ({
            let after = asked(r, endpoint_id, waker);
            let prefix = endpoint_id@.take(12);
            let reserves = reachable(r, endpoint_id) matches Some((_, source)) && source
                is ReservationNew;
            &&& after.waiting.contains(Waiter { endpoint_id, waker })
            &&& after == RoutingView {
                waiting: after.waiting,
                reservations: after.reservations,
                last_id: after.last_id,
                ..r
            }
            &&& !reserves ==> after.reservations == r.reservations && after.last_id == r.last_id
            &&& reserves ==> after.reservations.contains_key(prefix) && (reachable(r, endpoint_id)
                matches Some((id, _)) && after.reservations[prefix].stable_id == id)
                && after.reservations[prefix].endpoint_id == endpoint_id && after.last_id
                == after.reservations[prefix].stable_id.raw
        }),
{
    lemma_prefix_bytes(endpoint_id);
    waiting_tasks_are_on_record_once(r, endpoint_id, waker);
}

/// An address of this transport starts with the letters of its name as a number
/// and carries its token in eight bytes, the lowest first; an address of another
/// transport or of another length carries none.
pub proof fn addresses_carry_their_token(token: u64, addr: CustomAddrView)
    ensures
        token_addr(token).id == 0x424C45,
        token_addr(token).data.len() == 8,
        token == token_addr(token).data[0] + 0x100 * (token_addr(token).data[1] + 0x100 * (
        token_addr(token).data[2] + 0x100 * (token_addr(token).data[3] + 0x100 * (
        token_addr(token).data[4] + 0x100 * (token_addr(token).data[5] + 0x100 * (
        token_addr(token).data[6] + 0x100 * token_addr(token).data[7])))))),
        token_of(addr) is Ok <==> addr.id == 0x424C45 && addr.data.len() == 8,
        token_of(addr) matches Ok(t) ==> addr == token_addr(t),
        addr.id != 0x424C45 ==> token_of(addr) == Err::<u64, IoErrorView>(
            IoErrorView { kind: ErrorKind::Other, message: "not a BLE transport address"@ },
        ),
        addr.id == 0x424C45 && addr.data.len() != 8 ==> token_of(addr) == Err::<u64, IoErrorView>(
            IoErrorView { kind: ErrorKind::Other, message: "BLE custom addr has wrong length"@ },
        ),
{
    crate::bytes::numbers_are_written_lowest_byte_first(0, token);
    if token_of(addr) is Ok {
        crate::routing::addresses_are_determined_by_their_token(addr);
    }
}

/// Where a datagram goes. The address of a live pipe leads to the pipe's device.
/// That of a reservation leads to the device that a scan saw last under its
/// prefix, or nowhere if there is none. Any other address leads nowhere.
pub proof fn addresses_lead_to_devices(r: RoutingView, token: u64, prefix: Seq<u8>)
    requires
        r.wf(),
    ensures
        ({
            let id = StableConnId { raw: token };
            let target = send_target(r, token_addr(token));
            let reserved = r.reservations.contains_key(prefix) && r.reservations[prefix].stable_id
                == id;
            &&& pipe_with(r, id) matches Some(pipe) ==> target == Ok::<Seq<char>, IoErrorView>(
                pipe.device_id,
            )
            &&& pipe_with(r, id) is None && reserved && r.scan_hint.contains_key(prefix) ==> target
                == Ok::<Seq<char>, IoErrorView>(r.scan_hint[prefix])
            &&& pipe_with(r, id) is None && reserved && !r.scan_hint.contains_key(prefix) ==> target
                == Err::<Seq<char>, IoErrorView>(
                IoErrorView {
                    kind: ErrorKind::NotFound,
                    message: "BLE peer reservation has no live scan hint"@,
                },
            )
            &&& pipe_with(r, id) is None && (forall|p: Seq<u8>| #[trigger]
                r.reservations.contains_key(p) ==> r.reservations[p].stable_id != id) ==> target
                == Err::<Seq<char>, IoErrorView>(
                IoErrorView {
                    kind: ErrorKind::NotFound,
                    message: "unknown BLE stable-conn token"@,
                },
            )
        }),
{
    let id = StableConnId { raw: token };
    crate::routing::tokens_survive_their_address(token);
    lemma_reservation_with(r, id);
    if r.reservations.contains_key(prefix) && r.reservations[prefix].stable_id == id {
        let found = r.reservation_with(id)->0;
        assert(r.reservations.contains_key(found.prefix@));
    }
}

/// An address that is not one of this transport's leads nowhere, for the reason
/// that it carries no token.
pub proof fn foreign_addresses_lead_nowhere(r: RoutingView, addr: CustomAddrView)
    requires
        addr.id != 0x424C45 || addr.data.len() != 8,
    ensures
        send_target(r, addr) is Err,
        token_of(addr) is Err,
        send_target(r, addr)->Err_0 == token_of(addr)->Err_0,
{
}

/// The connection's token is that of its first path that is open and of this
/// transport; a connection without such a path has none.
pub proof fn connections_go_by_their_first_open_path(paths: Seq<ConnectionPath>, k: int)
    requires
        0 <= k < paths.len(),
        forall|i: int|
            0 <= i < k ==> (#[trigger] paths[i]).closed || paths[i].custom is None
                || paths[i].custom->0@.id != 0x424C45 || paths[i].custom->0@.data.len() != 8,
    ensures
        ({
            let path = paths[k];
            let ours = !path.closed && path.custom is Some && path.custom->0@.id == 0x424C45
                && path.custom->0@.data.len() == 8;
            &&& ours ==> first_token(paths) is Some && token_addr(first_token(paths)->0)
                == path.custom->0@
            &&& !ours && k == paths.len() - 1 ==> first_token(paths) is None
        }),
    decreases k,
{
    if k == 0 {
        if path_token(paths[0]) is Some {
            crate::routing::addresses_are_determined_by_their_token(paths[0].custom->0@);
        }
    } else {
        assert(paths[0].closed || paths[0].custom is None || paths[0].custom->0@.id != 0x424C45
            || paths[0].custom->0@.data.len() != 8);
        let rest = paths.skip(1);
        assert forall|i: int| 0 <= i < k - 1 implies (#[trigger] rest[i]).closed || rest[i].custom
            is None || rest[i].custom->0@.id != 0x424C45 || rest[i].custom->0@.data.len() != 8 by {
            assert(rest[i] == paths[i + 1]);
        }
        assert(rest[k - 1] == paths[k]);
        connections_go_by_their_first_open_path(rest, k - 1);
    }
}

/// The devices of several pipes are those of the live ones among them, in order.
pub proof fn devices_follow_their_pipes(
    r: RoutingView,
    ids: Seq<StableConnId>,
    id: StableConnId,
)
    ensures
        devices_of(r, seq![]) == Seq::<Seq<char>>::empty(),
        devices_of(r, ids.push(id)) == devices_of(r, ids) + match pipe_with(r, id) {
            Some(pipe) => seq![pipe.device_id],
            None => seq![],
        },
{
    assert(ids.push(id).drop_last() =~= ids);
    assert(devices_of(r, ids.push(id)) =~= devices_of(r, ids) + match pipe_with(r, id) {
        Some(pipe) => seq![pipe.device_id],
        None => seq![],
    });
}

/// Which pipes are torn down: those that are live, lead to an endpoint that has
/// no active path, and whose handshake lies at least the grace period back.
pub proof fn idle_pipes_are_torn_down(
    r: RoutingView,
    active: Seq<EndpointId>,
    grace: Duration,
    now: Instant,
    key: Seq<u8>,
    id: StableConnId,
)
    ensures
        is_torn_down(r, active, grace, now, key) <==> {
            &&& r.routable.contains_key(key)
            &&& pipe_with(r, r.routable[key].stable_id) is Some
            &&& r.routable[key].verified_at.nanos + grace.nanos <= now.nanos || grace.nanos == 0
            &&& forall|i: int| 0 <= i < active.len() ==> (#[trigger] active[i])@ != key
        },
        is_torn_down(r, active, grace, now, key) && r.routable[key].stable_id == id ==> is_lost(
            r,
            active,
            grace,
            now,
            id,
        ),
        is_lost(r, active, grace, now, id) ==> exists|k: Seq<u8>| #[trigger]
            r.routable.contains_key(k) && r.routable[k].stable_id == id && is_torn_down(
                r,
                active,
                grace,
                now,
                k,
            ),
{
    if is_lost(r, active, grace, now, id) {
        let k = choose|k: Seq<u8>| #[trigger]
            is_torn_down(r, active, grace, now, k) && r.routable[k].stable_id == id;
        assert(r.routable.contains_key(k));
    }
}

} // verus!
