//! What each command is for: how the peer that it is about stands before and
//! after, and what is asked for.

use vstd::prelude::*;

use crate::bytes::{first_difference, precedes};
use crate::channel::{PipeView, TrySend};
use crate::keys::endpoint_prefix;
use crate::lifecycle::{ChannelAnswers, Step};
use crate::peer::{
    lemma_prefix_ext, ActionView, ChannelHandle, ConnectPath, ConnectRole, DeadReason, EndpointId,
    ErrorKind, KeyPrefix, L2capChannel, PeerCommand, PeerPhase, PeerView, PendingSendView,
};
use crate::registry::{
    known, lemma_filter_distinct, lemma_place, place, sweep_actions, swept, tick_of, RegistryView,
};
use crate::registry_laws::lemma_swept_distinct;
use crate::registry_order::dials_go_with_connecting;
use crate::time::{Clock, Instant};

verus! {

/// What is known of a device that nothing was known of: its name.
pub open spec fn blank(p: PeerView, id: Seq<char>) -> bool {
    &&& p.device_id == id
    &&& p.phase is Unknown
    &&& p.role is Central
    &&& p.tx_gen == 0
    &&& p.consecutive_failures == 0
    &&& p.pending_sends.len() == 0
    &&& p.rx_backlog.len() == 0
    &&& p.pipe is None
    &&& p.closed is None
    &&& p.prefix is None
    &&& p.verified_endpoint is None
    &&& p.verified_at is None
    &&& p.l2cap_channel is None
    &&& !p.l2cap_upgrade_failed
    &&& p.last_adv is None
    &&& p.last_rx is None
    &&& p.last_tx is None
}

/// The device stands as `p`; one that is not known is blank.
pub open spec fn stands(r: RegistryView, id: Seq<char>, p: PeerView) -> bool {
    match r.peer(id) {
        Some(found) => p == found,
        None => blank(p, id),
    }
}

pub(crate) proof fn lemma_blank(p: PeerView, id: Seq<char>)
    requires
        blank(p, id),
    ensures
        p == PeerView::fresh(id),
{
    assert(p.pending_sends =~= Seq::empty());
    assert(p.rx_backlog =~= Seq::empty());
}

pub(crate) proof fn lemma_known_step(r: RegistryView, id: Seq<char>, f: spec_fn(PeerView) -> Step)
    requires
        r.wf(),
        r.peer(id) matches Some(p) && f(p).peer.device_id == id,
    ensures
        r.at_known(id, f).registry.peer(id) == Some(f(r.peer(id)->0).peer),
        r.at_known(id, f).actions == f(r.peer(id)->0).actions,
        r.at_known(id, f).registry.wf(),
{
    let i = place(r.peers, id);
    let after = r.at_known(id, f).registry;
    assert(after.peers[i].device_id == id);
    assert forall|a: int, b: int| 0 <= a < b < after.peers.len() implies (
    #[trigger] after.peers[a]).device_id != (#[trigger] after.peers[b]).device_id by {
        assert(r.peers[a].device_id != r.peers[b].device_id);
    }
    lemma_place(after.peers, id, i);
}

pub(crate) proof fn lemma_any_step(
    r: RegistryView,
    id: Seq<char>,
    f: spec_fn(PeerView) -> Step,
    fresh: Step,
)
    requires
        r.wf(),
        r.peer(id) matches Some(p) ==> f(p).peer.device_id == id,
        fresh.peer.device_id == id,
    ensures
        ({
            let o = r.at_any(id, f, fresh);
            let s = match r.peer(id) {
                Some(p) => f(p),
                None => fresh,
            };
            o.registry.peer(id) == Some(s.peer) && o.actions == s.actions
        }),
{
    if known(r.peers, id) {
        lemma_known_step(r, id, f);
    } else {
        let after = r.at_any(id, f, fresh).registry;
        let n = r.peers.len() as int;
        assert(after.peers[n] == fresh.peer);
        assert forall|a: int, b: int| 0 <= a < b < after.peers.len() implies (
        #[trigger] after.peers[a]).device_id != (#[trigger] after.peers[b]).device_id by {
            if b < n {
                assert(r.peers[a].device_id != r.peers[b].device_id);
            } else {
                assert(r.peers[a].device_id != id);
            }
        }
        lemma_place(after.peers, id, n);
    }
}

/// The command sends a datagram to the device.
pub open spec fn sends(cmd: PeerCommand, id: Seq<char>, send: PendingSendView) -> bool {
    cmd matches PeerCommand::SendDatagram { device_id, tx_gen, datagram, waker } && device_id@ == id
        && send.tx_gen == tx_gen && send.datagram == datagram@ && send.waker == waker
}

/// The send is answered with success, or the device is dialled for it.
pub open spec fn promised(actions: Seq<ActionView>, id: Seq<char>, send: PendingSendView) -> bool {
    ||| actions.contains(
        ActionView::AckSend { tx_gen: send.tx_gen, waker: send.waker, result: Ok(()) },
    )
    ||| exists|attempt: u32| #[trigger]
        actions.contains(ActionView::StartConnect { device_id: id, attempt })
}

proof fn lemma_sent_step(
    r: RegistryView,
    cmd: PeerCommand,
    at: Clock,
    a: ChannelAnswers,
    id: Seq<char>,
    send: PendingSendView,
    p: PeerView,
)
    requires
        r.wf(),
        sends(cmd, id, send),
        stands(r, id, p),
    ensures
        r.step(cmd, at, a).registry.peer(id) == Some(p.sent(at.now, send, a).peer),
        r.step(cmd, at, a).actions == p.sent(at.now, send, a).actions,
{
    if r.peer(id) is None {
        lemma_blank(p, id);
    }
    lemma_any_step(
        r,
        id,
        |p: PeerView| p.sent(at.now, send, a),
        PeerView::fresh(id).sent(at.now, send, a),
    );
}

/// A send that is answered with success, or for which the device is dialled, is
/// not lost: it is the last one that waits, or the last one that the pipe took.
/// Nor does it cost any send before it: each still waits, or the pipe took it,
/// be it the pipe that is there or the one that was just found closed.
pub proof fn promised_sends_are_not_lost(
    r: RegistryView,
    cmd: PeerCommand,
    at: Clock,
    a: ChannelAnswers,
    id: Seq<char>,
    send: PendingSendView,
    p: PeerView,
    i: int,
)
    requires
        r.wf(),
        sends(cmd, id, send),
        stands(r, id, p),
    ensures
        ({
            let o = r.step(cmd, at, a);
            let q = o.registry.peer(id)->0;
            &&& o.registry.peer(id) is Some
            &&& promised(o.actions, id, send) ==> (q.pending_sends.len() > 0
                && q.pending_sends.last() == send) || (q.pipe matches Some(pipe)
                && pipe.outbound.len() > 0 && pipe.outbound.last() == send)
            &&& 0 <= i < p.pending_sends.len() ==> {
                ||| q.pending_sends.contains(p.pending_sends[i])
                ||| q.pipe matches Some(pipe) && pipe.outbound.contains(p.pending_sends[i])
                ||| q.closed matches Some(log) && log.contains(
                    (p.pending_sends[i], TrySend::Accepted),
                )
            }
        }),
{
    lemma_sent_step(r, cmd, at, a, id, send, p);
    let o = r.step(cmd, at, a);
    let q = o.registry.peer(id)->0;
    let waiting = p.pending_sends;
    if promised(o.actions, id, send) {
        assert(o.actions.len() > 0);
        if exists|attempt: u32| #[trigger]
            o.actions.contains(ActionView::StartConnect { device_id: id, attempt }) {
            let attempt = choose|attempt: u32| #[trigger]
                o.actions.contains(ActionView::StartConnect { device_id: id, attempt });
            let k = choose|k: int|
                0 <= k < o.actions.len() && o.actions[k] == (ActionView::StartConnect {
                    device_id: id,
                    attempt,
                });
            assert(o.actions[k] is StartConnect);
        } else {
            let ack = ActionView::AckSend {
                tx_gen: send.tx_gen,
                waker: send.waker,
                result: Ok(()),
            };
            let k = choose|k: int| 0 <= k < o.actions.len() && o.actions[k] == ack;
            assert(o.actions[k] == ack);
        }
    }
    if 0 <= i < waiting.len() {
        let live = p.phase matches PeerPhase::Connected { tx_gen, .. } && tx_gen == send.tx_gen;
        if live && p.pipe is Some {
            let taken = if a.outbound_taken <= waiting.len() {
                a.outbound_taken as int
            } else {
                waiting.len() as int
            };
            let before = p.pipe->0;
            if i < taken {
                match q.pipe {
                    Some(pipe) => {
                        assert(pipe.outbound[before.outbound.len() + i] == waiting[i]);
                    },
                    None => {
                        let log = q.closed->0;
                        assert(log[before.outbound_offered.len() + i] == (
                            waiting[i],
                            TrySend::Accepted,
                        ));
                    },
                }
            } else {
                assert(q.pending_sends[i - taken] == waiting[i]);
            }
        } else {
            assert(q.pending_sends[i] == waiting[i]);
        }
    }
}

/// Who gets an answer, and which. A send of another generation than the live
/// one, or to a peer that is going away or gone, is refused and leaves no trace.
/// While a link is on its way up, or is to come back, the send waits behind the
/// others and is answered with success; a device that was only seen is dialled
/// for it. Nothing else about the peer changes.
pub proof fn sends_without_a_pipe_wait_or_are_refused(
    r: RegistryView,
    cmd: PeerCommand,
    at: Clock,
    a: ChannelAnswers,
    id: Seq<char>,
    send: PendingSendView,
    p: PeerView,
)
    requires
        r.wf(),
        sends(cmd, id, send),
        stands(r, id, p),
    ensures
        ({
            let o = r.step(cmd, at, a);
            let q = o.registry.peer(id)->0;
            let answer = |result: Result<(), ErrorKind>|
                seq![ActionView::AckSend { tx_gen: send.tx_gen, waker: send.waker, result }];
            let waits = PeerView { pending_sends: p.pending_sends + seq![send], ..p };
            let stale = p.phase matches PeerPhase::Connected { tx_gen, .. } && tx_gen
                != send.tx_gen;
            &&& stale || p.phase is Draining || p.phase is Dead ==> q == p && o.actions == answer(
                Err(ErrorKind::WouldBlock),
            )
            &&& p.phase is Unknown || p.phase is PendingDial || p.phase is Connecting
                || p.phase is Handshaking || p.phase is Reconnecting || p.phase is Restoring
                ==> q == waits && o.actions == answer(Ok(()))
            &&& p.phase is Discovered ==> q == PeerView {
                phase: PeerPhase::Connecting {
                    attempt: 0,
                    started: at.now,
                    path: ConnectPath::Gatt,
                },
                ..waits
            } && o.actions == seq![ActionView::StartConnect { device_id: id, attempt: 0 }]
            &&& p.phase is Connected && !stale && p.pipe is None ==> q == waits && o.actions.len()
                == 0
        }),
{
    lemma_sent_step(r, cmd, at, a, id, send, p);
    assert(p.pending_sends.push(send) =~= p.pending_sends + seq![send]);
}

/// On a live link with a pipe, what the pipe took before, the sends that waited
/// and the new one make up what the pipe has taken and what still waits: those
/// that waited go first and in order, and the pipe is asked for the new one
/// last. The new one is answered with success if it was taken, or if the pipe
/// turns out to be gone, in which case it waits; it is refused if the pipe is
/// full. Nothing else about the peer changes.
pub proof fn live_sends_go_out_in_order(
    r: RegistryView,
    cmd: PeerCommand,
    at: Clock,
    a: ChannelAnswers,
    id: Seq<char>,
    send: PendingSendView,
    p: PeerView,
)
    requires
        r.wf(),
        sends(cmd, id, send),
        r.peer(id) == Some(p),
        p.phase matches PeerPhase::Connected { tx_gen, .. } && tx_gen == send.tx_gen,
        p.pipe is Some,
    ensures
        ({
            let o = r.step(cmd, at, a);
            let q = o.registry.peer(id)->0;
            let before = p.pipe->0;
            let waiting = p.pending_sends;
            let answer = |result: Result<(), ErrorKind>|
                seq![ActionView::AckSend { tx_gen: send.tx_gen, waker: send.waker, result }];
            &&& q == PeerView {
                pending_sends: q.pending_sends,
                pipe: q.pipe,
                closed: q.closed,
                ..p
            }
            &&& match q.pipe {
                Some(pipe) => {
                    &&& pipe.swap_tx == before.swap_tx
                    &&& pipe.inbound == before.inbound
                    &&& pipe.inbound_offered == before.inbound_offered
                    &&& q.closed == p.closed
                    &&& pipe.outbound_offered.len() > 0
                    &&& pipe.outbound_offered.last() == (send, a.direct)
                    &&& exists|n: int|
                        0 <= n <= waiting.len() && n <= a.outbound_taken && (n < waiting.len() ==> n
                            == a.outbound_taken) && q.pending_sends == #[trigger] waiting.skip(n)
                            && pipe.outbound == before.outbound + waiting.take(n) + if a.direct
                            is Accepted {
                            seq![send]
                        } else {
                            Seq::empty()
                        }
                    &&& a.direct !is Closed
                    &&& o.actions == answer(
                        if a.direct is Accepted {
                            Ok(())
                        } else {
                            Err(ErrorKind::WouldBlock)
                        },
                    )
                },
                None => {
                    &&& q.closed is Some
                    &&& exists|n: int|
                        0 <= n <= waiting.len() && n <= a.outbound_taken && (n < waiting.len() ==> n
                            == a.outbound_taken) && q.pending_sends == #[trigger] waiting.skip(n)
                            + seq![send]
                    &&& q.closed->0.len() > 0
                    &&& q.closed->0.last().1 is Closed
                    &&& o.actions == if a.outbound_taken < waiting.len() && a.outbound_closed {
                        Seq::empty()
                    } else {
                        answer(Ok(()))
                    }
                },
            }
            &&& a.outbound_taken >= waiting.len() && a.direct is Accepted ==> {
                &&& q.pipe is Some
                &&& q.pipe->0.outbound == before.outbound + waiting + seq![send]
                &&& q.pending_sends.len() == 0
            }
            &&& q.pipe is None <==> a.direct is Closed || (a.outbound_taken < waiting.len()
                && a.outbound_closed)
        }),
{
    lemma_known_step(r, id, |p: PeerView| p.sent(at.now, send, a));
    let q = r.step(cmd, at, a).registry.peer(id)->0;
    assert(q == p.sent(at.now, send, a).peer);
    let waiting = p.pending_sends;
    let before = p.pipe->0;
    let n = if a.outbound_taken <= waiting.len() {
        a.outbound_taken as int
    } else {
        waiting.len() as int
    };
    assert(waiting.skip(n).push(send) =~= waiting.skip(n) + seq![send]);
    match q.pipe {
        Some(pipe) => {
            assert(q.pending_sends == waiting.skip(n));
            assert(pipe.outbound =~= before.outbound + waiting.take(n) + if a.direct is Accepted {
                seq![send]
            } else {
                Seq::empty()
            });
        },
        None => {
            assert(q.pending_sends == waiting.skip(n) + seq![send]);
            if n < waiting.len() && a.outbound_closed {
                assert(q.closed->0.last().0 == waiting[n]);
            }
        },
    }
    if a.outbound_taken >= waiting.len() {
        assert(waiting.take(n) =~= waiting);
    }
}

/// The peer is connected in the generation after that of `p`.
pub open spec fn connected_next(
    p: PeerView,
    q: PeerView,
    channel: ChannelHandle,
    role: ConnectRole,
    now: Instant,
) -> bool {
    &&& q.tx_gen == p.tx_gen + 1
    &&& q.role == role
    &&& q.phase == PeerPhase::Connected {
        since: now,
        channel,
        tx_gen: (p.tx_gen + 1) as u64,
        upgrading: false,
    }
}

/// The pipe that the peer's generation is started with.
pub open spec fn pipe_of(
    q: PeerView,
    path: ConnectPath,
    l2cap_channel: Option<L2capChannel>,
) -> ActionView {
    ActionView::StartDataPipe {
        device_id: q.device_id,
        tx_gen: q.tx_gen,
        role: q.role,
        path,
        l2cap_channel,
    }
}

/// A fragment that arrives joins those that wait for a pipe as the last one, or
/// goes to the pipe at once. Of the fragments that wait on a link that is up the
/// oldest gives way once there are sixteen. A fragment over a link that is not
/// up yet, or not any more, brings it up, with the device as the central, unless
/// we are the ones who are about to finish connecting; while the adapter is off
/// it is dropped. That the device was heard is always noted, and nothing else
/// about it changes.
pub proof fn fragments_wait_in_the_order_of_arrival(
    r: RegistryView,
    cmd: PeerCommand,
    at: Clock,
    a: ChannelAnswers,
    id: Seq<char>,
    fragment: Seq<u8>,
    p: PeerView,
)
    requires
        r.wf(),
        r.can_handle(cmd, at),
        cmd matches PeerCommand::InboundGattFragment { device_id, bytes, .. } && device_id@ == id
            && bytes@ == fragment,
        stands(r, id, p),
    ensures
        ({
            let o = r.step(cmd, at, a);
            let q = o.registry.peer(id)->0;
            let joined = p.rx_backlog + seq![fragment];
            let up = p.phase is Connected;
            &&& o.registry.peer(id) is Some
            &&& q.last_rx == Some(at.now)
            &&& q == PeerView {
                last_rx: q.last_rx,
                rx_backlog: q.rx_backlog,
                pipe: q.pipe,
                phase: q.phase,
                tx_gen: q.tx_gen,
                role: q.role,
                ..p
            }
            &&& up && p.pipe is None ==> {
                &&& q.rx_backlog == if p.rx_backlog.len() < 16 {
                    joined
                } else {
                    joined.skip(1)
                }
                &&& q.pipe is None
            }
            &&& up && p.pipe is Some ==> {
                let taken = a.inbound_taken > 0;
                &&& q.rx_backlog == p.rx_backlog
                &&& q.pipe == Some(
                    PipeView {
                        inbound: if taken {
                            p.pipe->0.inbound + seq![fragment]
                        } else {
                            p.pipe->0.inbound
                        },
                        inbound_offered: p.pipe->0.inbound_offered + seq![(fragment, taken)],
                        ..p.pipe->0
                    },
                )
            }
            &&& up || p.phase is Restoring ==> o.actions.len() == 0 && q.phase == p.phase
                && q.tx_gen == p.tx_gen && q.role == p.role
            &&& p.phase is Restoring ==> q.rx_backlog == p.rx_backlog && q.pipe == p.pipe
            &&& !up && p.phase !is Restoring ==> {
                &&& q.rx_backlog == joined
                &&& o.actions == seq![pipe_of(q, ConnectPath::Gatt, None)]
            }
            &&& p.phase matches PeerPhase::Handshaking { channel, .. } ==> connected_next(
                p,
                q,
                channel,
                p.role,
                at.now,
            ) && q.pipe == p.pipe
            &&& !up && p.phase !is Restoring && p.phase !is Handshaking ==> connected_next(
                p,
                q,
                ChannelHandle { id: 0, path: ConnectPath::Gatt },
                ConnectRole::Peripheral,
                at.now,
            ) && q.pipe is None
        }),
{
    let fresh = PeerView { last_rx: Some(at.now), ..PeerView::fresh(id) };
    lemma_any_step(
        r,
        id,
        |p: PeerView| p.fragment_received(at.now, fragment, a),
        fresh.answering(at.now, fragment),
    );
    if r.peer(id) is None {
        lemma_blank(p, id);
    }
    let q = r.step(cmd, at, a).registry.peer(id)->0;
    let joined = p.rx_backlog + seq![fragment];
    assert(p.rx_backlog.push(fragment) =~= joined);
    if p.rx_backlog.len() >= 16 {
        assert(p.rx_backlog.skip(1).push(fragment) =~= joined.skip(1));
    }
    if p.pipe is Some {
        assert(p.pipe->0.inbound.push(fragment) =~= p.pipe->0.inbound + seq![fragment]);
        let taken = a.inbound_taken > 0;
        assert(p.pipe->0.inbound_offered.push((fragment, taken)) =~= p.pipe->0.inbound_offered
            + seq![(fragment, taken)]);
    }
}

/// A pipe that comes up is kept. The fragments that waited are offered to it
/// oldest first; the first that it does not take is lost, and those after it
/// keep waiting. The sends that waited are offered oldest first, and those from
/// the first that it does not take on keep waiting. Nothing else about the peer
/// changes and nothing is asked for.
pub proof fn new_pipes_get_what_waited(
    r: RegistryView,
    cmd: PeerCommand,
    at: Clock,
    a: ChannelAnswers,
    id: Seq<char>,
    pipe: PipeView,
    p: PeerView,
)
    requires
        r.wf(),
        cmd matches PeerCommand::DataPipeReady { device_id, handles, .. } && device_id@ == id
            && handles@ == pipe,
        r.peer(id) == Some(p),
    ensures
        ({
            let o = r.step(cmd, at, a);
            let q = o.registry.peer(id)->0;
            let sends = p.pending_sends;
            let waited = p.rx_backlog;
            &&& o.actions.len() == 0
            &&& q == PeerView {
                rx_backlog: q.rx_backlog,
                pending_sends: q.pending_sends,
                pipe: q.pipe,
                ..p
            }
            &&& q.pipe is Some
            &&& q.pipe->0.swap_tx == pipe.swap_tx
            &&& exists|n: int|
                0 <= n <= sends.len() && q.pending_sends == #[trigger] sends.skip(n)
                    && q.pipe->0.outbound == pipe.outbound + sends.take(n) && (n < sends.len()
                    ==> n == a.outbound_taken)
            &&& exists|n: int|
                0 <= n <= waited.len() && q.pipe->0.inbound == pipe.inbound
                    + #[trigger] waited.take(n) && (n < waited.len() ==> n == a.inbound_taken
                    && q.rx_backlog == waited.skip(n + 1)) && (n == waited.len()
                    ==> q.rx_backlog.len() == 0)
            &&& a.outbound_taken >= sends.len() ==> q.pending_sends.len() == 0
                && q.pipe->0.outbound == pipe.outbound + sends
            &&& a.inbound_taken >= waited.len() ==> q.rx_backlog.len() == 0 && q.pipe->0.inbound
                == pipe.inbound + waited
        }),
{
    lemma_known_step(r, id, |p: PeerView| p.pipe_ready(pipe, a).unchanged());
    let q = r.step(cmd, at, a).registry.peer(id)->0;
    let sends = p.pending_sends;
    let waited = p.rx_backlog;
    let n = if a.outbound_taken <= sends.len() {
        a.outbound_taken as int
    } else {
        sends.len() as int
    };
    assert(q.pending_sends == sends.skip(n) && q.pipe->0.outbound == pipe.outbound + sends.take(n));
    assert(sends.take(sends.len() as int) =~= sends);
    let m = if a.inbound_taken <= waited.len() {
        a.inbound_taken as int
    } else {
        waited.len() as int
    };
    assert(q.pipe->0.inbound == pipe.inbound + waited.take(m));
    assert(waited.take(waited.len() as int) =~= waited);
}

/// Fragments that come in one after the other on a link that waits for its
/// pipe.
pub open spec fn after_fragments(
    p: PeerView,
    now: Instant,
    fragments: Seq<Seq<u8>>,
    a: ChannelAnswers,
) -> PeerView
    decreases fragments.len(),
{
    if fragments.len() == 0 {
        p
    } else {
        after_fragments(p, now, fragments.drop_last(), a).fragment_received(
            now,
            fragments.last(),
            a,
        ).peer
    }
}

/// However many fragments arrive before the pipe of a link is ready, the pipe
/// gets the last sixteen of them, or all if there are not so many, in the order
/// in which they arrived.
pub proof fn fragments_reach_the_next_pipe_in_order(
    p: PeerView,
    now: Instant,
    fragments: Seq<Seq<u8>>,
    pipe: PipeView,
    a: ChannelAnswers,
)
    requires
        p.phase is Connected,
        p.pipe is None,
        p.rx_backlog.len() <= 16,
        a.inbound_taken >= 16,
    ensures
        ({
            let waiting = after_fragments(p, now, fragments, a);
            let arrived = p.rx_backlog + fragments;
            let last = if arrived.len() <= 16 {
                arrived
            } else {
                arrived.skip(arrived.len() - 16)
            };
            &&& waiting.phase == p.phase
            &&& waiting.pipe is None
            &&& waiting.rx_backlog == last
            &&& waiting.pipe_ready(pipe, a).pipe is Some
            &&& waiting.pipe_ready(pipe, a).pipe->0.inbound == pipe.inbound + last
        }),
    decreases fragments.len(),
{
    let waiting = after_fragments(p, now, fragments, a);
    let arrived = p.rx_backlog + fragments;
    if fragments.len() == 0 {
        assert(arrived =~= p.rx_backlog);
    } else {
        let rest = fragments.drop_last();
        fragments_reach_the_next_pipe_in_order(p, now, rest, pipe, a);
        let before = after_fragments(p, now, rest, a);
        let earlier = p.rx_backlog + rest;
        assert(arrived =~= earlier.push(fragments.last()));
        if earlier.len() >= 16 {
            assert(before.rx_backlog.skip(1).push(fragments.last()) =~= arrived.skip(
                arrived.len() - 16,
            ));
        }
    }
    let last = waiting.rx_backlog;
    assert(last.take(last.len() as int) =~= last);
}

/// A connection that comes up while the device is being connected to counts: the
/// peer is connected over that channel in its next generation, its failures are
/// forgotten, its version is read, and its pipe is started over GATT. At any
/// other time it changes nothing.
pub proof fn connections_count_while_connecting(
    r: RegistryView,
    cmd: PeerCommand,
    at: Clock,
    a: ChannelAnswers,
    id: Seq<char>,
    channel: ChannelHandle,
    p: PeerView,
)
    requires
        r.wf(),
        r.can_handle(cmd, at),
        cmd matches PeerCommand::ConnectSucceeded { device_id, channel: c } && device_id@ == id && c
            == channel,
        r.peer(id) == Some(p),
    ensures
        ({
            let o = r.step(cmd, at, a);
            let q = o.registry.peer(id)->0;
            &&& p.phase is Connecting ==> {
                &&& connected_next(p, q, channel, p.role, at.now)
                &&& q == PeerView {
                    phase: q.phase,
                    tx_gen: q.tx_gen,
                    consecutive_failures: 0,
                    ..p
                }
                &&& o.actions == seq![
                    ActionView::ReadVersion { device_id: id },
                    pipe_of(q, ConnectPath::Gatt, None),
                ]
            }
            &&& p.phase !is Connecting ==> q == p && o.actions.len() == 0
        }),
{
    lemma_known_step(r, id, |p: PeerView| p.connect_succeeded(at.now, channel));
}

/// Milliseconds that pass before the given attempt.
pub open spec fn wait_before(attempt: int) -> int {
    if attempt <= 0 {
        500
    } else if attempt == 1 {
        1_000
    } else if attempt == 2 {
        2_000
    } else if attempt == 3 {
        4_000
    } else if attempt == 4 {
        8_000
    } else if attempt == 5 {
        16_000
    } else {
        30_000
    }
}

proof fn lemma_backoff(attempt: u32)
    ensures
        crate::lifecycle::backoff(attempt).nanos == wait_before(attempt as int) * 1_000_000,
{
    vstd::arithmetic::power2::lemma2_to64();
}

/// A failed attempt to connect is counted. Short of the fifteenth the peer is
/// to be dialled again, for the next attempt, once the wait before it has
/// passed; after the fifteenth it is given up and dropped from the store. The
/// failure is reported with its reason. At any other time than while the device
/// is being connected to, the report changes nothing.
pub proof fn failed_attempts_wait_or_give_up(
    r: RegistryView,
    cmd: PeerCommand,
    at: Clock,
    a: ChannelAnswers,
    id: Seq<char>,
    reason: Seq<char>,
    p: PeerView,
)
    requires
        r.wf(),
        r.can_handle(cmd, at),
        cmd matches PeerCommand::ConnectFailed { device_id, error } && device_id@ == id && error@
            == reason,
        r.peer(id) == Some(p),
    ensures
        ({
            let o = r.step(cmd, at, a);
            let q = o.registry.peer(id)->0;
            let told = ActionView::EmitMetric("connect_failed:"@ + reason);
            &&& p.phase !is Connecting ==> q == p && o.actions.len() == 0
            &&& p.phase matches PeerPhase::Connecting { attempt, .. } ==> {
                &&& q == PeerView {
                    phase: q.phase,
                    consecutive_failures: (p.consecutive_failures + 1) as u32,
                    ..p
                }
                &&& attempt + 1 < 15 ==> {
                    &&& q.phase matches PeerPhase::Reconnecting { attempt: next, next_at, .. }
                        && next == attempt + 1 && next_at.nanos == at.now.nanos + wait_before(
                        attempt + 1,
                    ) * 1_000_000
                    &&& q.phase->Reconnecting_reason is Timeout
                    &&& o.actions == seq![told]
                }
                &&& attempt + 1 >= 15 ==> {
                    &&& q.phase == PeerPhase::Dead { reason: DeadReason::MaxRetries, at: at.now }
                    &&& o.actions == seq![told] + match p.prefix {
                        Some(prefix) => seq![ActionView::ForgetPeerStore { prefix }],
                        None => Seq::empty(),
                    }
                }
            }
        }),
{
    lemma_known_step(r, id, |p: PeerView| p.connect_failed(at.now, reason));
    if let PeerPhase::Connecting { attempt, .. } = p.phase {
        if attempt < u32::MAX {
            lemma_backoff((attempt + 1) as u32);
        }
        let o = r.step(cmd, at, a);
        let told = ActionView::EmitMetric("connect_failed:"@ + reason);
        if attempt + 1 >= 15 {
            assert(o.actions =~= seq![told] + match p.prefix {
                Some(prefix) => seq![ActionView::ForgetPeerStore { prefix }],
                None => Seq::empty(),
            });
        }
    }
}

proof fn lemma_ticked_peer(r: RegistryView, now: Instant, id: Seq<char>)
    requires
        r.wf(),
    ensures
        r.peer(id) is None ==> r.ticked(now).registry.peer(id) is None,
        r.peer(id) matches Some(p) ==> r.ticked(now).registry.peer(id) == if p.ticked(
            now,
        ).peer.expired(now) {
            None
        } else {
            Some(p.ticked(now).peer)
        },
{
    let moved = swept(r.peers, tick_of(now));
    let keep = |p: PeerView| !p.expired(now);
    let after = r.ticked(now).registry;
    lemma_swept_distinct(r.peers, now);
    lemma_filter_distinct(moved, keep);
    assert(after.peers == moved.filter(keep));
    if known(after.peers, id) {
        let j = place(after.peers, id);
        assert(moved.contains(moved.filter(keep)[j]));
        let k = choose|k: int| 0 <= k < moved.len() && moved[k] == after.peers[j];
        assert(r.peers[k].device_id == id);
        lemma_place(r.peers, id, k);
        moved.lemma_filter_pred(keep, j);
    }
    if known(r.peers, id) {
        let i = place(r.peers, id);
        assert(moved[i] == r.peers[i].ticked(now).peer);
        if keep(moved[i]) {
            moved.lemma_filter_contains(keep, i);
            let j = choose|j: int| 0 <= j < after.peers.len() && after.peers[j] == moved[i];
            lemma_place(after.peers, id, j);
        }
    }
}

proof fn lemma_ticks_only_dial(peers: Seq<PeerView>, now: Instant, n: nat)
    requires
        n <= peers.len(),
    ensures
        forall|k: int|
            0 <= k < sweep_actions(peers, tick_of(now), n).len() ==> (#[trigger] sweep_actions(
                peers,
                tick_of(now),
                n,
            )[k]) is StartConnect,
    decreases n,
{
    if n > 0 {
        lemma_ticks_only_dial(peers, now, (n - 1) as nat);
    }
}

/// What time does to a peer. A dial that is due is made, for the attempt that
/// was set, and none is made before its time; five seconds are enough to drain,
/// two minutes to be restored, and a peer that is given up is remembered for one
/// minute. Nothing else about a peer changes, no peer comes out of nowhere, and
/// nothing but dials is asked for.
pub proof fn time_brings_dials_and_ends(
    r: RegistryView,
    at: Clock,
    a: ChannelAnswers,
    now: Instant,
    id: Seq<char>,
)
    requires
        r.wf(),
    ensures
        ({
            let o = r.step(PeerCommand::Tick(now), at, a);
            let after = o.registry.peer(id);
            let dialled = |attempt: u32| PeerPhase::Connecting {
                attempt,
                started: now,
                path: ConnectPath::Gatt,
            };
            &&& forall|k: int| 0 <= k < o.actions.len() ==> (#[trigger] o.actions[k]) is StartConnect
            &&& r.peer(id) is None ==> after is None
            &&& r.peer(id) matches Some(p) ==> match p.phase {
                PeerPhase::Reconnecting { attempt, next_at, .. } => if now.nanos < next_at.nanos {
                    after == Some(p)
                } else {
                    after == Some(PeerView { phase: dialled(attempt), ..p }) && o.actions.contains(
                        ActionView::StartConnect { device_id: id, attempt },
                    )
                },
                PeerPhase::PendingDial { deadline, .. } => if now.nanos < deadline.nanos {
                    after == Some(p)
                } else {
                    after == Some(PeerView { phase: dialled(0), ..p }) && o.actions.contains(
                        ActionView::StartConnect { device_id: id, attempt: 0 },
                    )
                },
                PeerPhase::Draining { since, .. } => after == Some(
                    if now.nanos > since.nanos + 5_000_000_000 {
                        PeerView {
                            phase: PeerPhase::Dead { reason: DeadReason::Forgotten, at: now },
                            ..p
                        }
                    } else {
                        p
                    },
                ),
                PeerPhase::Restoring { since } => after == Some(
                    if now.nanos > since.nanos + 120_000_000_000 {
                        PeerView {
                            phase: PeerPhase::Dead { reason: DeadReason::Forgotten, at: now },
                            ..p
                        }
                    } else {
                        p
                    },
                ),
                PeerPhase::Dead { at: died, .. } => if now.nanos > died.nanos + 60_000_000_000 {
                    after is None
                } else {
                    after == Some(p)
                },
                _ => after == Some(p),
            }
        }),
{
    let o = r.step(PeerCommand::Tick(now), at, a);
    lemma_ticked_peer(r, now, id);
    lemma_ticks_only_dial(r.peers, now, r.peers.len());
    if let Some(p) = r.peer(id) {
        match p.phase {
            PeerPhase::Reconnecting { attempt, .. } => {
                dials_go_with_connecting(r, PeerCommand::Tick(now), at, a, id, attempt);
            },
            PeerPhase::PendingDial { .. } => {
                dials_go_with_connecting(r, PeerCommand::Tick(now), at, a, id, 0);
            },
            _ => {},
        }
    }
}

/// An advertisement is noted, with the prefix that it carries. It leads to a
/// dial only for what waits to be sent to a device that was at most seen, and
/// for a device whose wait before the next attempt is over; and to none at all
/// while a live link leads to a peer that has proved a key with this prefix.
/// Where the other side is to dial first, the first dial is held back. Nothing
/// else about the device changes.
pub proof fn advertisements_lead_to_dials(
    r: RegistryView,
    cmd: PeerCommand,
    at: Clock,
    a: ChannelAnswers,
    id: Seq<char>,
    prefix: KeyPrefix,
    p: PeerView,
)
    requires
        r.wf(),
        r.can_handle(cmd, at),
        cmd matches PeerCommand::Advertised { prefix: carried, device, .. } && device.id@ == id
            && carried == prefix,
        stands(r, id, p),
    ensures
        ({
            let o = r.step(cmd, at, a);
            let q = o.registry.peer(id)->0;
            let linked = r.has_verified_live(prefix);
            let held = r.defers_to(prefix);
            let unseen = p.phase is Unknown || p.phase is Discovered;
            let waiting = p.pending_sends.len() > 0;
            &&& o.registry.peer(id) is Some
            &&& q == PeerView { last_adv: Some(at.now), prefix: Some(prefix), phase: q.phase, ..p }
            &&& unseen && waiting && !linked && !held ==> {
                &&& q.phase == PeerPhase::Connecting {
                    attempt: 0,
                    started: at.now,
                    path: ConnectPath::Gatt,
                }
                &&& o.actions == seq![ActionView::StartConnect { device_id: id, attempt: 0 }]
            }
            &&& unseen && waiting && !linked && held ==> {
                &&& q.phase matches PeerPhase::PendingDial { since, deadline, prefix: for_prefix }
                    && since == at.now && for_prefix == prefix && at.now.nanos + 1_500_000_000
                    <= deadline.nanos < at.now.nanos + 2_500_000_000
                &&& o.actions.len() == 0
            }
            &&& p.phase is Unknown && !waiting && !linked ==> q.phase == (PeerPhase::Discovered {
                since: at.now,
            }) && o.actions.len() == 0
            &&& p.phase matches PeerPhase::Reconnecting { attempt, next_at, .. } ==> (!linked
                && next_at.nanos <= at.now.nanos ==> {
                &&& q.phase == PeerPhase::Connecting {
                    attempt,
                    started: at.now,
                    path: ConnectPath::Gatt,
                }
                &&& o.actions == seq![ActionView::StartConnect { device_id: id, attempt }]
            })
            &&& linked || (!unseen && p.phase !is Reconnecting) || (p.phase is Discovered
                && !waiting) || (p.phase matches PeerPhase::Reconnecting { next_at, .. }
                && at.now.nanos < next_at.nanos) ==> q.phase == p.phase && o.actions.len() == 0
        }),
{
    let linked = r.has_verified_live(prefix);
    let held = r.defers_to(prefix);
    if r.peer(id) is None {
        lemma_blank(p, id);
    }
    lemma_any_step(
        r,
        id,
        |p: PeerView| p.advertised(at.now, prefix, linked, held),
        PeerView::fresh(id).advertised(at.now, prefix, linked, held),
    );
    crate::dedup::dial_waits_rest_on_the_peer_alone(at.now, at.now, prefix);
}

/// Which peers an advertisement is not to lead to a dial for, and towards which
/// the first dial is held back: a live link leads to a peer that has proved a key
/// with the prefix; our own key comes before the prefix, and no key with the
/// prefix has been proved yet.
pub proof fn advertisements_are_weighed(r: RegistryView, prefix: KeyPrefix)
    ensures
        r.has_verified_live(prefix) <==> exists|i: int|
            0 <= i < r.peers.len() && (#[trigger] r.peers[i]).phase is Connected && (
            r.peers[i].verified_endpoint matches Some(key) && key@.take(12) == prefix@),
        r.defers_to(prefix) <==> !r.verified.contains_key(prefix@) && exists|k: int|
            0 <= k < 12 && r.my_endpoint@.take(k) == prefix@.take(k) && (
            #[trigger] r.my_endpoint@[k]) < prefix@[k],
{
    assert forall|key: EndpointId| #[trigger] endpoint_prefix(key) == prefix <==> key@.take(12)
        == prefix@ by {
        lemma_prefix_of_key(key, prefix);
    }
    let mine = endpoint_prefix(r.my_endpoint)@;
    lemma_prefix_bytes(r.my_endpoint);
    if precedes(mine, prefix@) {
        let k = choose|k: int| #[trigger] first_difference(mine, prefix@, k) && mine[k] < prefix@[k];
        assert(r.my_endpoint@.take(k) =~= prefix@.take(k)) by {
            assert forall|j: int| 0 <= j < k implies r.my_endpoint@[j] == prefix@[j] by {
                assert(mine[j] == prefix@[j]);
            }
        }
        assert(r.my_endpoint@[k] < prefix@[k]);
    }
    if exists|k: int|
        0 <= k < 12 && r.my_endpoint@.take(k) == prefix@.take(k) && (#[trigger] r.my_endpoint@[k])
            < prefix@[k] {
        let k = choose|k: int|
            0 <= k < 12 && r.my_endpoint@.take(k) == prefix@.take(k) && (
            #[trigger] r.my_endpoint@[k]) < prefix@[k];
        assert forall|j: int| 0 <= j < k implies mine[j] == prefix@[j] by {
            assert(r.my_endpoint@.take(k)[j] == prefix@.take(k)[j]);
        }
        assert(first_difference(mine, prefix@, k));
    }
}

pub(crate) proof fn lemma_prefix_bytes(key: EndpointId)
    ensures
        endpoint_prefix(key)@ == key@.take(12),
{
    let prefix: KeyPrefix = [
        key.bytes[0],
        key.bytes[1],
        key.bytes[2],
        key.bytes[3],
        key.bytes[4],
        key.bytes[5],
        key.bytes[6],
        key.bytes[7],
        key.bytes[8],
        key.bytes[9],
        key.bytes[10],
        key.bytes[11],
    ];
    assert(prefix@ =~= key@.take(12));
}

pub(crate) proof fn lemma_prefix_of_key(key: EndpointId, prefix: KeyPrefix)
    ensures
        endpoint_prefix(key) == prefix <==> key@.take(12) == prefix@,
{
    lemma_prefix_bytes(key);
    if key@.take(12) == prefix@ {
        lemma_prefix_ext(endpoint_prefix(key), prefix);
    }
}

proof fn lemma_waiting(
    r: RegistryView,
    failed: PeerCommand,
    at: Clock,
    a: ChannelAnswers,
    id: Seq<char>,
) -> (next_at: Instant)
    requires
        r.wf(),
        r.can_handle(failed, at),
        failed matches PeerCommand::ConnectFailed { device_id, .. } && device_id@ == id,
        r.peer(id) matches Some(p) && (p.phase matches PeerPhase::Connecting { attempt, .. }
            && attempt + 1 < 15),
    ensures
        ({
            let attempt = (r.peer(id)->0.phase->Connecting_attempt + 1) as u32;
            let waiting = r.step(failed, at, a).registry;
            &&& waiting.wf()
            &&& next_at.nanos == at.now.nanos + wait_before(attempt as int) * 1_000_000
            &&& waiting.peer(id) is Some
            &&& waiting.peer(id)->0.phase matches PeerPhase::Reconnecting {
                attempt: n,
                next_at: t,
                ..
            } && n == attempt && t == next_at
        }),
{
    let p = r.peer(id)->0;
    let reason = failed->ConnectFailed_error@;
    failed_attempts_wait_or_give_up(r, failed, at, a, id, reason, p);
    lemma_known_step(r, id, |p: PeerView| p.connect_failed(at.now, reason));
    r.step(failed, at, a).registry.peer(id)->0.phase->Reconnecting_next_at
}

proof fn lemma_ticks_while_waiting(
    r: RegistryView,
    later: Clock,
    a: ChannelAnswers,
    id: Seq<char>,
    attempt: u32,
    next_at: Instant,
)
    requires
        r.wf(),
        r.peer(id) matches Some(p) && (p.phase matches PeerPhase::Reconnecting {
            attempt: n,
            next_at: t,
            ..
        } && n == attempt && t == next_at),
    ensures
        ({
            let ticked = r.step(PeerCommand::Tick(later.now), later, a);
            if later.now.nanos < next_at.nanos {
                &&& ticked.registry.peer(id) == r.peer(id)
                &&& forall|n: u32|
                    !#[trigger] ticked.actions.contains(
                        ActionView::StartConnect { device_id: id, attempt: n },
                    )
            } else {
                &&& ticked.actions.contains(ActionView::StartConnect { device_id: id, attempt })
                &&& ticked.registry.peer(id)->0.phase == PeerPhase::Connecting {
                    attempt,
                    started: later.now,
                    path: ConnectPath::Gatt,
                }
            }
        }),
{
    time_brings_dials_and_ends(r, later, a, later.now, id);
    assert forall|n: u32| later.now.nanos < next_at.nanos implies !#[trigger] r.step(
        PeerCommand::Tick(later.now),
        later,
        a,
    ).actions.contains(ActionView::StartConnect { device_id: id, attempt: n }) by {
        dials_go_with_connecting(r, PeerCommand::Tick(later.now), later, a, id, n);
    }
}

proof fn lemma_advertisements_while_waiting(
    r: RegistryView,
    seen: PeerCommand,
    later: Clock,
    a: ChannelAnswers,
    id: Seq<char>,
    prefix: KeyPrefix,
    next_at: Instant,
)
    requires
        r.wf(),
        seen matches PeerCommand::Advertised { prefix: carried, device, .. } && device.id@ == id
            && carried == prefix,
        r.peer(id) matches Some(p) && (p.phase matches PeerPhase::Reconnecting {
            next_at: t,
            ..
        } && t == next_at),
        later.now.nanos < next_at.nanos,
    ensures
        r.step(seen, later, a).registry.peer(id)->0.phase == r.peer(id)->0.phase,
        r.step(seen, later, a).actions.len() == 0,
{
    advertisements_lead_to_dials(r, seen, later, a, id, prefix, r.peer(id)->0);
}

/// After a failed attempt that is not the last, neither time nor an
/// advertisement leads to a dial before the wait has passed; the first tick
/// after it dials, for the next attempt.
pub proof fn no_redial_before_the_wait_is_over(
    r: RegistryView,
    failed: PeerCommand,
    seen: PeerCommand,
    at: Clock,
    later: Clock,
    a: ChannelAnswers,
    id: Seq<char>,
    prefix: KeyPrefix,
)
    requires
        r.wf(),
        r.can_handle(failed, at),
        failed matches PeerCommand::ConnectFailed { device_id, .. } && device_id@ == id,
        seen matches PeerCommand::Advertised { prefix: carried, device, .. } && device.id@ == id
            && carried == prefix,
        r.peer(id) matches Some(p) && (p.phase matches PeerPhase::Connecting { attempt, .. }
            && attempt + 1 < 15),
    ensures
        ({
            let attempt = (r.peer(id)->0.phase->Connecting_attempt + 1) as u32;
            let waiting = r.step(failed, at, a).registry;
            let ticked = waiting.step(PeerCommand::Tick(later.now), later, a);
            let advertised = waiting.step(seen, later, a);
            let dial = ActionView::StartConnect { device_id: id, attempt };
            if later.now.nanos < at.now.nanos + wait_before(attempt as int) * 1_000_000 {
                &&& ticked.registry.peer(id) == waiting.peer(id)
                &&& forall|n: u32|
                    !#[trigger] ticked.actions.contains(
                        ActionView::StartConnect { device_id: id, attempt: n },
                    )
                &&& advertised.registry.peer(id)->0.phase == waiting.peer(id)->0.phase
                &&& advertised.actions.len() == 0
            } else {
                &&& ticked.actions.contains(dial)
                &&& ticked.registry.peer(id)->0.phase == PeerPhase::Connecting {
                    attempt,
                    started: later.now,
                    path: ConnectPath::Gatt,
                }
            }
        }),
{
    let p = r.peer(id)->0;
    let attempt = (p.phase->Connecting_attempt + 1) as u32;
    let waiting = r.step(failed, at, a).registry;
    let next_at = lemma_waiting(r, failed, at, a, id);
    lemma_ticks_while_waiting(waiting, later, a, id, attempt, next_at);
    if later.now.nanos < next_at.nanos {
        lemma_advertisements_while_waiting(waiting, seen, later, a, id, prefix, next_at);
    }
}

} // verus!
