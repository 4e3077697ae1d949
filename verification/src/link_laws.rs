//! How a link ends, and how it moves to L2CAP or does not: what becomes of the
//! peer, and what is asked for.

use vstd::prelude::*;

use crate::lifecycle::ChannelAnswers;
use crate::peer::{
    ActionView, ChannelHandle, ConnectPath, ConnectRole, DeadReason, DisconnectCause,
    DisconnectReason, ErrorKind, L2capChannel, PeerCommand, PeerPhase, PeerView, PendingSendView,
    SnapshotView,
};
use crate::peer_laws::{
    connected_next, lemma_any_step, lemma_blank, lemma_known_step, pipe_of, stands,
};
use crate::registry::{known, RegistryView};
use crate::time::Clock;

verus! {

/// Every send is answered with the failure, in order.
pub open spec fn refusals(sends: Seq<PendingSendView>, kind: ErrorKind) -> Seq<ActionView> {
    sends.map_values(
        |send: PendingSendView|
            ActionView::AckSend { tx_gen: send.tx_gen, waker: send.waker, result: Err(kind) },
    )
}

/// A peer that was connected, under a prefix that is known, is remembered with
/// the key that it proved, its device, and the time.
pub open spec fn remembered(p: PeerView, at: Clock) -> Seq<ActionView> {
    if p.phase is Connected && p.prefix is Some {
        seq![
            ActionView::PutPeerStore {
                prefix: p.prefix->0,
                snapshot: SnapshotView {
                    endpoint_id: p.verified_endpoint,
                    last_device_id: p.device_id,
                    last_seen: at.wall,
                },
            },
        ]
    } else {
        seq![]
    }
}

/// The channel of a peer that has one is closed.
pub open spec fn closed(p: PeerView, reason: DisconnectReason) -> Seq<ActionView> {
    match p.phase {
        PeerPhase::Connected { channel, .. } => seq![
            ActionView::CloseChannel { device_id: p.device_id, channel, reason },
        ],
        PeerPhase::Handshaking { channel, .. } => seq![
            ActionView::CloseChannel { device_id: p.device_id, channel, reason },
        ],
        _ => seq![],
    }
}

pub(crate) proof fn lemma_refusals(sends: Seq<PendingSendView>, kind: ErrorKind)
    ensures
        crate::lifecycle::acks(sends, Err(kind)) == refusals(sends, kind),
{
    assert(crate::lifecycle::acks(sends, Err(kind)) =~= refusals(sends, kind));
}

/// A link that is lost drains, for the reason that was reported: the pipe goes,
/// every send that waited is refused, a peer that was connected is remembered,
/// and the channel is closed. After the error that a stale cache causes the
/// cache is refreshed. Nothing else about the peer changes.
pub proof fn lost_links_drain(
    r: RegistryView,
    cmd: PeerCommand,
    at: Clock,
    a: ChannelAnswers,
    id: Seq<char>,
    cause: DisconnectCause,
    p: PeerView,
)
    requires
        r.wf(),
        cmd matches PeerCommand::CentralDisconnected { device_id, cause: c } && device_id@ == id
            && c == cause,
        r.peer(id) == Some(p),
    ensures
        ({
            let o = r.step(cmd, at, a);
            let q = o.registry.peer(id)->0;
            let reason = q.phase->Draining_reason;
            &&& o.registry.peer(id) is Some
            &&& q == PeerView { phase: q.phase, pipe: None, pending_sends: seq![], ..p }
            &&& q.phase matches PeerPhase::Draining { since, .. } && since == at.now
            &&& match cause {
                DisconnectCause::LocalClose => reason is LocalClose,
                DisconnectCause::RemoteClose => reason is RemoteClose,
                DisconnectCause::LinkLoss => reason is LinkLoss,
                DisconnectCause::AdapterOff => reason is AdapterOff,
                DisconnectCause::Gatt133 => reason is Gatt133,
                DisconnectCause::Timeout => reason is Timeout,
                DisconnectCause::Unknown(code) => reason == DisconnectReason::Unknown(code),
            }
            &&& o.actions == refusals(p.pending_sends, ErrorKind::BrokenPipe) + remembered(p, at)
                + closed(p, reason) + (if cause is Gatt133 {
                seq![ActionView::Refresh { device_id: id }]
            } else {
                seq![]
            })
        }),
{
    lemma_known_step(r, id, |p: PeerView| p.central_disconnected(at, cause));
    lemma_refusals(p.pending_sends, ErrorKind::BrokenPipe);
}

/// A connected peer whose link makes no progress is given up as one whose link
/// is dead; of any other the report changes nothing.
pub proof fn stalled_links_drain(
    r: RegistryView,
    cmd: PeerCommand,
    at: Clock,
    a: ChannelAnswers,
    id: Seq<char>,
    p: PeerView,
)
    requires
        r.wf(),
        cmd matches PeerCommand::Stalled { device_id } && device_id@ == id,
        r.peer(id) == Some(p),
    ensures
        ({
            let o = r.step(cmd, at, a);
            let q = o.registry.peer(id)->0;
            &&& o.registry.peer(id) is Some
            &&& p.phase is Connected ==> {
                &&& q == PeerView {
                    phase: PeerPhase::Draining {
                        since: at.now,
                        reason: DisconnectReason::LinkDead,
                    },
                    pipe: None,
                    pending_sends: seq![],
                    ..p
                }
                &&& o.actions == refusals(p.pending_sends, ErrorKind::BrokenPipe) + remembered(
                    p,
                    at,
                ) + closed(p, DisconnectReason::LinkDead)
            }
            &&& p.phase !is Connected ==> q == p && o.actions.len() == 0
        }),
{
    lemma_known_step(r, id, |p: PeerView| p.stalled(at));
    lemma_refusals(p.pending_sends, ErrorKind::BrokenPipe);
}

/// A peer that is to be forgotten is dead from then on: every send that waited
/// is refused, what came in is dropped, its pipe goes and its channel is closed.
pub proof fn forgotten_peers_are_dead(
    r: RegistryView,
    cmd: PeerCommand,
    at: Clock,
    a: ChannelAnswers,
    id: Seq<char>,
    p: PeerView,
)
    requires
        r.wf(),
        cmd matches PeerCommand::Forget { device_id } && device_id@ == id,
        r.peer(id) == Some(p),
    ensures
        ({
            let o = r.step(cmd, at, a);
            &&& o.registry.peer(id) == Some(
                PeerView {
                    phase: PeerPhase::Dead { reason: DeadReason::Forgotten, at: at.now },
                    pipe: None,
                    pending_sends: seq![],
                    rx_backlog: seq![],
                    ..p
                },
            )
            &&& o.actions == refusals(p.pending_sends, ErrorKind::ConnectionAborted) + closed(
                p,
                DisconnectReason::LocalClose,
            )
        }),
{
    lemma_known_step(r, id, |p: PeerView| p.forgotten(at.now));
    lemma_refusals(p.pending_sends, ErrorKind::ConnectionAborted);
}

/// A peer that speaks another version is dead from then on, with both versions
/// on record; otherwise its link ends as a lost one does.
pub proof fn other_versions_end_the_link(
    r: RegistryView,
    cmd: PeerCommand,
    at: Clock,
    a: ChannelAnswers,
    id: Seq<char>,
    got: u8,
    want: u8,
    p: PeerView,
)
    requires
        r.wf(),
        cmd matches PeerCommand::ProtocolVersionMismatch { device_id, got: g, want: w }
            && device_id@ == id && g == got && w == want,
        r.peer(id) == Some(p),
    ensures
        ({
            let o = r.step(cmd, at, a);
            &&& o.registry.peer(id) == Some(
                PeerView {
                    phase: PeerPhase::Dead {
                        reason: DeadReason::ProtocolMismatch { got, want },
                        at: at.now,
                    },
                    pipe: None,
                    pending_sends: seq![],
                    ..p
                },
            )
            &&& o.actions == refusals(p.pending_sends, ErrorKind::BrokenPipe) + remembered(p, at)
                + closed(p, DisconnectReason::ProtocolMismatch)
        }),
{
    lemma_known_step(r, id, |p: PeerView| p.version_mismatched(at, got, want));
    lemma_refusals(p.pending_sends, ErrorKind::BrokenPipe);
}

/// The peer is not moving to L2CAP; all else is as it was.
pub open spec fn settled(p: PeerView, failed: bool) -> PeerView {
    PeerView {
        phase: match p.phase {
            PeerPhase::Connected { since, channel, tx_gen, .. } => PeerPhase::Connected {
                since,
                channel,
                tx_gen,
                upgrading: false,
            },
            other => other,
        },
        l2cap_upgrade_failed: failed,
        ..p
    }
}

/// The peer is connected and moving to L2CAP.
pub open spec fn upgrading(p: PeerView) -> bool {
    p.phase matches PeerPhase::Connected { upgrading, .. } && upgrading
}

/// An L2CAP channel that we opened carries the pipe of a peer that waited for
/// it to be connected, and takes the running pipe over of a peer that is moving
/// to L2CAP; without a pipe to take over, the move has failed. At any other time
/// it changes nothing.
pub proof fn opened_channels_carry_the_pipe(
    r: RegistryView,
    cmd: PeerCommand,
    at: Clock,
    a: ChannelAnswers,
    id: Seq<char>,
    opened: L2capChannel,
    p: PeerView,
)
    requires
        r.wf(),
        r.can_handle(cmd, at),
        cmd matches PeerCommand::OpenL2capSucceeded { device_id, channel } && device_id@ == id
            && channel == opened,
        r.peer(id) == Some(p),
    ensures
        ({
            let o = r.step(cmd, at, a);
            let q = o.registry.peer(id)->0;
            &&& o.registry.peer(id) is Some
            &&& p.phase matches PeerPhase::Handshaking { channel, .. } ==> {
                &&& connected_next(
                    p,
                    q,
                    ChannelHandle { id: channel.id, path: ConnectPath::L2cap },
                    p.role,
                    at.now,
                )
                &&& q == PeerView { phase: q.phase, tx_gen: q.tx_gen, l2cap_channel: None, ..p }
                &&& o.actions == seq![pipe_of(q, ConnectPath::L2cap, Some(opened))]
            }
            &&& upgrading(p) && p.pipe is Some ==> {
                &&& q == settled(p, p.l2cap_upgrade_failed)
                &&& o.actions == seq![
                    ActionView::SwapPipeToL2cap {
                        device_id: id,
                        channel: opened,
                        swap_tx: p.pipe->0.swap_tx,
                    },
                ]
            }
            &&& upgrading(p) && p.pipe is None ==> q == settled(p, true) && o.actions.len() == 0
            &&& p.phase !is Handshaking && !upgrading(p) ==> q == p && o.actions.len() == 0
        }),
{
    lemma_known_step(r, id, |p: PeerView| p.l2cap_opened(at.now, opened));
}

/// Without an L2CAP channel, a peer that waited for one is connected over GATT
/// all the same, on the channel that it has, and the reason is reported; a peer
/// that was moving stays where it is and is not moved again. At any other time
/// the report changes nothing.
pub proof fn unopened_channels_leave_gatt(
    r: RegistryView,
    cmd: PeerCommand,
    at: Clock,
    a: ChannelAnswers,
    id: Seq<char>,
    reason: Seq<char>,
    p: PeerView,
)
    requires
        r.wf(),
        r.can_handle(cmd, at),
        cmd matches PeerCommand::OpenL2capFailed { device_id, error } && device_id@ == id && error@
            == reason,
        r.peer(id) == Some(p),
    ensures
        ({
            let o = r.step(cmd, at, a);
            let q = o.registry.peer(id)->0;
            &&& o.registry.peer(id) is Some
            &&& p.phase matches PeerPhase::Handshaking { channel, .. } ==> {
                &&& connected_next(p, q, channel, p.role, at.now)
                &&& q == PeerView { phase: q.phase, tx_gen: q.tx_gen, ..p }
                &&& o.actions == seq![
                    pipe_of(q, ConnectPath::Gatt, None),
                    ActionView::EmitMetric("l2cap_fallback_to_gatt:"@ + reason),
                ]
            }
            &&& upgrading(p) ==> q == settled(p, true) && o.actions.len() == 0
            &&& p.phase !is Handshaking && !upgrading(p) ==> q == p && o.actions.len() == 0
        }),
{
    lemma_known_step(r, id, |p: PeerView| p.l2cap_open_failed(at.now, reason));
}

/// A hand-over that took too long is taken back: the pipe is to run over GATT
/// again, in the peer's generation and role, and the peer is not moved again.
/// Even a device that is not known gets its pipe back.
pub proof fn late_handovers_are_taken_back(
    r: RegistryView,
    cmd: PeerCommand,
    at: Clock,
    a: ChannelAnswers,
    id: Seq<char>,
    p: PeerView,
)
    requires
        r.wf(),
        cmd matches PeerCommand::L2capHandoverTimeout { device_id } && device_id@ == id,
        stands(r, id, p),
    ensures
        ({
            let o = r.step(cmd, at, a);
            &&& o.actions == seq![
                ActionView::RevertToGattPipe { device_id: id, tx_gen: p.tx_gen, role: p.role },
            ]
            &&& o.registry.peer(id) == match r.peer(id) {
                Some(_) => Some(settled(p, true)),
                None => None,
            }
        }),
{
    if known(r.peers, id) {
        lemma_known_step(r, id, |p: PeerView| p.handover_timed_out());
    }
}

/// An L2CAP channel that the other side opened carries the pipe of a peer that
/// has none yet; a device that was not known is answered as peripheral. A pipe
/// that runs is left alone, and the channel is only counted: as a second one
/// where the pipe runs over L2CAP, as a late one where it does not.
pub proof fn accepted_channels_carry_the_pipe(
    r: RegistryView,
    cmd: PeerCommand,
    at: Clock,
    a: ChannelAnswers,
    id: Seq<char>,
    accepted: L2capChannel,
    p: PeerView,
)
    requires
        r.wf(),
        r.can_handle(cmd, at),
        cmd matches PeerCommand::InboundL2capChannel { device_id, channel } && device_id@ == id
            && channel == accepted,
        stands(r, id, p),
    ensures
        ({
            let o = r.step(cmd, at, a);
            let q = o.registry.peer(id)->0;
            let role = if r.peer(id) is Some {
                p.role
            } else {
                ConnectRole::Peripheral
            };
            let over_l2cap = p.phase matches PeerPhase::Connected { channel, .. }
                && channel.path is L2cap;
            &&& o.registry.peer(id) is Some
            &&& p.pipe is None ==> {
                &&& connected_next(
                    p,
                    q,
                    ChannelHandle { id: 0, path: ConnectPath::L2cap },
                    role,
                    at.now,
                )
                &&& q == PeerView {
                    phase: q.phase,
                    tx_gen: q.tx_gen,
                    role,
                    l2cap_channel: None,
                    ..p
                }
                &&& o.actions == seq![pipe_of(q, ConnectPath::L2cap, Some(accepted))]
            }
            &&& p.pipe is Some ==> {
                &&& q == p
                &&& over_l2cap ==> o.actions == seq![
                    ActionView::EmitMetric("l2cap_duplicate_accept"@),
                ]
                &&& !over_l2cap ==> o.actions == seq![
                    ActionView::EmitMetric("l2cap_late_accept_after_gatt"@),
                ]
            }
        }),
{
    if r.peer(id) is None {
        lemma_blank(p, id);
    }
    lemma_any_step(
        r,
        id,
        |p: PeerView| p.l2cap_accepted(at.now, accepted),
        PeerView { role: ConnectRole::Peripheral, ..PeerView::fresh(id) }.l2cap_promoted(
            at.now,
            accepted,
        ),
    );
}

/// A central that subscribes is answered as peripheral: it is connected over
/// GATT in the peer's next generation, on the channel with the number of that
/// generation, and its pipe is started. One that is answered already is left as
/// it is.
pub proof fn subscribers_are_answered(
    r: RegistryView,
    cmd: PeerCommand,
    at: Clock,
    a: ChannelAnswers,
    id: Seq<char>,
    p: PeerView,
)
    requires
        r.wf(),
        r.can_handle(cmd, at),
        cmd matches PeerCommand::PeripheralClientSubscribed { client_id, .. } && client_id@ == id,
        stands(r, id, p),
    ensures
        ({
            let o = r.step(cmd, at, a);
            let q = o.registry.peer(id)->0;
            &&& o.registry.peer(id) is Some
            &&& p.phase is Connected && p.role is Peripheral ==> q == p && o.actions.len() == 0
            &&& !(p.phase is Connected && p.role is Peripheral) ==> {
                &&& connected_next(
                    p,
                    q,
                    ChannelHandle { id: (p.tx_gen + 1) as u64, path: ConnectPath::Gatt },
                    ConnectRole::Peripheral,
                    at.now,
                )
                &&& q == PeerView {
                    phase: q.phase,
                    tx_gen: q.tx_gen,
                    role: ConnectRole::Peripheral,
                    ..p
                }
                &&& o.actions == seq![pipe_of(q, ConnectPath::Gatt, None)]
            }
        }),
{
    if r.peer(id) is None {
        lemma_blank(p, id);
    }
    lemma_any_step(
        r,
        id,
        |p: PeerView| p.client_subscribed(at.now),
        PeerView::fresh(id).client_subscribed(at.now),
    );
}

/// That a central connected changes nothing until it subscribes or sends.
pub proof fn connected_centrals_change_nothing(
    r: RegistryView,
    cmd: PeerCommand,
    at: Clock,
    a: ChannelAnswers,
)
    requires
        cmd is CentralConnected,
    ensures
        r.step(cmd, at, a).registry == r,
        r.step(cmd, at, a).actions.len() == 0,
{
}

} // verus!
