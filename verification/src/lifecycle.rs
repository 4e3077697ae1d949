//! The lifecycle of one peer: what each event does to its entry and which
//! actions follow.
//!
//! Every event has a function on [`PeerView`] that says what it does, and a
//! method on [`PeerEntry`] that does it.

use vstd::arithmetic::power2::{lemma2_to64, lemma_pow2_pos, lemma_pow2_strictly_increases, pow2};
use vstd::prelude::*;

use crate::channel::{
    try_send_inbound, try_send_outbound, PipeHandles, PipeView, SendRefused,
    TrySend,
};
use crate::dedup::{dial_deadline, dial_wait, pending_dial_deadline, pending_dial_wait};
use crate::peer::{
    actions_view, emit, fragments_view, prefix_equal, sends_view, ActionView, ChannelHandle,
    ConnectPath, ConnectRole, DeadReason, DeviceId, DisconnectCause, DisconnectReason, EndpointId,
    ErrorKind, KeyPrefix, L2capChannel, PeerAction, PeerEntry, PeerPhase, PeerSnapshot, PeerView,
    PendingSend, PendingSendView, SnapshotView, WakerId,
};
use crate::time::{Clock, Duration, Instant};

verus! {

pub const MAX_CONNECT_ATTEMPTS: u32 = 15;

/// How often the registry is told the time, in nanoseconds.
pub const TICK_INTERVAL: u64 = 250_000_000;

/// Nanoseconds a link may drain before the peer is given up.
pub const DRAINING_TIMEOUT: u64 = 5_000_000_000;

/// Nanoseconds a restored link may stay silent before the peer is given up.
pub const RESTORING_TIMEOUT: u64 = 120_000_000_000;

/// Nanoseconds for which a dead peer is remembered.
pub const DEAD_GC_TTL: u64 = 60_000_000_000;

/// How many fragments are kept for a pipe that is not there yet.
pub const RX_BACKLOG_CAP: usize = 16;

/// Nanoseconds of the longest wait between two attempts to connect.
pub const MAX_BACKOFF: u64 = 30_000_000_000;

/// Milliseconds to wait before the given attempt: 500 doubled per attempt, at
/// most 64-fold and never more than 30 000.
pub open spec fn backoff_millis(attempt: u32) -> nat {
    let doublings: nat = if attempt <= 6 {
        attempt as nat
    } else {
        6
    };
    if 500 * pow2(doublings) <= 30_000 {
        500 * pow2(doublings)
    } else {
        30_000
    }
}

pub open spec fn backoff(attempt: u32) -> Duration {
    Duration { nanos: (backoff_millis(attempt) * 1_000_000) as u64 }
}

/// How long to wait before the given attempt to connect.
pub fn reconnect_backoff(attempt: u32) -> (wait: Duration)
    ensures
        wait == backoff(attempt),
        wait.nanos <= MAX_BACKOFF,
{
    let doublings: u64 = if attempt <= 6 {
        attempt as u64
    } else {
        6
    };
    proof {
        lemma2_to64();
        lemma_pow2_pos(doublings as nat);
        if doublings < 6 {
            lemma_pow2_strictly_increases(doublings as nat, 6);
        }
        vstd::bits::lemma_u64_shl_is_mul(1, doublings);
    }
    let millis: u64 = 500 * (1u64 << doublings);
    if millis <= 30_000 {
        Duration::from_millis(millis)
    } else {
        Duration::from_millis(30_000)
    }
}

/// A later attempt never waits less than an earlier one.
pub proof fn backoff_never_shrinks(earlier: u32, later: u32)
    requires
        earlier <= later,
    ensures
        backoff_millis(earlier) <= backoff_millis(later) <= 30_000,
{
    let a: nat = if earlier <= 6 {
        earlier as nat
    } else {
        6
    };
    let b: nat = if later <= 6 {
        later as nat
    } else {
        6
    };
    if a < b {
        lemma_pow2_strictly_increases(a, b);
    }
}

/// How the channels of a pipe answered while one command was handled.
///
/// Whether a channel has room rests on the receiving tasks, so the functions
/// that say what a command does take the answers as an argument.
pub struct ChannelAnswers {
    /// How many fragments the inbound channel took before it refused one.
    pub inbound_taken: nat,
    /// How many buffered sends the outbound channel took before it refused one.
    pub outbound_taken: nat,
    /// Whether that refusal said that the receiving end is gone.
    pub outbound_closed: bool,
    /// The answer to the send that the command itself carries.
    pub direct: TrySend,
}

/// What an event does to one peer.
#[verifier::ext_equal]
pub struct Step {
    pub peer: PeerView,
    pub actions: Seq<ActionView>,
}

/// One acknowledgement per send, in order.
pub open spec fn acks(sends: Seq<PendingSendView>, result: Result<(), ErrorKind>) -> Seq<
    ActionView,
> {
    Seq::new(
        sends.len(),
        |i: int| ActionView::AckSend { tx_gen: sends[i].tx_gen, waker: sends[i].waker, result },
    )
}

pub open spec fn at_most(n: nat, limit: nat) -> nat {
    if n <= limit {
        n
    } else {
        limit
    }
}

/// The offers made to a channel that takes the first `taken` of the sends: those,
/// and the next one, if there is one, which it refuses as full or as closed.
pub open spec fn offers(sends: Seq<PendingSendView>, taken: nat, closed: bool) -> Seq<
    (PendingSendView, TrySend),
> {
    Seq::new(
        at_most(taken + 1, sends.len()),
        |i: int|
            (
                sends[i],
                if i < taken {
                    TrySend::Accepted
                } else if closed {
                    TrySend::Closed
                } else {
                    TrySend::Full
                },
            ),
    )
}

/// The offers made to a channel that takes the first `taken` of the fragments:
/// those, and the next one, if there is one, which it refuses.
pub open spec fn fragment_offers(fragments: Seq<Seq<u8>>, taken: nat) -> Seq<(Seq<u8>, bool)> {
    Seq::new(at_most(taken + 1, fragments.len()), |i: int| (fragments[i], i < taken))
}

pub open spec fn connected(since: Instant, channel: ChannelHandle, tx_gen: u64) -> PeerPhase {
    PeerPhase::Connected { since, channel, tx_gen, upgrading: false }
}

/// The channel of a phase that has one.
pub open spec fn live_channel(phase: PeerPhase) -> Option<ChannelHandle> {
    match phase {
        PeerPhase::Connected { channel, .. } => Some(channel),
        PeerPhase::Handshaking { channel, .. } => Some(channel),
        _ => None,
    }
}

/// The transmit generation after `tx_gen`. There is none after the highest;
/// [`RegistryView::can_handle`](crate::registry::RegistryView::can_handle) says
/// when one is needed.
pub open spec fn next_generation(tx_gen: u64) -> u64 {
    if tx_gen < u64::MAX {
        (tx_gen + 1) as u64
    } else {
        0
    }
}

impl PeerView {
    pub open spec fn unchanged(self) -> Step {
        Step { peer: self, actions: Seq::empty() }
    }

    pub open spec fn next_gen(self) -> u64 {
        next_generation(self.tx_gen)
    }

    /// Connected in the next transmit generation, over a pipe still to be started.
    pub open spec fn promoted(self, now: Instant, channel: ChannelHandle) -> PeerView {
        PeerView {
            tx_gen: self.next_gen(),
            phase: connected(now, channel, self.next_gen()),
            ..self
        }
    }

    pub open spec fn start_pipe(
        self,
        path: ConnectPath,
        l2cap_channel: Option<L2capChannel>,
    ) -> ActionView {
        ActionView::StartDataPipe {
            device_id: self.device_id,
            tx_gen: self.tx_gen,
            role: self.role,
            path,
            l2cap_channel,
        }
    }

    /// An attempt to connect.
    pub open spec fn dialed(self, now: Instant, attempt: u32) -> Step {
        Step {
            peer: PeerView {
                phase: PeerPhase::Connecting { attempt, started: now, path: ConnectPath::Gatt },
                ..self
            },
            actions: seq![ActionView::StartConnect { device_id: self.device_id, attempt }],
        }
    }

    pub open spec fn close_channel(self, reason: DisconnectReason) -> Seq<ActionView> {
        match live_channel(self.phase) {
            Some(channel) => seq![
                ActionView::CloseChannel { device_id: self.device_id, channel, reason },
            ],
            None => Seq::empty(),
        }
    }

    /// The link is given up: the pipe goes, every buffered send fails, and a
    /// peer that was connected under a known prefix is remembered.
    pub open spec fn drained(self, at: Clock, reason: DisconnectReason) -> Step {
        Step {
            peer: PeerView {
                pipe: None,
                pending_sends: Seq::empty(),
                phase: PeerPhase::Draining { since: at.now, reason },
                ..self
            },
            actions: acks(self.pending_sends, Err(ErrorKind::BrokenPipe)) + (match self.prefix {
                Some(prefix) if self.phase is Connected => seq![
                    ActionView::PutPeerStore {
                        prefix,
                        snapshot: SnapshotView {
                            endpoint_id: self.verified_endpoint,
                            last_device_id: self.device_id,
                            last_seen: at.wall,
                        },
                    },
                ],
                _ => Seq::empty(),
            }),
        }
    }

    /// An advertisement was seen. `suppressed`: the same peer is already
    /// connected and verified. `defer`: the other side is to dial first.
    pub open spec fn advertised(
        self,
        now: Instant,
        prefix: KeyPrefix,
        suppressed: bool,
        defer: bool,
    ) -> Step {
        let seen = PeerView { last_adv: Some(now), prefix: Some(prefix), ..self };
        let dial = if defer {
            PeerView {
                phase: PeerPhase::PendingDial {
                    since: now,
                    deadline: dial_deadline(now, prefix),
                    prefix,
                },
                ..seen
            }.unchanged()
        } else {
            seen.dialed(now, 0)
        };
        if suppressed {
            seen.unchanged()
        } else {
            match self.phase {
                PeerPhase::Unknown => if self.pending_sends.len() == 0 {
                    PeerView { phase: PeerPhase::Discovered { since: now }, ..seen }.unchanged()
                } else {
                    dial
                },
                PeerPhase::Discovered { .. } => if self.pending_sends.len() == 0 {
                    seen.unchanged()
                } else {
                    dial
                },
                PeerPhase::Reconnecting { attempt, next_at, .. } => if next_at.nanos <= now.nanos {
                    seen.dialed(now, attempt)
                } else {
                    seen.unchanged()
                },
                _ => seen.unchanged(),
            }
        }
    }

    /// Buffered sends are offered to the pipe, oldest first, until the channel
    /// refuses one. A pipe that is found closed is dropped.
    pub open spec fn flushed(self, taken: nat, closed: bool) -> PeerView {
        match self.pipe {
            Some(pipe) => {
                let k = at_most(taken, self.pending_sends.len());
                let log = pipe.outbound_offered + offers(self.pending_sends, k, closed);
                if k < self.pending_sends.len() && closed {
                    PeerView {
                        pending_sends: self.pending_sends.skip(k as int),
                        pipe: None,
                        closed: Some(log),
                        ..self
                    }
                } else {
                    PeerView {
                        pending_sends: self.pending_sends.skip(k as int),
                        pipe: Some(
                            PipeView {
                                outbound: pipe.outbound + self.pending_sends.take(k as int),
                                outbound_offered: log,
                                ..pipe
                            },
                        ),
                        ..self
                    }
                }
            },
            None => self,
        }
    }

    /// A send is offered to the pipe, which gives the stated answer. Without a
    /// pipe the send is buffered.
    pub open spec fn offered(self, send: PendingSendView, answer: TrySend) -> Step {
        let ack = |result: Result<(), ErrorKind>|
            ActionView::AckSend { tx_gen: send.tx_gen, waker: send.waker, result };
        match self.pipe {
            Some(pipe) => {
                let log = pipe.outbound_offered.push((send, answer));
                match answer {
                    TrySend::Accepted => Step {
                        peer: PeerView {
                            pipe: Some(
                                PipeView {
                                    outbound: pipe.outbound.push(send),
                                    outbound_offered: log,
                                    ..pipe
                                },
                            ),
                            ..self
                        },
                        actions: seq![ack(Ok(()))],
                    },
                    TrySend::Full => Step {
                        peer: PeerView {
                            pipe: Some(PipeView { outbound_offered: log, ..pipe }),
                            ..self
                        },
                        actions: seq![ack(Err(ErrorKind::WouldBlock))],
                    },
                    TrySend::Closed => Step {
                        peer: PeerView {
                            pipe: None,
                            closed: Some(log),
                            pending_sends: self.pending_sends.push(send),
                            ..self
                        },
                        actions: seq![ack(Ok(()))],
                    },
                }
            },
            None => PeerView {
                pending_sends: self.pending_sends.push(send),
                ..self
            }.unchanged(),
        }
    }

    /// A datagram is to be sent.
    pub open spec fn sent(self, now: Instant, send: PendingSendView, a: ChannelAnswers) -> Step {
        let ack = |result: Result<(), ErrorKind>|
            ActionView::AckSend { tx_gen: send.tx_gen, waker: send.waker, result };
        let buffered = PeerView { pending_sends: self.pending_sends.push(send), ..self };
        match self.phase {
            PeerPhase::Connected { tx_gen, .. } => if send.tx_gen == tx_gen {
                self.flushed(a.outbound_taken, a.outbound_closed).offered(send, a.direct)
            } else {
                Step { peer: self, actions: seq![ack(Err(ErrorKind::WouldBlock))] }
            },
            PeerPhase::Draining { .. } | PeerPhase::Dead { .. } => Step {
                peer: self,
                actions: seq![ack(Err(ErrorKind::WouldBlock))],
            },
            PeerPhase::Discovered { .. } => buffered.dialed(now, 0),
            _ => Step { peer: buffered, actions: seq![ack(Ok(()))] },
        }
    }

    pub open spec fn connect_succeeded(self, now: Instant, channel: ChannelHandle) -> Step {
        if self.phase is Connecting {
            let peer = PeerView { consecutive_failures: 0, ..self.promoted(now, channel) };
            Step {
                peer,
                actions: seq![
                    ActionView::ReadVersion { device_id: self.device_id },
                    peer.start_pipe(ConnectPath::Gatt, None),
                ],
            }
        } else {
            self.unchanged()
        }
    }

    pub open spec fn connect_failed(self, now: Instant, error: Seq<char>) -> Step {
        match self.phase {
            PeerPhase::Connecting { attempt, .. } => {
                let next = (attempt + 1) as u32;
                let metric = ActionView::EmitMetric("connect_failed:"@ + error);
                let failures = (self.consecutive_failures + 1) as u32;
                if next >= MAX_CONNECT_ATTEMPTS {
                    Step {
                        peer: PeerView {
                            consecutive_failures: failures,
                            phase: PeerPhase::Dead { reason: DeadReason::MaxRetries, at: now },
                            ..self
                        },
                        actions: match self.prefix {
                            Some(prefix) => seq![metric, ActionView::ForgetPeerStore { prefix }],
                            None => seq![metric],
                        },
                    }
                } else {
                    Step {
                        peer: PeerView {
                            consecutive_failures: failures,
                            phase: PeerPhase::Reconnecting {
                                attempt: next,
                                next_at: Instant {
                                    nanos: (now.nanos + backoff(next).nanos) as u64,
                                },
                                reason: DisconnectReason::Timeout,
                            },
                            ..self
                        },
                        actions: seq![metric],
                    }
                }
            },
            _ => self.unchanged(),
        }
    }

    /// Answers as peripheral in the next generation, with the fragment waiting
    /// for the pipe.
    pub open spec fn answering(self, now: Instant, fragment: Seq<u8>) -> Step {
        let peer = PeerView {
            pipe: None,
            role: ConnectRole::Peripheral,
            rx_backlog: self.rx_backlog.push(fragment),
            ..self.promoted(now, ChannelHandle { id: 0, path: ConnectPath::Gatt })
        };
        Step { peer, actions: seq![peer.start_pipe(ConnectPath::Gatt, None)] }
    }

    /// The backlog with one more fragment, the oldest one dropped if it is full.
    pub open spec fn backlogged(self, fragment: Seq<u8>) -> Seq<Seq<u8>> {
        if self.rx_backlog.len() >= RX_BACKLOG_CAP {
            self.rx_backlog.skip(1).push(fragment)
        } else {
            self.rx_backlog.push(fragment)
        }
    }

    /// A fragment arrived from a device that is already known.
    pub open spec fn fragment_received(
        self,
        now: Instant,
        fragment: Seq<u8>,
        a: ChannelAnswers,
    ) -> Step {
        let heard = PeerView { last_rx: Some(now), ..self };
        match self.phase {
            PeerPhase::Handshaking { channel, .. } => {
                let peer = PeerView {
                    rx_backlog: self.rx_backlog.push(fragment),
                    ..heard.promoted(now, channel)
                };
                Step { peer, actions: seq![peer.start_pipe(ConnectPath::Gatt, None)] }
            },
            PeerPhase::Connected { .. } => match self.pipe {
                Some(pipe) => {
                    let taken = a.inbound_taken > 0;
                    PeerView {
                        pipe: Some(
                            PipeView {
                                inbound: if taken {
                                    pipe.inbound.push(fragment)
                                } else {
                                    pipe.inbound
                                },
                                inbound_offered: pipe.inbound_offered.push((fragment, taken)),
                                ..pipe
                            },
                        ),
                        ..heard
                    }.unchanged()
                },
                None => PeerView { rx_backlog: self.backlogged(fragment), ..heard }.unchanged(),
            },
            PeerPhase::Restoring { .. } => heard.unchanged(),
            _ => heard.answering(now, fragment),
        }
    }

    pub open spec fn central_disconnected(self, at: Clock, cause: DisconnectCause) -> Step {
        let reason = DisconnectReason::of_cause(cause);
        let drained = self.drained(at, reason);
        Step {
            peer: drained.peer,
            actions: drained.actions + self.close_channel(reason) + (if reason is Gatt133 {
                seq![ActionView::Refresh { device_id: self.device_id }]
            } else {
                Seq::empty()
            }),
        }
    }

    pub open spec fn adapter_off(self, now: Instant) -> PeerView {
        PeerView {
            phase: PeerPhase::Restoring { since: now },
            pending_sends: Seq::empty(),
            ..self
        }
    }

    pub open spec fn adapter_on(self, now: Instant) -> PeerView {
        if self.phase is Restoring {
            PeerView {
                phase: PeerPhase::Reconnecting {
                    attempt: 0,
                    next_at: now,
                    reason: DisconnectReason::AdapterOff,
                },
                ..self
            }
        } else {
            self
        }
    }

    /// The platform handed back a link of an earlier run.
    pub open spec fn restored(self, now: Instant) -> PeerView {
        if self.phase is Connected || self.phase is Handshaking {
            self
        } else {
            PeerView { phase: PeerPhase::Restoring { since: now }, ..self }
        }
    }

    pub open spec fn ticked(self, now: Instant) -> Step {
        let dead = PeerView {
            phase: PeerPhase::Dead { reason: DeadReason::Forgotten, at: now },
            ..self
        };
        match self.phase {
            PeerPhase::Reconnecting { attempt, next_at, .. } if next_at.nanos <= now.nanos =>
                self.dialed(now, attempt),
            PeerPhase::PendingDial { deadline, .. } if deadline.nanos <= now.nanos => self.dialed(
                now,
                0,
            ),
            PeerPhase::Draining { since, .. } if now.nanos_since(since) > DRAINING_TIMEOUT =>
                dead.unchanged(),
            PeerPhase::Restoring { since } if now.nanos_since(since) > RESTORING_TIMEOUT =>
                dead.unchanged(),
            _ => self.unchanged(),
        }
    }

    /// Dead for longer than dead peers are remembered.
    pub open spec fn expired(self, now: Instant) -> bool {
        self.phase matches PeerPhase::Dead { at, .. } && now.nanos_since(at) > DEAD_GC_TTL
    }

    pub open spec fn forgotten(self, now: Instant) -> Step {
        Step {
            peer: PeerView {
                pipe: None,
                pending_sends: Seq::empty(),
                rx_backlog: Seq::empty(),
                phase: PeerPhase::Dead { reason: DeadReason::Forgotten, at: now },
                ..self
            },
            actions: acks(self.pending_sends, Err(ErrorKind::ConnectionAborted))
                + self.close_channel(DisconnectReason::LocalClose),
        }
    }

    pub open spec fn stalled(self, at: Clock) -> Step {
        if self.phase is Connected {
            let drained = self.drained(at, DisconnectReason::LinkDead);
            Step {
                peer: drained.peer,
                actions: drained.actions + self.close_channel(DisconnectReason::LinkDead),
            }
        } else {
            self.unchanged()
        }
    }

    pub open spec fn shut_down(self) -> Step {
        Step {
            peer: PeerView { pending_sends: Seq::empty(), ..self },
            actions: acks(self.pending_sends, Err(ErrorKind::ConnectionAborted)),
        }
    }

    /// A pipe came up: what waited for it is offered, oldest first. A fragment
    /// that the inbound channel refuses is lost and those after it keep waiting;
    /// a send that the outbound channel refuses keeps waiting with those after it.
    pub open spec fn pipe_ready(self, pipe: PipeView, a: ChannelAnswers) -> PeerView {
        let rx = at_most(a.inbound_taken, self.rx_backlog.len());
        let tx = at_most(a.outbound_taken, self.pending_sends.len());
        PeerView {
            rx_backlog: if rx < self.rx_backlog.len() {
                self.rx_backlog.skip(rx as int + 1)
            } else {
                Seq::empty()
            },
            pending_sends: self.pending_sends.skip(tx as int),
            pipe: Some(
                PipeView {
                    inbound: pipe.inbound + self.rx_backlog.take(rx as int),
                    inbound_offered: pipe.inbound_offered + fragment_offers(self.rx_backlog, rx),
                    outbound: pipe.outbound + self.pending_sends.take(tx as int),
                    outbound_offered: pipe.outbound_offered + offers(
                        self.pending_sends,
                        tx,
                        a.outbound_closed,
                    ),
                    swap_tx: pipe.swap_tx,
                },
            ),
            ..self
        }
    }

    pub open spec fn with_upgrading(self, value: bool) -> PeerView {
        match self.phase {
            PeerPhase::Connected { since, channel, tx_gen, .. } => PeerView {
                phase: PeerPhase::Connected { since, channel, tx_gen, upgrading: value },
                ..self
            },
            _ => self,
        }
    }

    pub open spec fn upgrade_failed(self) -> PeerView {
        PeerView { l2cap_upgrade_failed: true, ..self.with_upgrading(false) }
    }

    pub open spec fn l2cap_opened(self, now: Instant, opened: L2capChannel) -> Step {
        match self.phase {
            PeerPhase::Handshaking { channel, .. } => {
                let peer = PeerView {
                    l2cap_channel: None,
                    ..self.promoted(now, ChannelHandle { id: channel.id, path: ConnectPath::L2cap })
                };
                Step { peer, actions: seq![peer.start_pipe(ConnectPath::L2cap, Some(opened))] }
            },
            PeerPhase::Connected { upgrading: true, .. } => match self.pipe {
                Some(pipe) => Step {
                    peer: self.with_upgrading(false),
                    actions: seq![
                        ActionView::SwapPipeToL2cap {
                            device_id: self.device_id,
                            channel: opened,
                            swap_tx: pipe.swap_tx,
                        },
                    ],
                },
                None => self.upgrade_failed().unchanged(),
            },
            _ => self.unchanged(),
        }
    }

    pub open spec fn l2cap_open_failed(self, now: Instant, error: Seq<char>) -> Step {
        match self.phase {
            PeerPhase::Handshaking { channel, .. } => {
                let peer = self.promoted(now, channel);
                Step {
                    peer,
                    actions: seq![
                        peer.start_pipe(ConnectPath::Gatt, None),
                        ActionView::EmitMetric("l2cap_fallback_to_gatt:"@ + error),
                    ],
                }
            },
            PeerPhase::Connected { upgrading: true, .. } => self.upgrade_failed().unchanged(),
            _ => self.unchanged(),
        }
    }

    pub open spec fn handover_timed_out(self) -> Step {
        let peer = self.upgrade_failed();
        Step {
            peer,
            actions: seq![
                ActionView::RevertToGattPipe {
                    device_id: self.device_id,
                    tx_gen: self.tx_gen,
                    role: self.role,
                },
            ],
        }
    }

    /// Over an L2CAP channel that the other side opened.
    pub open spec fn l2cap_promoted(self, now: Instant, channel: L2capChannel) -> Step {
        let peer = PeerView {
            l2cap_channel: None,
            ..self.promoted(now, ChannelHandle { id: 0, path: ConnectPath::L2cap })
        };
        Step { peer, actions: seq![peer.start_pipe(ConnectPath::L2cap, Some(channel))] }
    }

    /// The other side opened an L2CAP channel to a device that is already known.
    pub open spec fn l2cap_accepted(self, now: Instant, channel: L2capChannel) -> Step {
        if self.pipe is Some {
            let duplicate = self.phase matches PeerPhase::Connected { channel: live, .. }
                && live.path is L2cap;
            Step {
                peer: self,
                actions: seq![
                    ActionView::EmitMetric(
                        if duplicate {
                            "l2cap_duplicate_accept"@
                        } else {
                            "l2cap_late_accept_after_gatt"@
                        },
                    ),
                ],
            }
        } else {
            self.l2cap_promoted(now, channel)
        }
    }

    pub open spec fn version_mismatched(self, at: Clock, got: u8, want: u8) -> Step {
        let drained = self.drained(at, DisconnectReason::ProtocolMismatch);
        Step {
            peer: PeerView {
                phase: PeerPhase::Dead {
                    reason: DeadReason::ProtocolMismatch { got, want },
                    at: at.now,
                },
                ..drained.peer
            },
            actions: drained.actions + self.close_channel(DisconnectReason::ProtocolMismatch),
        }
    }

    /// A central subscribed to one of our characteristics.
    pub open spec fn client_subscribed(self, now: Instant) -> Step {
        if self.phase is Connected && self.role is Peripheral {
            self.unchanged()
        } else {
            let peer = PeerView {
                role: ConnectRole::Peripheral,
                ..self.promoted(now, ChannelHandle { id: self.next_gen(), path: ConnectPath::Gatt })
            };
            Step { peer, actions: seq![peer.start_pipe(ConnectPath::Gatt, None)] }
        }
    }

    /// The peer with this prefix proved its key.
    pub open spec fn stamped(self, now: Instant, prefix: KeyPrefix, key: EndpointId) -> PeerView {
        if self.prefix == Some(prefix) {
            PeerView { verified_endpoint: Some(key), verified_at: Some(now), ..self }
        } else {
            self
        }
    }

    /// A dial held back for a peer that has proved its key is given up.
    pub open spec fn dial_cancelled(self, at: Clock, prefix: KeyPrefix) -> Step {
        if self.phase matches PeerPhase::PendingDial { prefix: p, .. } && p == prefix {
            self.drained(at, DisconnectReason::DedupLoser)
        } else {
            self.unchanged()
        }
    }

    /// Connected over GATT, not yet moving to L2CAP, and free to try.
    pub open spec fn can_upgrade(self, prefix: KeyPrefix) -> bool {
        &&& self.prefix == Some(prefix)
        &&& !self.l2cap_upgrade_failed
        &&& self.phase matches PeerPhase::Connected { upgrading: false, channel, .. }
            && channel.path is Gatt
    }

    pub open spec fn upgrade_started(self, prefix: KeyPrefix) -> Step {
        if self.can_upgrade(prefix) {
            Step {
                peer: self.with_upgrading(true),
                actions: seq![ActionView::UpgradeToL2cap { device_id: self.device_id }],
            }
        } else {
            self.unchanged()
        }
    }

    /// A connection that came up finds a generation left if it needs one.
    pub open spec fn can_connect(self) -> bool {
        self.phase is Connecting ==> self.tx_gen < u64::MAX
    }

    /// A failed attempt to connect can be counted, and the next one timed.
    pub open spec fn can_fail(self, now: Instant) -> bool {
        self.phase matches PeerPhase::Connecting { attempt, .. } ==> {
            &&& attempt < u32::MAX
            &&& self.consecutive_failures < u32::MAX
            &&& attempt + 1 < MAX_CONNECT_ATTEMPTS ==> now.nanos + backoff(
                (attempt + 1) as u32,
            ).nanos <= u64::MAX
        }
    }

    /// A fragment finds a generation left if it needs one.
    pub open spec fn can_hear(self) -> bool {
        self.phase is Connected || self.phase is Restoring || self.tx_gen < u64::MAX
    }

    /// The end of an attempt to open L2CAP finds a generation left if it needs
    /// one.
    pub open spec fn can_open_l2cap(self) -> bool {
        self.phase is Handshaking ==> self.tx_gen < u64::MAX
    }

    /// An L2CAP channel from the other side finds a generation left if it needs
    /// one.
    pub open spec fn can_accept_l2cap(self) -> bool {
        self.pipe is None ==> self.tx_gen < u64::MAX
    }

    /// A subscription finds a generation left if it needs one.
    pub open spec fn can_subscribe(self) -> bool {
        (self.phase is Connected && self.role is Peripheral) || self.tx_gen < u64::MAX
    }

    /// An advertisement leads to a dial that would have to be deferred.
    pub open spec fn defers(self, suppressed: bool, defer: bool) -> bool {
        &&& defer
        &&& !suppressed
        &&& self.pending_sends.len() > 0
        &&& self.phase is Unknown || self.phase is Discovered
    }

    /// A dial that an advertisement leads to can be timed.
    pub open spec fn can_advertise(
        self,
        now: Instant,
        prefix: KeyPrefix,
        suppressed: bool,
        defer: bool,
    ) -> bool {
        self.defers(suppressed, defer) ==> now.nanos + dial_wait(prefix) <= u64::MAX
    }
}

/// What handling an event adds to the actions so far.
pub open spec fn extends(before: Seq<PeerAction>, after: Seq<PeerAction>, added: Seq<ActionView>) -> bool {
    actions_view(after) =~= actions_view(before) + added
}

/// A metric with a detail appended to its name.
fn metric(name: &str, detail: &str) -> (text: String)
    ensures
        text@ == name@ + detail@,
{
    let mut text = name.to_owned();
    text.append(detail);
    text
}

proof fn lemma_sends_pop(sends: Seq<PendingSend>)
    requires
        sends.len() > 0,
    ensures
        sends_view(sends.subrange(1, sends.len() as int)) == sends_view(sends).skip(1),
        sends_view(sends)[0] == sends[0]@,
{
    assert(sends_view(sends.subrange(1, sends.len() as int)) =~= sends_view(sends).skip(1));
}

impl PeerEntry {
    fn device(&self) -> (id: DeviceId)
        ensures
            id@ == self@.device_id,
    {
        self.device_id.clone()
    }

    /// Acknowledges every buffered send with the given failure.
    pub fn fail_pending(&mut self, kind: ErrorKind, actions: &mut Vec<PeerAction>)
        ensures
            final(self)@ == (PeerView { pending_sends: Seq::empty(), ..old(self)@ }),
            extends(
                old(actions)@,
                final(actions)@,
                acks(old(self)@.pending_sends, Err(kind)),
            ),
    {
        let ghost all = self@.pending_sends;
        let ghost mut done: int = 0;
        assert(all.skip(0) =~= all);
        assert(actions_view(actions@) + acks(all.take(0), Err(kind)) =~= actions_view(actions@));
        loop
            invariant
                0 <= done <= all.len(),
                all == old(self)@.pending_sends,
                self@ == (PeerView { pending_sends: all.skip(done), ..old(self)@ }),
                actions_view(actions@) == actions_view(old(actions)@) + acks(
                    all.take(done),
                    Err(kind),
                ),
            ensures
                done == all.len(),
            decreases all.len() - done,
        {
            let ghost before = self.pending_sends@;
            let next = self.pending_sends.pop_front();
            match next {
                None => {
                    assert(before.len() == 0);
                    assert(sends_view(before).len() == 0);
                    assert(sends_view(self.pending_sends@) =~= sends_view(before));
                    break ;
                },
                Some(send) => {
                    proof {
                        lemma_sends_pop(before);
                        assert(all.skip(done).skip(1) =~= all.skip(done + 1));
                        assert(send@ == all[done]);
                        assert(acks(all.take(done + 1), Err(kind)) =~= acks(
                            all.take(done),
                            Err(kind),
                        ).push(
                            ActionView::AckSend {
                                tx_gen: send.tx_gen,
                                waker: send.waker,
                                result: Err(kind),
                            },
                        ));
                    }
                    let ghost acts = actions_view(actions@);
                    emit(
                        actions,
                        PeerAction::AckSend {
                            tx_gen: send.tx_gen,
                            waker: send.waker,
                            result: Err(kind),
                        },
                    );
                    proof {
                        assert(actions_view(actions@) =~= actions_view(old(actions)@) + acks(
                            all.take(done + 1),
                            Err(kind),
                        ));
                        done = done + 1;
                    }
                },
            }
        }
        proof {
            assert(all.skip(done) =~= Seq::empty());
            assert(all.take(done) =~= all);
        }
    }

    /// Gives the link up.
    pub fn drain_to_draining(
        &mut self,
        at: Clock,
        reason: DisconnectReason,
        actions: &mut Vec<PeerAction>,
    )
        ensures
            final(self)@ == old(self)@.drained(at, reason).peer,
            extends(old(actions)@, final(actions)@, old(self)@.drained(at, reason).actions),
    {
        let was_connected = matches!(self.phase, PeerPhase::Connected { .. });
        self.pipe = None;
        self.fail_pending(ErrorKind::BrokenPipe, actions);
        if was_connected {
            if let Some(prefix) = self.prefix {
                let snapshot = PeerSnapshot {
                    endpoint_id: self.verified_endpoint,
                    last_device_id: self.device_id.name.clone(),
                    last_seen: at.wall,
                };
                emit(actions, PeerAction::PutPeerStore { prefix, snapshot });
            }
        }
        self.phase = PeerPhase::Draining { since: at.now, reason };
    }

    /// Offers buffered sends to the pipe, oldest first, until the channel refuses
    /// one. Returns how many it took and whether it was found closed.
    fn feed(&mut self, pipe: &mut PipeHandles) -> (r: (usize, bool))
        ensures
            ({
                let sends = old(self)@.pending_sends;
                let n = r.0 as int;
                &&& n <= sends.len()
                &&& r.1 ==> n < sends.len()
                &&& final(self)@ == (PeerView { pending_sends: sends.skip(n), ..old(self)@ })
                &&& final(pipe)@ == (PipeView {
                    outbound: old(pipe)@.outbound + sends.take(n),
                    outbound_offered: old(pipe)@.outbound_offered + offers(sends, r.0 as nat, r.1),
                    ..old(pipe)@
                })
            }),
    {
        let ghost all = self@.pending_sends;
        let total: usize = self.pending_sends.len();
        let mut taken: usize = 0;
        let ghost log = pipe@.outbound_offered;
        proof {
            assert(log + offers(all.take(0), 0, false) =~= log);
            assert(all.skip(0) =~= all);
            assert(pipe@.outbound + all.take(0) =~= pipe@.outbound);
        }
        while taken < total
            invariant
                taken <= total,
                total == all.len(),
                all == old(self)@.pending_sends,
                self@ == (PeerView { pending_sends: all.skip(taken as int), ..old(self)@ }),
                log == old(pipe)@.outbound_offered,
                pipe@ == (PipeView {
                    outbound: old(pipe)@.outbound + all.take(taken as int),
                    outbound_offered: log + offers(all.take(taken as int), taken as nat, false),
                    ..old(pipe)@
                }),
            decreases total - taken,
        {
            let ghost before = self.pending_sends@;
            assert(sends_view(before).len() == before.len());
            match self.pending_sends.pop_front() {
                None => {
                    assert(false);
                },
                Some(send) => {
                    proof {
                        lemma_sends_pop(before);
                        assert(all.skip(taken as int).skip(1) =~= all.skip(taken + 1));
                        assert(send@ == all[taken as int]);
                    }
                    match try_send_outbound(&mut pipe.outbound_tx, send) {
                        Ok(()) => {
                            assert(pipe@.outbound =~= old(pipe)@.outbound + all.take(taken + 1));
                            assert(pipe@.outbound_offered =~= log + offers(
                                all.take(taken + 1),
                                (taken + 1) as nat,
                                false,
                            ));
                            taken = taken + 1;
                        },
                        Err(SendRefused::Full(back)) => {
                            self.pending_sends.push_front(back);
                            assert(sends_view(self.pending_sends@) =~= all.skip(taken as int));
                            assert(pipe@.outbound_offered =~= log + offers(
                                all,
                                taken as nat,
                                false,
                            ));
                            return (taken, false);
                        },
                        Err(SendRefused::Closed(back)) => {
                            self.pending_sends.push_front(back);
                            assert(sends_view(self.pending_sends@) =~= all.skip(taken as int));
                            assert(pipe@.outbound_offered =~= log + offers(
                                all,
                                taken as nat,
                                true,
                            ));
                            return (taken, true);
                        },
                    }
                },
            }
        }
        assert(all.take(taken as int) =~= all);
        (taken, false)
    }

    /// Moves buffered sends into the pipe, oldest first, until the channel
    /// refuses one. Returns how many it took and whether it was found closed, in
    /// which case the pipe is dropped but for that end. Without a pipe there is
    /// nothing to do.
    pub fn flush_pending(&mut self) -> (r: (usize, bool))
        ensures
            final(self)@ == old(self)@.flushed(r.0 as nat, r.1),
            match old(self).pipe {
                None => r == (0usize, false),
                Some(pipe) => {
                    let sends = old(self)@.pending_sends;
                    &&& r.0 <= sends.len()
                    &&& r.1 ==> r.0 < sends.len()
                },
            },
    {
        match self.pipe.take() {
            None => (0, false),
            Some(mut pipe) => {
                let (taken, closed) = self.feed(&mut pipe);
                if closed {
                    self.closed_tx = Some(pipe.outbound_tx);
                } else {
                    self.pipe = Some(pipe);
                }
                (taken, closed)
            },
        }
    }

    /// Finishes a send once the channel has answered.
    pub fn settle_send(
        &mut self,
        tx_gen: u64,
        waker: WakerId,
        answer: Result<(), SendRefused>,
        actions: &mut Vec<PeerAction>,
    )
        ensures
            match answer {
                Ok(()) => final(self)@ == old(self)@ && extends(
                    old(actions)@,
                    final(actions)@,
                    seq![ActionView::AckSend { tx_gen, waker, result: Ok(()) }],
                ),
                Err(SendRefused::Full(_)) => final(self)@ == old(self)@ && extends(
                    old(actions)@,
                    final(actions)@,
                    seq![
                        ActionView::AckSend { tx_gen, waker, result: Err(ErrorKind::WouldBlock) },
                    ],
                ),
                Err(SendRefused::Closed(back)) => final(self)@ == (PeerView {
                    pipe: None,
                    closed: match old(self)@.pipe {
                        Some(pipe) => Some(pipe.outbound_offered),
                        None => old(self)@.closed,
                    },
                    pending_sends: old(self)@.pending_sends.push(back@),
                    ..old(self)@
                }) && extends(
                    old(actions)@,
                    final(actions)@,
                    seq![ActionView::AckSend { tx_gen, waker, result: Ok(()) }],
                ),
            },
    {
        match answer {
            Ok(()) => {
                emit(actions, PeerAction::AckSend { tx_gen, waker, result: Ok(()) });
            },
            Err(SendRefused::Full(_)) => {
                emit(
                    actions,
                    PeerAction::AckSend { tx_gen, waker, result: Err(ErrorKind::WouldBlock) },
                );
            },
            Err(SendRefused::Closed(back)) => {
                if let Some(pipe) = self.pipe.take() {
                    self.closed_tx = Some(pipe.outbound_tx);
                }
                self.buffer(back);
                emit(actions, PeerAction::AckSend { tx_gen, waker, result: Ok(()) });
            },
        }
    }

    /// Keeps a send for later.
    pub fn buffer(&mut self, send: PendingSend)
        ensures
            final(self)@ == (PeerView {
                pending_sends: old(self)@.pending_sends.push(send@),
                ..old(self)@
            }),
    {
        self.pending_sends.push_back(send);
        assert(sends_view(self.pending_sends@) =~= old(self)@.pending_sends.push(send@));
    }

    fn dial(&mut self, now: Instant, attempt: u32, actions: &mut Vec<PeerAction>)
        ensures
            final(self)@ == old(self)@.dialed(now, attempt).peer,
            extends(old(actions)@, final(actions)@, old(self)@.dialed(now, attempt).actions),
    {
        self.phase = PeerPhase::Connecting { attempt, started: now, path: ConnectPath::Gatt };
        let device_id = self.device();
        emit(actions, PeerAction::StartConnect { device_id, attempt });
    }

    /// Handles a datagram that is to be sent.
    ///
    /// On a live link the sends buffered earlier go first. A send of another
    /// transmit generation, or to a peer that is going away, is refused; before
    /// a link is up sends are buffered.
    pub fn send_datagram(
        &mut self,
        now: Instant,
        tx_gen: u64,
        datagram: Vec<u8>,
        waker: WakerId,
        actions: &mut Vec<PeerAction>,
    )
        ensures
            exists|a: ChannelAnswers|
                {
                    let step = #[trigger] old(self)@.sent(
                        now,
                        PendingSendView { tx_gen, datagram: datagram@, waker },
                        a,
                    );
                    final(self)@ == step.peer && extends(old(actions)@, final(actions)@, step.actions)
                },
    {
        let ghost view = PendingSendView { tx_gen, datagram: datagram@, waker };
        let ghost mut answers = ChannelAnswers {
            inbound_taken: 0,
            outbound_taken: 0,
            outbound_closed: false,
            direct: TrySend::Full,
        };
        let live = match self.phase {
            PeerPhase::Connected { tx_gen: live_gen, .. } => tx_gen == live_gen,
            _ => false,
        };
        if live {
            let (taken, closed) = self.flush_pending();
            proof {
                answers.outbound_taken = taken as nat;
                answers.outbound_closed = closed;
            }
            let send = PendingSend { tx_gen, datagram, waker };
            match self.pipe.take() {
                Some(mut pipe) => {
                    let ghost flushed = old(self)@.flushed(taken as nat, closed);
                    let answer = try_send_outbound(&mut pipe.outbound_tx, send);
                    self.pipe = Some(pipe);
                    proof {
                        answers.direct = match answer {
                            Ok(()) => TrySend::Accepted,
                            Err(SendRefused::Full(_)) => TrySend::Full,
                            Err(SendRefused::Closed(_)) => TrySend::Closed,
                        };
                    }
                    self.settle_send(tx_gen, waker, answer, actions);
                    assert(self@ == flushed.offered(view, answers.direct).peer);
                },
                None => {
                    self.buffer(send);
                },
            }
        } else {
            match self.phase {
                PeerPhase::Connected { .. } | PeerPhase::Draining { .. } | PeerPhase::Dead {
                    ..
                } => {
                    emit(
                        actions,
                        PeerAction::AckSend { tx_gen, waker, result: Err(ErrorKind::WouldBlock) },
                    );
                },
                PeerPhase::Discovered { .. } => {
                    self.buffer(PendingSend { tx_gen, datagram, waker });
                    self.dial(now, 0, actions);
                },
                _ => {
                    self.buffer(PendingSend { tx_gen, datagram, waker });
                    emit(actions, PeerAction::AckSend { tx_gen, waker, result: Ok(()) });
                },
            }
        }
        proof {
            let step = old(self)@.sent(now, view, answers);
            assert(self@ == step.peer);
            assert(extends(old(actions)@, actions@, step.actions));
        }
    }

    /// Handles a connection that came up.
    pub fn on_connect_succeeded(
        &mut self,
        now: Instant,
        channel: ChannelHandle,
        actions: &mut Vec<PeerAction>,
    )
        requires
            old(self)@.can_connect(),
        ensures
            final(self)@ == old(self)@.connect_succeeded(now, channel).peer,
            extends(
                old(actions)@,
                final(actions)@,
                old(self)@.connect_succeeded(now, channel).actions,
            ),
    {
        if !matches!(self.phase, PeerPhase::Connecting { .. }) {
            return;
        }
        self.consecutive_failures = 0;
        let device_id = self.device();
        emit(actions, PeerAction::ReadVersion { device_id });
        self.promote(now, channel);
        self.emit_start_pipe(ConnectPath::Gatt, None, actions);
    }

    fn promote(&mut self, now: Instant, channel: ChannelHandle)
        requires
            old(self)@.tx_gen < u64::MAX,
        ensures
            final(self)@ == old(self)@.promoted(now, channel),
    {
        self.tx_gen = self.tx_gen + 1;
        self.phase = PeerPhase::Connected {
            since: now,
            channel,
            tx_gen: self.tx_gen,
            upgrading: false,
        };
    }

    fn emit_start_pipe(
        &self,
        path: ConnectPath,
        l2cap_channel: Option<L2capChannel>,
        actions: &mut Vec<PeerAction>,
    )
        ensures
            extends(old(actions)@, final(actions)@, seq![self@.start_pipe(path, l2cap_channel)]),
    {
        emit(
            actions,
            PeerAction::StartDataPipe {
                device_id: self.device(),
                tx_gen: self.tx_gen,
                role: self.role,
                path,
                l2cap_channel,
            },
        );
    }

    fn emit_close(
        &self,
        channel: Option<ChannelHandle>,
        reason: DisconnectReason,
        actions: &mut Vec<PeerAction>,
    )
        ensures
            extends(
                old(actions)@,
                final(actions)@,
                match channel {
                    Some(channel) => seq![
                        ActionView::CloseChannel { device_id: self@.device_id, channel, reason },
                    ],
                    None => Seq::empty(),
                },
            ),
    {
        if let Some(channel) = channel {
            emit(actions, PeerAction::CloseChannel { device_id: self.device(), channel, reason });
        }
    }

    /// The channel of a link that is up or coming up.
    pub fn live_channel(&self) -> (channel: Option<ChannelHandle>)
        ensures
            channel == live_channel(self@.phase),
    {
        match self.phase {
            PeerPhase::Connected { channel, .. } => Some(channel),
            PeerPhase::Handshaking { channel, .. } => Some(channel),
            _ => None,
        }
    }

    /// Handles an attempt to connect that failed.
    pub fn on_connect_failed(&mut self, now: Instant, error: &str, actions: &mut Vec<PeerAction>)
        requires
            old(self)@.can_fail(now),
        ensures
            final(self)@ == old(self)@.connect_failed(now, error@).peer,
            extends(
                old(actions)@,
                final(actions)@,
                old(self)@.connect_failed(now, error@).actions,
            ),
    {
        let attempt: u32 = match self.phase {
            PeerPhase::Connecting { attempt, .. } => attempt,
            _ => {
                return;
            },
        };
        let next: u32 = attempt + 1;
        self.consecutive_failures = self.consecutive_failures + 1;
        emit(actions, PeerAction::EmitMetric(metric("connect_failed:", error)));
        if next >= MAX_CONNECT_ATTEMPTS {
            self.phase = PeerPhase::Dead { reason: DeadReason::MaxRetries, at: now };
            if let Some(prefix) = self.prefix {
                emit(actions, PeerAction::ForgetPeerStore { prefix });
            }
        } else {
            self.phase = PeerPhase::Reconnecting {
                attempt: next,
                next_at: now.after(reconnect_backoff(next)),
                reason: DisconnectReason::Timeout,
            };
        }
    }

    fn push_backlog(&mut self, fragment: Vec<u8>)
        ensures
            final(self)@ == (PeerView {
                rx_backlog: old(self)@.rx_backlog.push(fragment@),
                ..old(self)@
            }),
    {
        self.rx_backlog.push_back(fragment);
        assert(fragments_view(self.rx_backlog@) =~= old(self)@.rx_backlog.push(fragment@));
    }

    fn answer(&mut self, now: Instant, fragment: Vec<u8>, actions: &mut Vec<PeerAction>)
        requires
            old(self)@.tx_gen < u64::MAX,
        ensures
            final(self)@ == old(self)@.answering(now, fragment@).peer,
            extends(
                old(actions)@,
                final(actions)@,
                old(self)@.answering(now, fragment@).actions,
            ),
    {
        self.pipe = None;
        self.role = ConnectRole::Peripheral;
        self.promote(now, ChannelHandle { id: 0, path: ConnectPath::Gatt });
        self.push_backlog(fragment);
        self.emit_start_pipe(ConnectPath::Gatt, None, actions);
    }

    /// Handles a fragment from this device, which is already known.
    pub fn on_fragment(&mut self, now: Instant, fragment: Vec<u8>, actions: &mut Vec<PeerAction>)
        requires
            old(self)@.can_hear(),
        ensures
            exists|a: ChannelAnswers|
                {
                    let step = #[trigger] old(self)@.fragment_received(now, fragment@, a);
                    final(self)@ == step.peer && extends(
                        old(actions)@,
                        final(actions)@,
                        step.actions,
                    )
                },
    {
        let ghost mut answers = ChannelAnswers {
            inbound_taken: 0,
            outbound_taken: 0,
            outbound_closed: false,
            direct: TrySend::Full,
        };
        let ghost bytes = fragment@;
        self.last_rx = Some(now);
        match self.phase {
            PeerPhase::Handshaking { channel, .. } => {
                self.promote(now, channel);
                self.push_backlog(fragment);
                self.emit_start_pipe(ConnectPath::Gatt, None, actions);
            },
            PeerPhase::Connected { .. } => {
                match self.pipe.take() {
                    Some(mut pipe) => {
                        // A fragment that finds no room is dropped; the
                        // reliable protocol above sends it again.
                        let taken = try_send_inbound(&mut pipe.inbound_tx, fragment);
                        self.pipe = Some(pipe);
                        proof {
                            if taken {
                                answers.inbound_taken = 1;
                            }
                        }
                    },
                    None => {
                        let ghost before = self.rx_backlog@;
                        if self.rx_backlog.len() >= RX_BACKLOG_CAP {
                            let _ = self.rx_backlog.pop_front();
                            assert(fragments_view(self.rx_backlog@) =~= fragments_view(before).skip(1));
                        }
                        self.push_backlog(fragment);
                    },
                }
            },
            PeerPhase::Restoring { .. } => {
                // The adapter is off; what still trickles in from draining
                // pipes does not bring the peer back.
            },
            _ => {
                self.answer(now, fragment, actions);
            },
        }
        proof {
            let step = old(self)@.fragment_received(now, bytes, answers);
            assert(self@ == step.peer);
            assert(extends(old(actions)@, actions@, step.actions));
        }
    }

    /// The first fragment from a device makes it a peripheral-role peer.
    pub fn first_fragment(
        device_id: DeviceId,
        now: Instant,
        fragment: Vec<u8>,
        actions: &mut Vec<PeerAction>,
    ) -> (entry: PeerEntry)
        ensures
            ({
                let step = PeerView {
                    last_rx: Some(now),
                    ..PeerView::fresh(device_id@)
                }.answering(now, fragment@);
                entry@ == step.peer && extends(old(actions)@, final(actions)@, step.actions)
            }),
    {
        let mut entry = PeerEntry::new(device_id);
        entry.last_rx = Some(now);
        entry.answer(now, fragment, actions);
        entry
    }

    /// Handles a link that the platform reports as gone.
    pub fn on_central_disconnected(
        &mut self,
        at: Clock,
        cause: DisconnectCause,
        actions: &mut Vec<PeerAction>,
    )
        ensures
            final(self)@ == old(self)@.central_disconnected(at, cause).peer,
            extends(
                old(actions)@,
                final(actions)@,
                old(self)@.central_disconnected(at, cause).actions,
            ),
    {
        let reason = DisconnectReason::from(cause);
        let channel = self.live_channel();
        self.drain_to_draining(at, reason, actions);
        self.emit_close(channel, reason, actions);
        if matches!(reason, DisconnectReason::Gatt133) {
            let device_id = self.device();
            emit(actions, PeerAction::Refresh { device_id });
        }
    }

    /// Handles the adapter losing power.
    pub fn on_adapter_off(&mut self, now: Instant)
        ensures
            final(self)@ == old(self)@.adapter_off(now),
    {
        self.phase = PeerPhase::Restoring { since: now };
        self.pending_sends.clear();
        assert(sends_view(self.pending_sends@) =~= Seq::empty());
    }

    /// Handles the adapter regaining power.
    pub fn on_adapter_on(&mut self, now: Instant)
        ensures
            final(self)@ == old(self)@.adapter_on(now),
    {
        if matches!(self.phase, PeerPhase::Restoring { .. }) {
            self.phase = PeerPhase::Reconnecting {
                attempt: 0,
                next_at: now,
                reason: DisconnectReason::AdapterOff,
            };
        }
    }

    /// Handles a link that the platform restored.
    pub fn on_restored(&mut self, now: Instant)
        ensures
            final(self)@ == old(self)@.restored(now),
    {
        if !matches!(self.phase, PeerPhase::Connected { .. } | PeerPhase::Handshaking { .. }) {
            self.phase = PeerPhase::Restoring { since: now };
        }
    }

    /// Handles the passing of time.
    pub fn on_tick(&mut self, now: Instant, actions: &mut Vec<PeerAction>)
        ensures
            final(self)@ == old(self)@.ticked(now).peer,
            extends(old(actions)@, final(actions)@, old(self)@.ticked(now).actions),
    {
        match self.phase {
            PeerPhase::Reconnecting { attempt, next_at, .. } => {
                if next_at.nanos <= now.nanos {
                    self.dial(now, attempt, actions);
                }
            },
            PeerPhase::PendingDial { deadline, .. } => {
                if deadline.nanos <= now.nanos {
                    self.dial(now, 0, actions);
                }
            },
            PeerPhase::Draining { since, .. } => {
                // After the drain window the device is not rescued: a new
                // advertisement or a new send brings the peer back.
                if now.saturating_duration_since(since).nanos > DRAINING_TIMEOUT {
                    self.phase = PeerPhase::Dead { reason: DeadReason::Forgotten, at: now };
                }
            },
            PeerPhase::Restoring { since } => {
                if now.saturating_duration_since(since).nanos > RESTORING_TIMEOUT {
                    self.phase = PeerPhase::Dead { reason: DeadReason::Forgotten, at: now };
                }
            },
            _ => {},
        }
    }

    /// Whether this peer has been dead for so long that it is forgotten.
    pub fn is_expired(&self, now: Instant) -> (r: bool)
        ensures
            r == self@.expired(now),
    {
        match self.phase {
            PeerPhase::Dead { at, .. } => now.saturating_duration_since(at).nanos > DEAD_GC_TTL,
            _ => false,
        }
    }

    /// Handles the order to evict this device.
    pub fn on_forget(&mut self, now: Instant, actions: &mut Vec<PeerAction>)
        ensures
            final(self)@ == old(self)@.forgotten(now).peer,
            extends(old(actions)@, final(actions)@, old(self)@.forgotten(now).actions),
    {
        let channel = self.live_channel();
        self.pipe = None;
        self.fail_pending(ErrorKind::ConnectionAborted, actions);
        self.rx_backlog.clear();
        assert(fragments_view(self.rx_backlog@) =~= Seq::empty());
        self.phase = PeerPhase::Dead { reason: DeadReason::Forgotten, at: now };
        self.emit_close(channel, DisconnectReason::LocalClose, actions);
    }

    /// Handles a link on which nothing moves any more.
    pub fn on_stalled(&mut self, at: Clock, actions: &mut Vec<PeerAction>)
        ensures
            final(self)@ == old(self)@.stalled(at).peer,
            extends(old(actions)@, final(actions)@, old(self)@.stalled(at).actions),
    {
        if matches!(self.phase, PeerPhase::Connected { .. }) {
            let channel = self.live_channel();
            self.drain_to_draining(at, DisconnectReason::LinkDead, actions);
            self.emit_close(channel, DisconnectReason::LinkDead, actions);
        }
    }

    /// Handles the registry going away.
    pub fn on_shutdown(&mut self, actions: &mut Vec<PeerAction>)
        ensures
            final(self)@ == old(self)@.shut_down().peer,
            extends(old(actions)@, final(actions)@, old(self)@.shut_down().actions),
    {
        self.fail_pending(ErrorKind::ConnectionAborted, actions);
    }

    /// Hands the waiting fragments to a new pipe, oldest first, up to and
    /// without the first one that finds no room. Returns how many were taken.
    fn drain_backlog(&mut self, pipe: &mut PipeHandles) -> (taken: usize)
        ensures
            ({
                let backlog = old(self)@.rx_backlog;
                let n = taken as int;
                &&& n <= backlog.len()
                &&& final(self)@ == (PeerView {
                    rx_backlog: if n < backlog.len() {
                        backlog.skip(n + 1)
                    } else {
                        Seq::empty()
                    },
                    ..old(self)@
                })
                &&& final(pipe)@ == (PipeView {
                    inbound: old(pipe)@.inbound + backlog.take(n),
                    inbound_offered: old(pipe)@.inbound_offered + fragment_offers(
                        backlog,
                        n as nat,
                    ),
                    ..old(pipe)@
                })
            }),
    {
        let ghost all = self@.rx_backlog;
        let ghost log = pipe@.inbound_offered;
        let total: usize = self.rx_backlog.len();
        let mut taken: usize = 0;
        proof {
            assert(all.skip(0) =~= all);
            assert(pipe@.inbound + all.take(0) =~= pipe@.inbound);
            assert(log + fragment_offers(all.take(0), 0) =~= log);
        }
        while taken < total
            invariant
                taken <= total,
                total == all.len(),
                all == old(self)@.rx_backlog,
                self@ == (PeerView { rx_backlog: all.skip(taken as int), ..old(self)@ }),
                log == old(pipe)@.inbound_offered,
                pipe@ == (PipeView {
                    inbound: old(pipe)@.inbound + all.take(taken as int),
                    inbound_offered: log + fragment_offers(all.take(taken as int), taken as nat),
                    ..old(pipe)@
                }),
            decreases total - taken,
        {
            let ghost before = self.rx_backlog@;
            assert(fragments_view(before).len() == before.len());
            match self.rx_backlog.pop_front() {
                None => {
                    assert(false);
                },
                Some(fragment) => {
                    proof {
                        assert(fragments_view(self.rx_backlog@) =~= fragments_view(before).skip(1));
                        assert(all.skip(taken as int).skip(1) =~= all.skip(taken + 1));
                        assert(fragment@ == fragments_view(before)[0]);
                        assert(fragment@ == all[taken as int]);
                    }
                    if !try_send_inbound(&mut pipe.inbound_tx, fragment) {
                        assert(pipe@.inbound_offered =~= log + fragment_offers(all, taken as nat));
                        return taken;
                    }
                    proof {
                        assert(pipe@.inbound =~= old(pipe)@.inbound + all.take(taken + 1));
                        assert(pipe@.inbound_offered =~= log + fragment_offers(
                            all.take(taken + 1),
                            (taken + 1) as nat,
                        ));
                    }
                    taken = taken + 1;
                },
            }
        }
        assert(all.skip(taken as int) =~= Seq::empty());
        assert(all.take(taken as int) =~= all);
        taken
    }

    /// Handles a pipe that came up.
    pub fn on_data_pipe_ready(&mut self, handles: PipeHandles)
        ensures
            exists|a: ChannelAnswers|
                final(self)@ == #[trigger] old(self)@.pipe_ready(handles@, a),
    {
        let ghost pipe = handles@;
        let mut handles = handles;
        let rx: usize = self.drain_backlog(&mut handles);
        let (tx, closed) = self.feed(&mut handles);
        self.pipe = Some(handles);
        proof {
            let a = ChannelAnswers {
                inbound_taken: rx as nat,
                outbound_taken: tx as nat,
                outbound_closed: closed,
                direct: TrySend::Full,
            };
            assert(self@ == old(self)@.pipe_ready(pipe, a));
        }
    }

    fn set_upgrading(&mut self, value: bool)
        ensures
            final(self)@ == old(self)@.with_upgrading(value),
    {
        if let PeerPhase::Connected { since, channel, tx_gen, .. } = self.phase {
            self.phase = PeerPhase::Connected { since, channel, tx_gen, upgrading: value };
        }
    }

    fn fail_upgrade(&mut self)
        ensures
            final(self)@ == old(self)@.upgrade_failed(),
    {
        self.l2cap_upgrade_failed = true;
        self.set_upgrading(false);
    }

    /// Handles an L2CAP channel that we opened.
    pub fn on_open_l2cap_succeeded(
        &mut self,
        now: Instant,
        opened: L2capChannel,
        actions: &mut Vec<PeerAction>,
    )
        requires
            old(self)@.can_open_l2cap(),
        ensures
            final(self)@ == old(self)@.l2cap_opened(now, opened).peer,
            extends(
                old(actions)@,
                final(actions)@,
                old(self)@.l2cap_opened(now, opened).actions,
            ),
    {
        match self.phase {
            PeerPhase::Handshaking { channel, .. } => {
                self.l2cap_channel = None;
                self.promote(now, ChannelHandle { id: channel.id, path: ConnectPath::L2cap });
                self.emit_start_pipe(ConnectPath::L2cap, Some(opened), actions);
            },
            PeerPhase::Connected { upgrading: true, .. } => {
                let swap_tx = match &self.pipe {
                    Some(handles) => Some(handles.swap_tx),
                    None => None,
                };
                match swap_tx {
                    Some(swap_tx) => {
                        self.set_upgrading(false);
                        let device_id = self.device();
                        emit(
                            actions,
                            PeerAction::SwapPipeToL2cap { device_id, channel: opened, swap_tx },
                        );
                    },
                    // The pipe went away while the upgrade ran. The channel is
                    // dropped and the upgrade counts as failed, so that the
                    // entry does not stay in it for good.
                    None => self.fail_upgrade(),
                }
            },
            _ => {},
        }
    }

    /// Handles an L2CAP channel that could not be opened.
    pub fn on_open_l2cap_failed(
        &mut self,
        now: Instant,
        error: &str,
        actions: &mut Vec<PeerAction>,
    )
        requires
            old(self)@.can_open_l2cap(),
        ensures
            final(self)@ == old(self)@.l2cap_open_failed(now, error@).peer,
            extends(
                old(actions)@,
                final(actions)@,
                old(self)@.l2cap_open_failed(now, error@).actions,
            ),
    {
        match self.phase {
            PeerPhase::Handshaking { channel, .. } => {
                self.promote(now, channel);
                self.emit_start_pipe(ConnectPath::Gatt, None, actions);
                emit(actions, PeerAction::EmitMetric(metric("l2cap_fallback_to_gatt:", error)));
            },
            PeerPhase::Connected { upgrading: true, .. } => self.fail_upgrade(),
            _ => {},
        }
    }

    /// Handles an L2CAP pipe that did not take over in time.
    pub fn on_handover_timeout(&mut self, actions: &mut Vec<PeerAction>)
        ensures
            final(self)@ == old(self)@.handover_timed_out().peer,
            extends(old(actions)@, final(actions)@, old(self)@.handover_timed_out().actions),
    {
        self.fail_upgrade();
        let device_id = self.device();
        emit(
            actions,
            PeerAction::RevertToGattPipe { device_id, tx_gen: self.tx_gen, role: self.role },
        );
    }

    fn promote_over_l2cap(
        &mut self,
        now: Instant,
        channel: L2capChannel,
        actions: &mut Vec<PeerAction>,
    )
        requires
            old(self)@.tx_gen < u64::MAX,
        ensures
            final(self)@ == old(self)@.l2cap_promoted(now, channel).peer,
            extends(
                old(actions)@,
                final(actions)@,
                old(self)@.l2cap_promoted(now, channel).actions,
            ),
    {
        self.l2cap_channel = None;
        self.promote(now, ChannelHandle { id: 0, path: ConnectPath::L2cap });
        self.emit_start_pipe(ConnectPath::L2cap, Some(channel), actions);
    }

    /// Handles an L2CAP channel that the other side opened.
    pub fn on_inbound_l2cap_channel(
        &mut self,
        now: Instant,
        channel: L2capChannel,
        actions: &mut Vec<PeerAction>,
    )
        requires
            old(self)@.can_accept_l2cap(),
        ensures
            final(self)@ == old(self)@.l2cap_accepted(now, channel).peer,
            extends(
                old(actions)@,
                final(actions)@,
                old(self)@.l2cap_accepted(now, channel).actions,
            ),
    {
        if self.pipe.is_some() {
            let duplicate = match self.phase {
                PeerPhase::Connected { channel: live, .. } => matches!(live.path, ConnectPath::L2cap),
                _ => false,
            };
            let text = if duplicate {
                "l2cap_duplicate_accept"
            } else {
                "l2cap_late_accept_after_gatt"
            };
            emit(actions, PeerAction::EmitMetric(text.to_owned()));
        } else {
            self.promote_over_l2cap(now, channel, actions);
        }
    }

    /// An L2CAP channel from a device not seen before makes it a
    /// peripheral-role peer.
    pub fn first_l2cap_channel(
        device_id: DeviceId,
        now: Instant,
        channel: L2capChannel,
        actions: &mut Vec<PeerAction>,
    ) -> (entry: PeerEntry)
        ensures
            ({
                let step = PeerView {
                    role: ConnectRole::Peripheral,
                    ..PeerView::fresh(device_id@)
                }.l2cap_promoted(now, channel);
                entry@ == step.peer && extends(old(actions)@, final(actions)@, step.actions)
            }),
    {
        let mut entry = PeerEntry::new(device_id);
        entry.role = ConnectRole::Peripheral;
        entry.promote_over_l2cap(now, channel, actions);
        entry
    }

    /// Handles a peer that speaks another protocol version.
    pub fn on_version_mismatch(
        &mut self,
        at: Clock,
        got: u8,
        want: u8,
        actions: &mut Vec<PeerAction>,
    )
        ensures
            final(self)@ == old(self)@.version_mismatched(at, got, want).peer,
            extends(
                old(actions)@,
                final(actions)@,
                old(self)@.version_mismatched(at, got, want).actions,
            ),
    {
        let channel = self.live_channel();
        self.drain_to_draining(at, DisconnectReason::ProtocolMismatch, actions);
        self.phase = PeerPhase::Dead {
            reason: DeadReason::ProtocolMismatch { got, want },
            at: at.now,
        };
        self.emit_close(channel, DisconnectReason::ProtocolMismatch, actions);
    }

    /// Handles a central that subscribed to one of our characteristics. The
    /// second characteristic of the pair changes nothing.
    pub fn on_client_subscribed(&mut self, now: Instant, actions: &mut Vec<PeerAction>)
        requires
            old(self)@.can_subscribe(),
        ensures
            final(self)@ == old(self)@.client_subscribed(now).peer,
            extends(old(actions)@, final(actions)@, old(self)@.client_subscribed(now).actions),
    {
        let peripheral = matches!(self.role, ConnectRole::Peripheral);
        if matches!(self.phase, PeerPhase::Connected { .. }) && peripheral {
            return;
        }
        self.role = ConnectRole::Peripheral;
        let id: u64 = self.tx_gen + 1;
        self.promote(now, ChannelHandle { id, path: ConnectPath::Gatt });
        self.emit_start_pipe(ConnectPath::Gatt, None, actions);
    }

    /// Handles an advertisement.
    pub fn on_advertised(
        &mut self,
        now: Instant,
        prefix: KeyPrefix,
        suppressed: bool,
        defer: bool,
        actions: &mut Vec<PeerAction>,
    )
        requires
            old(self)@.can_advertise(now, prefix, suppressed, defer),
        ensures
            final(self)@ == old(self)@.advertised(now, prefix, suppressed, defer).peer,
            extends(
                old(actions)@,
                final(actions)@,
                old(self)@.advertised(now, prefix, suppressed, defer).actions,
            ),
    {
        self.last_adv = Some(now);
        self.prefix = Some(prefix);
        if suppressed {
            return;
        }
        let idle = self.pending_sends.len() == 0;
        match self.phase {
            PeerPhase::Unknown => {
                if idle {
                    self.phase = PeerPhase::Discovered { since: now };
                } else {
                    self.dial_or_defer(now, prefix, defer, actions);
                }
            },
            PeerPhase::Discovered { .. } => {
                if !idle {
                    self.dial_or_defer(now, prefix, defer, actions);
                }
            },
            PeerPhase::Reconnecting { attempt, next_at, .. } => {
                if next_at.nanos <= now.nanos {
                    self.dial(now, attempt, actions);
                }
            },
            _ => {},
        }
    }

    fn dial_or_defer(
        &mut self,
        now: Instant,
        prefix: KeyPrefix,
        defer: bool,
        actions: &mut Vec<PeerAction>,
    )
        requires
            defer ==> now.nanos + dial_wait(prefix) <= u64::MAX,
        ensures
            defer ==> final(self)@ == (PeerView {
                phase: PeerPhase::PendingDial {
                    since: now,
                    deadline: dial_deadline(now, prefix),
                    prefix,
                },
                ..old(self)@
            }) && final(actions)@ == old(actions)@,
            !defer ==> final(self)@ == old(self)@.dialed(now, 0).peer && extends(
                old(actions)@,
                final(actions)@,
                old(self)@.dialed(now, 0).actions,
            ),
    {
        if defer {
            self.phase = PeerPhase::PendingDial {
                since: now,
                deadline: pending_dial_deadline(now, prefix),
                prefix,
            };
        } else {
            self.dial(now, 0, actions);
        }
    }

    /// Whether a connection that came up finds a generation left if it needs one.
    pub fn can_connect(&self) -> (r: bool)
        ensures
            r == self@.can_connect(),
    {
        !matches!(self.phase, PeerPhase::Connecting { .. }) || self.tx_gen < u64::MAX
    }

    /// Whether a failed attempt to connect can be counted, and the next one timed.
    pub fn can_fail(&self, now: Instant) -> (r: bool)
        ensures
            r == self@.can_fail(now),
    {
        match self.phase {
            PeerPhase::Connecting { attempt, .. } => {
                if attempt >= u32::MAX || self.consecutive_failures >= u32::MAX {
                    false
                } else if attempt + 1 >= MAX_CONNECT_ATTEMPTS {
                    true
                } else {
                    now.nanos <= u64::MAX - reconnect_backoff(attempt + 1).nanos
                }
            },
            _ => true,
        }
    }

    /// Whether a fragment finds a generation left if it needs one.
    pub fn can_hear(&self) -> (r: bool)
        ensures
            r == self@.can_hear(),
    {
        match self.phase {
            PeerPhase::Connected { .. } | PeerPhase::Restoring { .. } => true,
            _ => self.tx_gen < u64::MAX,
        }
    }

    /// Whether the end of an attempt to open L2CAP finds a generation left if it
    /// needs one.
    pub fn can_open_l2cap(&self) -> (r: bool)
        ensures
            r == self@.can_open_l2cap(),
    {
        !matches!(self.phase, PeerPhase::Handshaking { .. }) || self.tx_gen < u64::MAX
    }

    /// Whether an L2CAP channel from the other side finds a generation left if
    /// it needs one.
    pub fn can_accept_l2cap(&self) -> (r: bool)
        ensures
            r == self@.can_accept_l2cap(),
    {
        self.pipe.is_some() || self.tx_gen < u64::MAX
    }

    /// Whether a subscription finds a generation left if it needs one.
    pub fn can_subscribe(&self) -> (r: bool)
        ensures
            r == self@.can_subscribe(),
    {
        let peripheral = matches!(self.role, ConnectRole::Peripheral);
        (matches!(self.phase, PeerPhase::Connected { .. }) && peripheral) || self.tx_gen < u64::MAX
    }

    /// Whether a dial that an advertisement leads to can be timed.
    pub fn can_advertise(
        &self,
        now: Instant,
        prefix: KeyPrefix,
        suppressed: bool,
        defer: bool,
    ) -> (r: bool)
        ensures
            r == self@.can_advertise(now, prefix, suppressed, defer),
    {
        let unseen = matches!(self.phase, PeerPhase::Unknown | PeerPhase::Discovered { .. });
        if defer && !suppressed && unseen && self.pending_sends.len() > 0 {
            now.nanos <= u64::MAX - pending_dial_wait(prefix).nanos
        } else {
            true
        }
    }

    /// Whether this peer is known under the given prefix.
    pub fn has_prefix(&self, prefix: &KeyPrefix) -> (r: bool)
        ensures
            r == (self@.prefix == Some(*prefix)),
    {
        match &self.prefix {
            Some(p) => prefix_equal(p, prefix),
            None => false,
        }
    }

    /// Records a proven key if this peer is known under its prefix.
    pub fn stamp(&mut self, now: Instant, prefix: &KeyPrefix, key: EndpointId)
        ensures
            final(self)@ == old(self)@.stamped(now, *prefix, key),
    {
        if self.has_prefix(prefix) {
            self.verified_endpoint = Some(key);
            self.verified_at = Some(now);
        }
    }

    /// Gives up a dial held back for the given prefix.
    pub fn cancel_dial(&mut self, at: Clock, prefix: &KeyPrefix, actions: &mut Vec<PeerAction>)
        ensures
            final(self)@ == old(self)@.dial_cancelled(at, *prefix).peer,
            extends(
                old(actions)@,
                final(actions)@,
                old(self)@.dial_cancelled(at, *prefix).actions,
            ),
    {
        let cancel = match &self.phase {
            PeerPhase::PendingDial { prefix: p, .. } => prefix_equal(p, prefix),
            _ => false,
        };
        if cancel {
            self.drain_to_draining(at, DisconnectReason::DedupLoser, actions);
        }
    }

    /// Starts to move to L2CAP if this peer can.
    pub fn start_upgrade(&mut self, prefix: &KeyPrefix, actions: &mut Vec<PeerAction>)
        ensures
            final(self)@ == old(self)@.upgrade_started(*prefix).peer,
            extends(
                old(actions)@,
                final(actions)@,
                old(self)@.upgrade_started(*prefix).actions,
            ),
    {
        let over_gatt = match self.phase {
            PeerPhase::Connected { upgrading: false, channel, .. } => matches!(
                channel.path,
                ConnectPath::Gatt
            ),
            _ => false,
        };
        if over_gatt && !self.l2cap_upgrade_failed && self.has_prefix(prefix) {
            self.set_upgrading(true);
            let device_id = self.device();
            emit(actions, PeerAction::UpgradeToL2cap { device_id });
        }
    }
}

} // verus!
