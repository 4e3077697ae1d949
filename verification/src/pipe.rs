//! The decisions of a data pipe.
//!
//! A supervisor takes sends and fragments and passes them to the worker that
//! serves the link, over GATT or over L2CAP. When an L2CAP channel comes up the
//! link is handed over: sends go to the new worker at once, while the old one
//! keeps reassembling the fragments that are still under way, for as long as
//! the drain window runs.
//!
//! The supervisor and both workers are state machines here. The caller waits
//! for the next event, hands it in, and does what the returned step says.

use vstd::prelude::*;

use crate::peer::{CommandView, ConnectPath, ConnectRole, DeviceId, PeerCommand};
use crate::time::Instant;

verus! {

/// Nanoseconds for which a pipe waits: for an L2CAP worker to take a send, and
/// for a worker to end.
pub const L2CAP_HANDOVER_TIMEOUT: u64 = 2_000_000_000;

/// Nanoseconds for which a retired GATT worker keeps reassembling fragments.
pub const GATT_DRAIN_DEADLINE: u64 = 3_000_000_000;

/// Bytes per fragment until the MTU of the link is known: the smallest MTU
/// that is taken seriously, without the header of an attribute write.
pub const INITIAL_CHUNK_SIZE: usize = 21;

/// Bytes of the MTU that the header of an attribute write takes.
pub const ATT_OVERHEAD: usize = 3;

/// How many bytes go into a fragment once the MTU of the link is known.
pub fn chunk_size(mtu: usize) -> (n: usize)
    ensures
        n == if mtu - ATT_OVERHEAD > INITIAL_CHUNK_SIZE {
            mtu - ATT_OVERHEAD
        } else {
            INITIAL_CHUNK_SIZE as int
        },
        n >= 21,
        mtu >= 24 ==> n == mtu - 3,
        mtu < 24 ==> n == 21,
{
    if mtu > INITIAL_CHUNK_SIZE + ATT_OVERHEAD {
        mtu - ATT_OVERHEAD
    } else {
        INITIAL_CHUNK_SIZE
    }
}

/// What the supervisor waits to hear back.
#[derive(Clone, Copy, PartialEq, Eq, Structural, Debug)]
pub enum Awaiting {
    /// Nothing: it takes the next send, fragment or channel.
    Nothing,
    /// Whether the worker took a send.
    SendTaken,
    /// Whether the GATT worker took a fragment.
    FragmentTaken,
    /// Whether the retired GATT worker took a fragment.
    LateFragmentTaken,
}

/// Where a pipe stands.
#[derive(Clone, Copy, PartialEq, Eq, Structural, Debug)]
pub struct Supervisor {
    /// The worker that serves the link.
    pub path: ConnectPath,
    /// When the GATT worker was retired, as long as there is one. It takes
    /// fragments for [`GATT_DRAIN_DEADLINE`] more.
    pub handed_over: Option<Instant>,
    /// Whether a channel can still come in to take over.
    pub swap_open: bool,
    pub awaiting: Awaiting,
    pub stopped: bool,
}

/// What happened to a pipe.
#[derive(Clone, Copy, PartialEq, Eq, Structural, Debug)]
pub enum PipeEvent {
    /// A send came in.
    Send,
    /// No send will come in any more.
    SendsClosed,
    /// A fragment came in.
    Fragment,
    /// No fragment will come in any more.
    FragmentsClosed,
    /// An L2CAP channel came up.
    Channel,
    /// No channel will come up any more.
    ChannelsClosed,
    /// The worker took what it was handed.
    Taken,
    /// The worker is gone.
    WorkerGone,
    /// The worker did not take it in time.
    TimedOut,
}

/// What the caller has to do.
#[derive(Clone, Copy, PartialEq, Eq, Structural, Debug)]
pub enum PipeStep {
    /// Wait for the next event.
    Wait,
    /// Hand the send to the GATT worker.
    SendOverGatt,
    /// Hand the send to the L2CAP worker, for at most
    /// [`L2CAP_HANDOVER_TIMEOUT`].
    SendOverL2cap,
    /// Hand the fragment to the GATT worker.
    ReassembleFragment,
    /// Hand the fragment to the retired GATT worker.
    ReassembleLateFragment,
    /// Drop the fragment: no worker is left that could reassemble it.
    DropFragment,
    /// Start an L2CAP worker on the channel and retire the GATT worker after
    /// [`GATT_DRAIN_DEADLINE`].
    HandOver,
    /// Drop the channel: the link runs over L2CAP already.
    DropChannel,
    /// Stop, and tell the registry of the timeout if `timed_out`.
    Stop { timed_out: bool },
}

impl Supervisor {
    pub open spec fn halted(self, timed_out: bool) -> (Supervisor, PipeStep) {
        (Supervisor { stopped: true, ..self }, PipeStep::Stop { timed_out })
    }

    /// Fragments are still reassembled after the hand-over.
    pub open spec fn draining(self, now: Instant) -> bool {
        self.handed_over matches Some(since) && now.nanos_since(since) < GATT_DRAIN_DEADLINE
    }

    /// What an event does.
    pub open spec fn next(self, event: PipeEvent, now: Instant) -> (Supervisor, PipeStep) {
        if self.stopped {
            (self, PipeStep::Stop { timed_out: false })
        } else {
            match event {
                PipeEvent::Send => (
                    Supervisor { awaiting: Awaiting::SendTaken, ..self },
                    match self.path {
                        ConnectPath::Gatt => PipeStep::SendOverGatt,
                        ConnectPath::L2cap => PipeStep::SendOverL2cap,
                    },
                ),
                PipeEvent::SendsClosed | PipeEvent::FragmentsClosed => self.halted(false),
                PipeEvent::Fragment => match self.path {
                    ConnectPath::Gatt => (
                        Supervisor { awaiting: Awaiting::FragmentTaken, ..self },
                        PipeStep::ReassembleFragment,
                    ),
                    ConnectPath::L2cap => if self.draining(now) {
                        (
                            Supervisor { awaiting: Awaiting::LateFragmentTaken, ..self },
                            PipeStep::ReassembleLateFragment,
                        )
                    } else {
                        (self, PipeStep::DropFragment)
                    },
                },
                PipeEvent::Channel => match self.path {
                    ConnectPath::L2cap => (self, PipeStep::DropChannel),
                    ConnectPath::Gatt => (
                        Supervisor {
                            path: ConnectPath::L2cap,
                            handed_over: Some(now),
                            ..self
                        },
                        PipeStep::HandOver,
                    ),
                },
                PipeEvent::ChannelsClosed => (
                    Supervisor { swap_open: false, ..self },
                    PipeStep::Wait,
                ),
                PipeEvent::Taken => (
                    Supervisor { awaiting: Awaiting::Nothing, ..self },
                    PipeStep::Wait,
                ),
                PipeEvent::WorkerGone => match self.awaiting {
                    Awaiting::LateFragmentTaken => (
                        Supervisor { awaiting: Awaiting::Nothing, handed_over: None, ..self },
                        PipeStep::Wait,
                    ),
                    _ => self.halted(false),
                },
                PipeEvent::TimedOut => self.halted(true),
            }
        }
    }

    /// Starts a pipe over the given path. Without a channel there is no pipe
    /// over L2CAP.
    pub fn start(path: ConnectPath, has_channel: bool) -> (s: Option<Supervisor>)
        ensures
            s is None <==> (path is L2cap && !has_channel),
            s matches Some(s) ==> s == (Supervisor {
                path,
                handed_over: None,
                swap_open: true,
                awaiting: Awaiting::Nothing,
                stopped: false,
            }),
    {
        if matches!(path, ConnectPath::L2cap) && !has_channel {
            return None;
        }
        Some(
            Supervisor {
                path,
                handed_over: None,
                swap_open: true,
                awaiting: Awaiting::Nothing,
                stopped: false,
            },
        )
    }

    /// What the caller has to do after an event.
    pub fn on_event(&mut self, event: PipeEvent, now: Instant) -> (step: PipeStep)
        ensures
            (*final(self), step) == old(self).next(event, now),
            step is SendOverGatt ==> event is Send && old(self).path is Gatt,
            step is SendOverL2cap ==> event is Send && old(self).path is L2cap,
            event is Send && !old(self).stopped ==> step is SendOverGatt || step is SendOverL2cap,
    {
        if self.stopped {
            return PipeStep::Stop { timed_out: false };
        }
        match event {
            PipeEvent::Send => {
                self.awaiting = Awaiting::SendTaken;
                match self.path {
                    ConnectPath::Gatt => PipeStep::SendOverGatt,
                    ConnectPath::L2cap => PipeStep::SendOverL2cap,
                }
            },
            PipeEvent::SendsClosed | PipeEvent::FragmentsClosed => {
                self.stopped = true;
                PipeStep::Stop { timed_out: false }
            },
            PipeEvent::Fragment => {
                match self.path {
                    ConnectPath::Gatt => {
                        self.awaiting = Awaiting::FragmentTaken;
                        PipeStep::ReassembleFragment
                    },
                    ConnectPath::L2cap => {
                        let draining = match self.handed_over {
                            Some(since) => now.saturating_duration_since(since).nanos
                                < GATT_DRAIN_DEADLINE,
                            None => false,
                        };
                        if draining {
                            self.awaiting = Awaiting::LateFragmentTaken;
                            PipeStep::ReassembleLateFragment
                        } else {
                            PipeStep::DropFragment
                        }
                    },
                }
            },
            PipeEvent::Channel => {
                match self.path {
                    ConnectPath::L2cap => PipeStep::DropChannel,
                    ConnectPath::Gatt => {
                        self.path = ConnectPath::L2cap;
                        self.handed_over = Some(now);
                        PipeStep::HandOver
                    },
                }
            },
            PipeEvent::ChannelsClosed => {
                self.swap_open = false;
                PipeStep::Wait
            },
            PipeEvent::Taken => {
                self.awaiting = Awaiting::Nothing;
                PipeStep::Wait
            },
            PipeEvent::WorkerGone => {
                match self.awaiting {
                    Awaiting::LateFragmentTaken => {
                        self.awaiting = Awaiting::Nothing;
                        self.handed_over = None;
                        PipeStep::Wait
                    },
                    _ => {
                        self.stopped = true;
                        PipeStep::Stop { timed_out: false }
                    },
                }
            },
            PipeEvent::TimedOut => {
                self.stopped = true;
                PipeStep::Stop { timed_out: true }
            },
        }
    }
}

/// Once a link runs over L2CAP it stays there: no later event brings it back
/// to GATT, no later send goes over GATT, and it is not handed over again.
pub proof fn handed_over_links_stay_on_l2cap(s: Supervisor, event: PipeEvent, now: Instant)
    requires
        s.path is L2cap,
    ensures
        s.next(event, now).0.path is L2cap,
        s.next(event, now).1 !is SendOverGatt,
        s.next(event, now).1 !is HandOver,
{
}

/// A fragment that arrives within the drain window after the hand-over still
/// reaches the GATT worker.
pub proof fn late_fragments_are_reassembled(s: Supervisor, handed_over: Instant, now: Instant)
    requires
        !s.stopped,
        s.path is Gatt,
        handed_over.nanos <= now.nanos < handed_over.nanos + GATT_DRAIN_DEADLINE,
    ensures
        s.next(PipeEvent::Channel, handed_over).1 is HandOver,
        s.next(PipeEvent::Channel, handed_over).0.next(PipeEvent::Fragment, now).1
            is ReassembleLateFragment,
{
}

/// A timeout is reported at most once: it stops the pipe, and a pipe that has
/// stopped reports none.
pub proof fn timeouts_are_reported_once(
    s: Supervisor,
    event: PipeEvent,
    later: PipeEvent,
    t0: Instant,
    t1: Instant,
)
    requires
        s.next(event, t0).1 == (PipeStep::Stop { timed_out: true }),
    ensures
        s.next(event, t0).0.next(later, t1).1 == (PipeStep::Stop { timed_out: false }),
        s.next(event, t0).0.next(later, t1).0 == s.next(event, t0).0,
{
}

/// What the registry is told of a hand-over that timed out.
pub fn handover_timeout_command(device_id: &DeviceId) -> (command: PeerCommand)
    ensures
        command@ == (CommandView::L2capHandoverTimeout { device_id: device_id@ }),
{
    PeerCommand::L2capHandoverTimeout { device_id: device_id.clone() }
}

/// What the registry is told of a link that died.
pub fn stalled_command(device_id: &DeviceId) -> (command: PeerCommand)
    ensures
        command@ == (CommandView::Stalled { device_id: device_id@ }),
{
    PeerCommand::Stalled { device_id: device_id.clone() }
}

/// How a fragment goes out.
#[derive(Clone, Copy, PartialEq, Eq, Structural, Debug)]
pub enum FragmentWrite {
    /// Write the central-to-peripheral characteristic.
    WriteC2p,
    /// Notify the peripheral-to-central characteristic.
    NotifyP2c,
}

/// How a fragment goes out, given our role.
pub fn fragment_write(role: ConnectRole) -> (w: FragmentWrite)
    ensures
        w == match role {
            ConnectRole::Central => FragmentWrite::WriteC2p,
            ConnectRole::Peripheral => FragmentWrite::NotifyP2c,
        },
{
    match role {
        ConnectRole::Central => FragmentWrite::WriteC2p,
        ConnectRole::Peripheral => FragmentWrite::NotifyP2c,
    }
}

/// What happened to a GATT worker.
#[derive(Clone, Copy, PartialEq, Eq, Structural, Debug)]
pub enum GattEvent {
    /// A send came in.
    Send,
    /// A fragment came in.
    Fragment,
    /// A datagram was reassembled.
    Datagram,
    /// One of the three will not come any more.
    SourceClosed,
    /// The worker is asked to end.
    ShutDown,
    /// The task that sends fragments ended, because the link is dead or not.
    SendLoopEnded { link_dead: bool },
}

/// What a GATT worker has to do.
#[derive(Clone, Copy, PartialEq, Eq, Structural, Debug)]
pub enum GattStep {
    /// Queue the datagram for sending and wake its sender.
    Enqueue,
    /// Hand the fragment to reassembly.
    Reassemble,
    /// Note that the peer is alive, and hand the datagram up.
    Deliver,
    /// End.
    Stop {
        /// Tell the send task that the link is dead and wait for it.
        stop_send_loop: bool,
        /// Let the end count as wanted.
        mark_teardown: bool,
        /// Tell the registry that the link is dead.
        report_stalled: bool,
    },
}

pub open spec fn gatt_next(event: GattEvent) -> GattStep {
    match event {
        GattEvent::Send => GattStep::Enqueue,
        GattEvent::Fragment => GattStep::Reassemble,
        GattEvent::Datagram => GattStep::Deliver,
        GattEvent::SourceClosed => GattStep::Stop {
            stop_send_loop: true,
            mark_teardown: false,
            report_stalled: false,
        },
        GattEvent::ShutDown => GattStep::Stop {
            stop_send_loop: true,
            mark_teardown: true,
            report_stalled: false,
        },
        GattEvent::SendLoopEnded { link_dead } => GattStep::Stop {
            stop_send_loop: false,
            mark_teardown: false,
            report_stalled: link_dead,
        },
    }
}

/// What a GATT worker does after an event.
pub fn gatt_step(event: GattEvent) -> (step: GattStep)
    ensures
        step == gatt_next(event),
{
    match event {
        GattEvent::Send => GattStep::Enqueue,
        GattEvent::Fragment => GattStep::Reassemble,
        GattEvent::Datagram => GattStep::Deliver,
        GattEvent::SourceClosed => GattStep::Stop {
            stop_send_loop: true,
            mark_teardown: false,
            report_stalled: false,
        },
        GattEvent::ShutDown => GattStep::Stop {
            stop_send_loop: true,
            mark_teardown: true,
            report_stalled: false,
        },
        GattEvent::SendLoopEnded { link_dead } => GattStep::Stop {
            stop_send_loop: false,
            mark_teardown: false,
            report_stalled: link_dead,
        },
    }
}

/// A GATT worker reports a stalled link exactly when its send task found the
/// link dead; one that is asked to end reports nothing.
pub proof fn gatt_workers_report_dead_links_only(event: GattEvent)
    ensures
        (gatt_next(event) matches GattStep::Stop { report_stalled, .. } && report_stalled)
            <==> event == (GattEvent::SendLoopEnded { link_dead: true }),
{
}

/// What happened to an L2CAP worker.
#[derive(Clone, Copy, PartialEq, Eq, Structural, Debug)]
pub enum L2capEvent {
    /// A send came in.
    Send,
    /// No send will come in any more.
    SendsClosed,
    /// The send task took the datagram.
    Taken,
    /// The send task is gone.
    Refused,
    /// One of the tasks on the stream ended.
    StreamEnded,
}

/// What an L2CAP worker has to do.
#[derive(Clone, Copy, PartialEq, Eq, Structural, Debug)]
pub enum L2capStep {
    /// Hand the datagram to the send task.
    Write,
    /// Wake the sender and wait for the next event.
    WakeSender,
    /// End.
    Stop {
        /// Wake the sender first.
        wake_sender: bool,
        /// Tell the registry that the link is dead.
        report_stalled: bool,
    },
}

pub open spec fn l2cap_next(event: L2capEvent) -> L2capStep {
    match event {
        L2capEvent::Send => L2capStep::Write,
        L2capEvent::Taken => L2capStep::WakeSender,
        L2capEvent::SendsClosed => L2capStep::Stop { wake_sender: false, report_stalled: false },
        L2capEvent::Refused => L2capStep::Stop { wake_sender: true, report_stalled: true },
        L2capEvent::StreamEnded => L2capStep::Stop { wake_sender: false, report_stalled: true },
    }
}

/// What an L2CAP worker does after an event.
pub fn l2cap_step(event: L2capEvent) -> (step: L2capStep)
    ensures
        step == l2cap_next(event),
{
    match event {
        L2capEvent::Send => L2capStep::Write,
        L2capEvent::Taken => L2capStep::WakeSender,
        L2capEvent::SendsClosed => L2capStep::Stop { wake_sender: false, report_stalled: false },
        L2capEvent::Refused => L2capStep::Stop { wake_sender: true, report_stalled: true },
        L2capEvent::StreamEnded => L2capStep::Stop { wake_sender: false, report_stalled: true },
    }
}

/// The sender of every datagram that an L2CAP worker was handed is woken,
/// whether the datagram went out or not.
pub proof fn l2cap_senders_are_always_woken(event: L2capEvent)
    requires
        event is Taken || event is Refused,
    ensures
        l2cap_next(event) is WakeSender || l2cap_next(event) == (L2capStep::Stop {
            wake_sender: true,
            report_stalled: true,
        }),
{
}

/// Where a pipe stands that was started over the path and saw these events, each
/// at its time.
pub open spec fn pipe_after(path: ConnectPath, events: Seq<(PipeEvent, Instant)>) -> Supervisor
    decreases events.len(),
{
    if events.len() == 0 {
        Supervisor {
            path,
            handed_over: None,
            swap_open: true,
            awaiting: Awaiting::Nothing,
            stopped: false,
        }
    } else {
        pipe_after(path, events.drop_last()).next(events.last().0, events.last().1).0
    }
}

/// One of the events is of this sort.
pub open spec fn saw(events: Seq<(PipeEvent, Instant)>, event: PipeEvent) -> bool {
    exists|i: int| 0 <= i < events.len() && (#[trigger] events[i]).0 == event
}

proof fn lemma_saw(events: Seq<(PipeEvent, Instant)>, event: PipeEvent)
    requires
        events.len() > 0,
    ensures
        saw(events, event) <==> saw(events.drop_last(), event) || events.last().0 == event,
{
    let before = events.drop_last();
    if saw(before, event) {
        let i = choose|i: int| 0 <= i < before.len() && (#[trigger] before[i]).0 == event;
        assert(events[i].0 == event);
    }
    if saw(events, event) {
        let i = choose|i: int| 0 <= i < events.len() && (#[trigger] events[i]).0 == event;
        if i < before.len() {
            assert(before[i].0 == event);
        }
    }
    assert(events[events.len() - 1].0 == events.last().0);
}

/// The first channel came in at this time.
pub open spec fn first_channel_at(events: Seq<(PipeEvent, Instant)>, t: Instant) -> bool {
    exists|i: int|
        0 <= i < events.len() && (#[trigger] events[i]) == (PipeEvent::Channel, t) && !saw(
            events.take(i),
            PipeEvent::Channel,
        )
}

proof fn lemma_first_channel(events: Seq<(PipeEvent, Instant)>, t: Instant)
    requires
        events.len() > 0,
    ensures
        first_channel_at(events.drop_last(), t) ==> first_channel_at(events, t),
        events.last() == (PipeEvent::Channel, t) && !saw(events.drop_last(), PipeEvent::Channel)
            ==> first_channel_at(events, t),
{
    let before = events.drop_last();
    if first_channel_at(before, t) {
        let i = choose|i: int|
            0 <= i < before.len() && (#[trigger] before[i]) == (PipeEvent::Channel, t) && !saw(
                before.take(i),
                PipeEvent::Channel,
            );
        assert(events[i] == (PipeEvent::Channel, t));
        assert(events.take(i) =~= before.take(i));
    }
    if events.last() == (PipeEvent::Channel, t) && !saw(before, PipeEvent::Channel) {
        let i = events.len() - 1;
        assert(events[i] == (PipeEvent::Channel, t));
        assert(events.take(i) =~= before);
    }
}

/// How a pipe that runs came to stand where it does. It is over L2CAP exactly if
/// it was started there or a channel has come in; it waits for channels as long
/// as they can come; it was handed over when the first channel came in, or the
/// worker that was retired then is gone. No end of its sends or fragments and no
/// timeout has come: any of these would have stopped it.
pub proof fn pipes_stand_where_events_took_them(
    path: ConnectPath,
    events: Seq<(PipeEvent, Instant)>,
)
    requires
        !pipe_after(path, events).stopped,
    ensures
        ({
            let s = pipe_after(path, events);
            &&& s.path is L2cap <==> path is L2cap || saw(events, PipeEvent::Channel)
            &&& s.swap_open <==> !saw(events, PipeEvent::ChannelsClosed)
            &&& s.handed_over matches Some(t) ==> path is Gatt && first_channel_at(events, t)
            &&& path is Gatt && saw(events, PipeEvent::Channel) && !saw(
                events,
                PipeEvent::WorkerGone,
            ) ==> s.handed_over is Some
            &&& !saw(events, PipeEvent::SendsClosed)
            &&& !saw(events, PipeEvent::FragmentsClosed)
            &&& !saw(events, PipeEvent::TimedOut)
        }),
    decreases events.len(),
{
    if events.len() > 0 {
        pipes_stand_where_events_took_them(path, events.drop_last());
        lemma_saw(events, PipeEvent::Channel);
        lemma_saw(events, PipeEvent::ChannelsClosed);
        lemma_saw(events, PipeEvent::WorkerGone);
        lemma_saw(events, PipeEvent::SendsClosed);
        lemma_saw(events, PipeEvent::FragmentsClosed);
        lemma_saw(events, PipeEvent::TimedOut);
        lemma_first_channel(events, events.last().1);
        if pipe_after(path, events).handed_over is Some {
            lemma_first_channel(events, pipe_after(path, events).handed_over->0);
        }
    }
}

/// Every send is handed to the worker that serves the link, and nothing but the
/// worker's answer is waited for then.
pub proof fn sends_go_to_the_serving_worker(s: Supervisor, now: Instant)
    requires
        !s.stopped,
    ensures
        ({
            let (t, step) = s.next(PipeEvent::Send, now);
            &&& step is SendOverGatt <==> s.path is Gatt
            &&& step is SendOverL2cap <==> s.path is L2cap
            &&& t == (Supervisor { awaiting: Awaiting::SendTaken, ..s })
            &&& t.next(PipeEvent::Taken, now) == (
                Supervisor { awaiting: Awaiting::Nothing, ..s },
                PipeStep::Wait,
            )
            &&& t.next(PipeEvent::WorkerGone, now) == (
                Supervisor { stopped: true, ..t },
                PipeStep::Stop { timed_out: false },
            )
            &&& t.next(PipeEvent::TimedOut, now) == (
                Supervisor { stopped: true, ..t },
                PipeStep::Stop { timed_out: true },
            )
        }),
{
}

/// A fragment goes to the GATT worker: to the one that serves the link, or to
/// the one that was retired less than three seconds ago. Otherwise there is
/// none, and it is dropped. If the serving worker turns out to be gone the pipe
/// stops; if it was the retired one, the pipe goes on without.
pub proof fn fragments_go_to_a_gatt_worker(s: Supervisor, now: Instant)
    requires
        !s.stopped,
    ensures
        ({
            let (t, step) = s.next(PipeEvent::Fragment, now);
            let late = s.path is L2cap && (s.handed_over matches Some(since) && now.nanos
                < since.nanos + 3_000_000_000);
            &&& step is ReassembleFragment <==> s.path is Gatt
            &&& step is ReassembleLateFragment <==> late
            &&& step is DropFragment <==> s.path is L2cap && !late
            &&& t == (Supervisor { awaiting: t.awaiting, ..s })
            &&& step is DropFragment ==> t == s
            &&& step !is DropFragment ==> t.next(PipeEvent::Taken, now) == (
                Supervisor { awaiting: Awaiting::Nothing, ..s },
                PipeStep::Wait,
            )
            &&& step is ReassembleFragment ==> t.next(PipeEvent::WorkerGone, now) == (
                Supervisor { stopped: true, ..t },
                PipeStep::Stop { timed_out: false },
            )
            &&& step is ReassembleLateFragment ==> t.next(PipeEvent::WorkerGone, now) == (
                Supervisor { awaiting: Awaiting::Nothing, handed_over: None, ..s },
                PipeStep::Wait,
            )
        }),
{
}

/// A channel takes over a link that runs over GATT, from then on; a second one
/// is dropped. When the source of channels ends, the link stays as it is. When
/// the source of sends or of fragments ends, the pipe stops.
pub proof fn channels_take_over_once(s: Supervisor, now: Instant)
    requires
        !s.stopped,
    ensures
        s.path is Gatt ==> s.next(PipeEvent::Channel, now) == (
            Supervisor { path: ConnectPath::L2cap, handed_over: Some(now), ..s },
            PipeStep::HandOver,
        ),
        s.path is L2cap ==> s.next(PipeEvent::Channel, now) == (s, PipeStep::DropChannel),
        s.next(PipeEvent::ChannelsClosed, now) == (
            Supervisor { swap_open: false, ..s },
            PipeStep::Wait,
        ),
        s.next(PipeEvent::SendsClosed, now) == (
            Supervisor { stopped: true, ..s },
            PipeStep::Stop { timed_out: false },
        ),
        s.next(PipeEvent::FragmentsClosed, now) == (
            Supervisor { stopped: true, ..s },
            PipeStep::Stop { timed_out: false },
        ),
{
}

/// A pipe that has stopped stays stopped, and goes on to say so.
pub proof fn stopped_pipes_stay_stopped(s: Supervisor, event: PipeEvent, now: Instant)
    requires
        s.stopped,
    ensures
        s.next(event, now) == (s, PipeStep::Stop { timed_out: false }),
{
}

/// A GATT worker queues what is sent, reassembles what comes in and delivers
/// what is whole; anything else ends it. It stops its send task unless that has
/// ended by itself, and its end counts as wanted exactly where it was asked to
/// end.
pub proof fn gatt_workers_serve_until_they_end(event: GattEvent)
    ensures
        gatt_next(event) is Enqueue <==> event is Send,
        gatt_next(event) is Reassemble <==> event is Fragment,
        gatt_next(event) is Deliver <==> event is Datagram,
        gatt_next(event) matches GattStep::Stop { stop_send_loop, mark_teardown, .. } ==> (
        stop_send_loop <==> event !is SendLoopEnded) && (mark_teardown <==> event is ShutDown),
{
}

/// An L2CAP worker writes what is sent and wakes the sender once that is taken;
/// anything else ends it. That counts as a dead link unless the sends ended, and
/// a sender that waits is woken before.
pub proof fn l2cap_workers_serve_until_they_end(event: L2capEvent)
    ensures
        l2cap_next(event) is Write <==> event is Send,
        l2cap_next(event) is WakeSender <==> event is Taken,
        l2cap_next(event) matches L2capStep::Stop { wake_sender, report_stalled } ==> (
        report_stalled <==> event !is SendsClosed) && (wake_sender <==> event is Refused),
{
}

} // verus!
