//! The transport as its user sees it: policy, peers, counters and sending.

use tokio::sync::mpsc::Sender;

use vstd::prelude::*;

use crate::channel::{
    inbox_accepted, inbox_answer, inbox_offered, try_send_command, CommandRefused, TrySend,
};
use crate::error::{IoError, IoErrorView};
use crate::peer::{
    CommandView, ConnectPath, DeviceId, EndpointId, ErrorKind, PeerCommand, PendingSendView, WakerId,
};
use crate::registry::{summary_in, PeerStateSummary, PhaseKind, SnapshotMaps};
use crate::routing::{
    parse_token_addr, token_of, CustomAddr, CustomAddrView, BLE_TRANSPORT_ID, TOKEN_LEN,
};
use crate::routing_v2::{Routing, RoutingView, StableConnId};

verus! {

/// Whether links move from GATT to L2CAP where they can.
#[derive(Clone, Copy, PartialEq, Eq, Structural, Debug)]
pub enum L2capPolicy {
    Disabled,
    PreferL2cap,
}

impl Default for L2capPolicy {
    fn default() -> (policy: Self)
        ensures
            policy is PreferL2cap,
    {
        L2capPolicy::PreferL2cap
    }
}

/// What the transport has counted.
#[derive(Clone, Copy, PartialEq, Eq, Structural, Debug)]
pub struct BleMetricsSnapshot {
    pub tx_bytes: u64,
    pub rx_bytes: u64,
    pub retransmits: u64,
    pub truncations: u64,
    /// How many datagrams of length zero were dropped.
    pub empty_frames: u64,
}

/// The phase of a peer, for the user.
#[derive(Clone, Copy, PartialEq, Eq, Structural, Debug)]
pub enum BlePeerPhase {
    Unknown,
    Discovered,
    PendingDial,
    Connecting,
    Handshaking,
    Connected,
    Draining,
    Reconnecting,
    Dead,
    Restoring,
}

impl BlePeerPhase {
    pub open spec fn of(kind: PhaseKind) -> BlePeerPhase {
        match kind {
            PhaseKind::Unknown => BlePeerPhase::Unknown,
            PhaseKind::Discovered => BlePeerPhase::Discovered,
            PhaseKind::PendingDial => BlePeerPhase::PendingDial,
            PhaseKind::Connecting => BlePeerPhase::Connecting,
            PhaseKind::Handshaking => BlePeerPhase::Handshaking,
            PhaseKind::Connected => BlePeerPhase::Connected,
            PhaseKind::Draining => BlePeerPhase::Draining,
            PhaseKind::Reconnecting => BlePeerPhase::Reconnecting,
            PhaseKind::Dead => BlePeerPhase::Dead,
            PhaseKind::Restoring => BlePeerPhase::Restoring,
        }
    }
}

impl From<PhaseKind> for BlePeerPhase {
    fn from(kind: PhaseKind) -> (phase: Self) {
        match kind {
            PhaseKind::Unknown => BlePeerPhase::Unknown,
            PhaseKind::Discovered => BlePeerPhase::Discovered,
            PhaseKind::PendingDial => BlePeerPhase::PendingDial,
            PhaseKind::Connecting => BlePeerPhase::Connecting,
            PhaseKind::Handshaking => BlePeerPhase::Handshaking,
            PhaseKind::Connected => BlePeerPhase::Connected,
            PhaseKind::Draining => BlePeerPhase::Draining,
            PhaseKind::Reconnecting => BlePeerPhase::Reconnecting,
            PhaseKind::Dead => BlePeerPhase::Dead,
            PhaseKind::Restoring => BlePeerPhase::Restoring,
        }
    }
}

impl vstd::std_specs::convert::FromSpecImpl<PhaseKind> for BlePeerPhase {
    open spec fn obeys_from_spec() -> bool {
        true
    }

    open spec fn from_spec(kind: PhaseKind) -> Self {
        BlePeerPhase::of(kind)
    }
}

/// A peer, for the user.
#[derive(Debug)]
pub struct BlePeerInfo {
    pub device_id: DeviceId,
    pub phase: BlePeerPhase,
    pub consecutive_failures: u32,
    pub connect_path: Option<ConnectPath>,
    pub verified_endpoint: Option<EndpointId>,
}

#[verifier::ext_equal]
pub struct PeerInfoView {
    pub device_id: Seq<char>,
    pub phase: BlePeerPhase,
    pub consecutive_failures: u32,
    pub connect_path: Option<ConnectPath>,
    pub verified_endpoint: Option<EndpointId>,
}

impl View for BlePeerInfo {
    type V = PeerInfoView;

    open spec fn view(&self) -> PeerInfoView {
        PeerInfoView {
            device_id: self.device_id@,
            phase: self.phase,
            consecutive_failures: self.consecutive_failures,
            connect_path: self.connect_path,
            verified_endpoint: self.verified_endpoint,
        }
    }
}

/// A peer that the user can act on: neither blank nor dead.
pub open spec fn is_shown(summary: PeerStateSummary) -> bool {
    summary.phase_kind !is Unknown && summary.phase_kind !is Dead
}

pub open spec fn shown_as(entry: (Seq<char>, PeerStateSummary)) -> PeerInfoView {
    PeerInfoView {
        device_id: entry.0,
        phase: BlePeerPhase::of(entry.1.phase_kind),
        consecutive_failures: entry.1.consecutive_failures,
        connect_path: entry.1.connect_path,
        verified_endpoint: entry.1.verified_endpoint,
    }
}

/// The peers that the user is shown, in order.
pub open spec fn shown(snapshot: Seq<(Seq<char>, PeerStateSummary)>) -> Seq<PeerInfoView>
    decreases snapshot.len(),
{
    if snapshot.len() == 0 {
        Seq::empty()
    } else {
        let rest = shown(snapshot.drop_last());
        if is_shown(snapshot.last().1) {
            rest.push(shown_as(snapshot.last()))
        } else {
            rest
        }
    }
}

/// What is shown of a peer of the snapshot that the user can act on.
pub open spec fn comes_from(
    snapshot: Seq<(Seq<char>, PeerStateSummary)>,
    info: PeerInfoView,
) -> bool {
    exists|i: int|
        0 <= i < snapshot.len() && is_shown((#[trigger] snapshot[i]).1) && shown_as(snapshot[i])
            == info
}

/// The peers shown are those of the snapshot that the user can act on: every
/// such peer, and nothing else.
pub proof fn shown_peers_are_those_to_act_on(snapshot: Seq<(Seq<char>, PeerStateSummary)>)
    ensures
        forall|i: int|
            0 <= i < snapshot.len() && is_shown((#[trigger] snapshot[i]).1) ==> shown(
                snapshot,
            ).contains(shown_as(snapshot[i])),
        forall|k: int|
            0 <= k < shown(snapshot).len() ==> comes_from(
                snapshot,
                #[trigger] shown(snapshot)[k],
            ),
    decreases snapshot.len(),
{
    if snapshot.len() > 0 {
        let rest = snapshot.drop_last();
        let last = snapshot.len() - 1;
        shown_peers_are_those_to_act_on(rest);
        assert forall|i: int|
            0 <= i < snapshot.len() && is_shown((#[trigger] snapshot[i]).1) implies shown(
            snapshot,
        ).contains(shown_as(snapshot[i])) by {
            if i == last {
                assert(shown(snapshot).last() == shown_as(snapshot[i]));
            } else {
                assert(rest[i] == snapshot[i]);
                let k = choose|k: int|
                    0 <= k < shown(rest).len() && shown(rest)[k] == shown_as(rest[i]);
                assert(shown(snapshot)[k] == shown_as(snapshot[i]));
            }
        }
        assert forall|k: int| 0 <= k < shown(snapshot).len() implies comes_from(
            snapshot,
            #[trigger] shown(snapshot)[k],
        ) by {
            if k < shown(rest).len() {
                assert(shown(snapshot)[k] == shown(rest)[k]);
                assert(comes_from(rest, shown(rest)[k]));
                let i = choose|i: int|
                    0 <= i < rest.len() && is_shown((#[trigger] rest[i]).1) && shown_as(rest[i])
                        == shown(rest)[k];
                assert(snapshot[i] == rest[i]);
            } else {
                assert(shown_as(snapshot[last]) == shown(snapshot)[k]);
            }
        }
    }
}

/// No device is shown twice.
pub proof fn peers_are_shown_once(snapshot: Seq<(Seq<char>, PeerStateSummary)>)
    requires
        forall|i: int, j: int|
            0 <= i < j < snapshot.len() ==> (#[trigger] snapshot[i]).0 != (
            #[trigger] snapshot[j]).0,
    ensures
        forall|i: int, j: int|
            0 <= i < j < shown(snapshot).len() ==> (#[trigger] shown(snapshot)[i]).device_id != (
            #[trigger] shown(snapshot)[j]).device_id,
    decreases snapshot.len(),
{
    if snapshot.len() > 0 {
        let rest = snapshot.drop_last();
        let last = snapshot.len() - 1;
        assert forall|i: int, j: int| 0 <= i < j < rest.len() implies (#[trigger] rest[i]).0 != (
        #[trigger] rest[j]).0 by {
            assert(snapshot[i].0 != snapshot[j].0);
        }
        peers_are_shown_once(rest);
        shown_peers_are_those_to_act_on(rest);
        assert forall|i: int, j: int| 0 <= i < j < shown(snapshot).len() implies (
        #[trigger] shown(snapshot)[i]).device_id != (#[trigger] shown(snapshot)[j]).device_id by {
            assert(shown(snapshot)[i] == shown(rest)[i]);
            if j < shown(rest).len() {
                assert(shown(rest)[i].device_id != shown(rest)[j].device_id);
            } else {
                assert(comes_from(rest, shown(rest)[i]));
                let m = choose|m: int|
                    0 <= m < rest.len() && is_shown((#[trigger] rest[m]).1) && shown_as(rest[m])
                        == shown(rest)[i];
                assert(snapshot[m].0 != snapshot[last].0);
            }
        }
    }
}

pub open spec fn infos_view(infos: Seq<BlePeerInfo>) -> Seq<PeerInfoView> {
    Seq::new(infos.len(), |i: int| infos[i]@)
}

/// The peers that the user can act on. Entries that are blank, and those kept
/// only to be recognised as dead, are left out.
pub fn snapshot_peers(snapshot: &SnapshotMaps) -> (infos: Vec<BlePeerInfo>)
    ensures
        infos_view(infos@) == shown(snapshot@),
        forall|i: int|
            0 <= i < snapshot@.len() && is_shown((#[trigger] snapshot@[i]).1) ==> infos_view(
                infos@,
            ).contains(shown_as(snapshot@[i])),
        forall|k: int|
            0 <= k < infos@.len() ==> comes_from(snapshot@, (#[trigger] infos@[k])@),
{
    let mut infos: Vec<BlePeerInfo> = Vec::new();
    let n: usize = snapshot.len();
    let mut i: usize = 0;
    assert(infos_view(infos@) =~= shown(snapshot@.take(0)));
    while i < n
        invariant
            i <= n,
            n == snapshot@.len(),
            infos_view(infos@) == shown(snapshot@.take(i as int)),
        decreases n - i,
    {
        let (device_id, state) = snapshot.at(i);
        let ghost before = infos_view(infos@);
        assert(snapshot@.take(i + 1).drop_last() =~= snapshot@.take(i as int));
        assert(snapshot@.take(i + 1).last() == snapshot@[i as int]);
        if !matches!(state.phase_kind, PhaseKind::Unknown | PhaseKind::Dead) {
            let info = BlePeerInfo {
                device_id: device_id.clone(),
                phase: BlePeerPhase::from(state.phase_kind),
                consecutive_failures: state.consecutive_failures,
                connect_path: state.connect_path,
                verified_endpoint: state.verified_endpoint,
            };
            infos.push(info);
            assert(infos_view(infos@) =~= before.push(info@));
        }
        i = i + 1;
    }
    assert(snapshot@.take(i as int) =~= snapshot@);
    proof {
        shown_peers_are_those_to_act_on(snapshot@);
        assert forall|k: int| 0 <= k < infos@.len() implies comes_from(
            snapshot@,
            (#[trigger] infos@[k])@,
        ) by {
            assert(shown(snapshot@)[k] == infos_view(infos@)[k]);
        }
    }
    infos
}

/// Whether an address can be sent to: one of this transport, with a token.
pub fn is_valid_send_addr(addr: &CustomAddr) -> (r: bool)
    ensures
        r == (token_of(addr@) is Ok),
{
    addr.id == BLE_TRANSPORT_ID && addr.data.len() == TOKEN_LEN
}

/// The device behind an address: that of the pipe with this id, or, for an id
/// that is only reserved, the one last seen nearby under the reserved prefix.
pub open spec fn send_target(r: RoutingView, addr: CustomAddrView) -> Result<
    Seq<char>,
    IoErrorView,
> {
    match token_of(addr) {
        Err(e) => Err(e),
        Ok(token) => {
            let id = StableConnId { raw: token };
            match r.device_of_pipe(id) {
                Some(device) => Ok(device),
                None => match r.reservation_with(id) {
                    Some(reservation) => if r.scan_hint.contains_key(reservation.prefix@) {
                        Ok(r.scan_hint[reservation.prefix@])
                    } else {
                        Err(
                            IoErrorView {
                                kind: ErrorKind::NotFound,
                                message: "BLE peer reservation has no live scan hint"@,
                            },
                        )
                    },
                    None => Err(
                        IoErrorView {
                            kind: ErrorKind::NotFound,
                            message: "unknown BLE stable-conn token"@,
                        },
                    ),
                },
            }
        },
    }
}

/// The device behind an address.
pub fn resolve_send_target(routing: &Routing, dst: &CustomAddr) -> (r: Result<DeviceId, IoError>)
    requires
        routing.wf(),
    ensures
        match r {
            Ok(device) => send_target(routing@, dst@) == Ok::<Seq<char>, IoErrorView>(device@),
            Err(e) => send_target(routing@, dst@) == Err::<Seq<char>, IoErrorView>(e@),
        },
{
    let token = match parse_token_addr(dst) {
        Ok(token) => token,
        Err(e) => {
            return Err(e);
        },
    };
    let id = StableConnId::from_raw(token);
    match routing.device_for_pipe(id) {
        Some(device) => Ok(device),
        None => {
            match routing.reservation_target(id) {
                Some((_, prefix)) => {
                    match routing.scan_hint_for_prefix(&prefix) {
                        Some(device) => Ok(device),
                        None => Err(
                            IoError::new(
                                ErrorKind::NotFound,
                                "BLE peer reservation has no live scan hint",
                            ),
                        ),
                    }
                },
                None => Err(IoError::new(ErrorKind::NotFound, "unknown BLE stable-conn token")),
            }
        },
    }
}

/// What the user of the sender is told.
#[derive(Debug)]
pub enum SendPoll {
    Ready(Result<(), IoError>),
    Pending,
}

#[verifier::ext_equal]
pub enum SendPollView {
    Ready(Result<(), IoErrorView>),
    Pending,
}

impl View for SendPoll {
    type V = SendPollView;

    open spec fn view(&self) -> SendPollView {
        match *self {
            SendPoll::Ready(Ok(())) => SendPollView::Ready(Ok(())),
            SendPoll::Ready(Err(e)) => SendPollView::Ready(Err(e@)),
            SendPoll::Pending => SendPollView::Pending,
        }
    }
}

/// What the user is told after the inbox has given its last answer.
pub open spec fn verdict(answer: TrySend) -> SendPollView {
    match answer {
        TrySend::Accepted => SendPollView::Ready(Ok(())),
        TrySend::Full => SendPollView::Pending,
        TrySend::Closed => SendPollView::Ready(
            Err(IoErrorView { kind: ErrorKind::BrokenPipe, message: "transport shut down"@ }),
        ),
    }
}

/// What the user is told after the inbox has given its last answer.
pub fn send_verdict(answer: TrySend) -> (poll: SendPoll)
    ensures
        poll@ == verdict(answer),
{
    match answer {
        TrySend::Accepted => SendPoll::Ready(Ok(())),
        TrySend::Full => SendPoll::Pending,
        TrySend::Closed => SendPoll::Ready(
            Err(IoError::new(ErrorKind::BrokenPipe, "transport shut down")),
        ),
    }
}

/// Hands datagrams to the registry.
#[derive(Debug)]
pub struct BleSender {
    inbox: Sender<PeerCommand>,
    /// How many bytes were handed over. The count wraps around.
    tx_bytes: u64,
    /// The tasks that wait for room in the inbox.
    parked: Vec<WakerId>,
}

#[verifier::ext_equal]
pub struct SenderView {
    /// The commands that the inbox took.
    pub inbox: Seq<CommandView>,
    /// The commands that it was offered, with its answers.
    pub offered: Seq<(CommandView, TrySend)>,
    pub tx_bytes: u64,
    pub parked: Seq<WakerId>,
}

impl View for BleSender {
    type V = SenderView;

    closed spec fn view(&self) -> SenderView {
        SenderView {
            inbox: inbox_accepted(self.inbox),
            offered: inbox_offered(self.inbox),
            tx_bytes: self.tx_bytes,
            parked: self.parked@,
        }
    }
}

impl SenderView {
    /// The inbox was offered a command that carries `len` bytes and gave this
    /// answer.
    pub open spec fn asked(self, command: CommandView, len: nat, answer: TrySend) -> SenderView {
        let asked = SenderView { offered: self.offered.push((command, answer)), ..self };
        if answer is Accepted {
            SenderView {
                inbox: self.inbox.push(command),
                tx_bytes: ((self.tx_bytes + len) % 0x1_0000_0000_0000_0000) as u64,
                ..asked
            }
        } else {
            asked
        }
    }

    /// What an attempt to send does, given how the inbox answers. If it is
    /// full the sender is parked before the inbox is asked once more, so that
    /// room made in between is not missed.
    pub open spec fn polled(
        self,
        target: Result<Seq<char>, IoErrorView>,
        tx_gen: u64,
        contents: Seq<u8>,
        waker: WakerId,
        first: TrySend,
        second: TrySend,
    ) -> (SenderView, SendPollView) {
        match target {
            Err(e) => (self, SendPollView::Ready(Err(e))),
            Ok(device_id) => {
                let command = CommandView::SendDatagram {
                    device_id,
                    send: PendingSendView { tx_gen, datagram: contents, waker },
                };
                let once = self.asked(command, contents.len(), first);
                if first is Full {
                    let parked = SenderView { parked: once.parked.push(waker), ..once };
                    (parked.asked(command, contents.len(), second), verdict(second))
                } else {
                    (once, verdict(first))
                }
            },
        }
    }
}

/// The transmit generation under which a device is sent to: that of the last
/// snapshot, or zero for a device that is not in it.
pub open spec fn generation(snapshot: Seq<(Seq<char>, PeerStateSummary)>, id: Seq<char>) -> u64 {
    match summary_in(snapshot, id) {
        Some(summary) => summary.tx_gen,
        None => 0,
    }
}

impl BleSender {
    pub fn new(inbox: Sender<PeerCommand>) -> (s: Self)
        ensures
            s@ == (SenderView {
                inbox: inbox_accepted(inbox),
                offered: inbox_offered(inbox),
                tx_bytes: 0,
                parked: Seq::empty(),
            }),
    {
        BleSender { inbox, tx_bytes: 0, parked: Vec::new() }
    }

    /// How many bytes were handed over.
    pub fn tx_bytes(&self) -> (n: u64)
        ensures
            n == self@.tx_bytes,
    {
        self.tx_bytes
    }

    fn offer(&mut self, command: PeerCommand, len: usize) -> (r: Result<(), CommandRefused>)
        ensures
            final(self)@ == old(self)@.asked(command@, len as nat, inbox_answer(r)),
            r matches Err(CommandRefused::Full(back)) ==> back@ == command@,
            r matches Err(CommandRefused::Closed(back)) ==> back@ == command@,
    {
        let r = try_send_command(&mut self.inbox, command);
        if let Ok(()) = &r {
            self.tx_bytes = self.tx_bytes.wrapping_add(len as u64);
        }
        r
    }

    /// Tries to send a datagram.
    pub fn poll_send(
        &mut self,
        routing: &Routing,
        snapshot: &SnapshotMaps,
        dst: &CustomAddr,
        contents: &[u8],
        waker: WakerId,
    ) -> (poll: SendPoll)
        requires
            routing.wf(),
            snapshot.wf(),
        ensures
            exists|first: TrySend, second: TrySend|
                (final(self)@, poll@) == #[trigger] old(self)@.polled(
                    send_target(routing@, dst@),
                    generation(snapshot@, send_target(routing@, dst@)->Ok_0),
                    contents@,
                    waker,
                    first,
                    second,
                ),
    {
        let ghost target = send_target(routing@, dst@);
        let device_id = match resolve_send_target(routing, dst) {
            Ok(device_id) => device_id,
            Err(e) => {
                proof {
                    assert((self@, SendPollView::Ready(Err(e@))) == old(self)@.polled(
                        target,
                        generation(snapshot@, target->Ok_0),
                        contents@,
                        waker,
                        TrySend::Full,
                        TrySend::Full,
                    ));
                }
                return SendPoll::Ready(Err(e));
            },
        };
        let tx_gen: u64 = match snapshot.get(&device_id) {
            Some(summary) => summary.tx_gen,
            None => 0,
        };
        let len: usize = contents.len();
        let mut datagram: Vec<u8> = Vec::new();
        datagram.extend_from_slice(contents);
        assert(datagram@ =~= contents@);
        let command = PeerCommand::SendDatagram { device_id, tx_gen, datagram, waker };
        let ghost mut first = TrySend::Full;
        let ghost mut second = TrySend::Full;
        let poll = match self.offer(command, len) {
            Ok(()) => {
                proof {
                    first = TrySend::Accepted;
                }
                send_verdict(TrySend::Accepted)
            },
            Err(CommandRefused::Closed(_)) => {
                proof {
                    first = TrySend::Closed;
                }
                send_verdict(TrySend::Closed)
            },
            Err(CommandRefused::Full(command)) => {
                self.parked.push(waker);
                match self.offer(command, len) {
                    Ok(()) => {
                        proof {
                            second = TrySend::Accepted;
                        }
                        send_verdict(TrySend::Accepted)
                    },
                    Err(CommandRefused::Full(_)) => send_verdict(TrySend::Full),
                    Err(CommandRefused::Closed(_)) => {
                        proof {
                            second = TrySend::Closed;
                        }
                        send_verdict(TrySend::Closed)
                    },
                }
            },
        };
        proof {
            assert((self@, poll@) == old(self)@.polled(
                target,
                generation(snapshot@, target->Ok_0),
                contents@,
                waker,
                first,
                second,
            ));
        }
        poll
    }

    /// The tasks that wait for room in the inbox, all of them, to be woken now
    /// that the registry has taken a command out.
    pub fn take_parked(&mut self) -> (parked: Vec<WakerId>)
        ensures
            parked@ == old(self)@.parked,
            final(self)@ == (SenderView { parked: Seq::empty(), ..old(self)@ }),
    {
        let mut parked: Vec<WakerId> = Vec::new();
        std::mem::swap(&mut parked, &mut self.parked);
        parked
    }
}

/// A sender that is told to wait is parked, so that it is woken when the
/// registry makes room.
pub proof fn pending_senders_are_parked(
    s: SenderView,
    target: Result<Seq<char>, IoErrorView>,
    tx_gen: u64,
    contents: Seq<u8>,
    waker: WakerId,
    first: TrySend,
    second: TrySend,
)
    requires
        s.polled(target, tx_gen, contents, waker, first, second).1 is Pending,
    ensures
        s.polled(target, tx_gen, contents, waker, first, second).0.parked == s.parked.push(waker),
        s.polled(target, tx_gen, contents, waker, first, second).0.inbox == s.inbox,
{
}

/// A datagram for a known device is offered to the inbox, once or, if the inbox
/// was full, twice, and taken at most once. If the inbox takes it the send
/// succeeds and its bytes are counted; only then is either so.
pub proof fn datagrams_are_offered_until_taken(
    s: SenderView,
    device_id: Seq<char>,
    tx_gen: u64,
    contents: Seq<u8>,
    waker: WakerId,
    first: TrySend,
    second: TrySend,
)
    ensures
        ({
            let target = Ok::<Seq<char>, IoErrorView>(device_id);
            let (after, poll) = s.polled(target, tx_gen, contents, waker, first, second);
            let command = CommandView::SendDatagram {
                device_id,
                send: PendingSendView { tx_gen, datagram: contents, waker },
            };
            let last = if first is Full {
                second
            } else {
                first
            };
            &&& after.offered == s.offered + if first is Full {
                seq![(command, first), (command, second)]
            } else {
                seq![(command, first)]
            }
            &&& last is Accepted <==> poll == SendPollView::Ready(Ok(()))
            &&& after.inbox == if last is Accepted {
                s.inbox.push(command)
            } else {
                s.inbox
            }
            &&& after.tx_bytes == if last is Accepted {
                ((s.tx_bytes + contents.len()) % 0x1_0000_0000_0000_0000) as u64
            } else {
                s.tx_bytes
            }
            &&& last is Closed <==> (poll is Ready && poll->0 is Err)
            &&& last is Full <==> poll is Pending
        }),
{
    let target = Ok::<Seq<char>, IoErrorView>(device_id);
    let after = s.polled(target, tx_gen, contents, waker, first, second).0;
    let command = CommandView::SendDatagram {
        device_id,
        send: PendingSendView { tx_gen, datagram: contents, waker },
    };
    if first is Full {
        assert(after.offered =~= s.offered + seq![(command, first), (command, second)]);
    } else {
        assert(after.offered =~= s.offered + seq![(command, first)]);
    }
}

/// What the user is shown of a peer: its device, its phase under the same name,
/// how often it failed in a row, its path and its key. Only blank and dead peers
/// are left out; the others come in the order of the snapshot.
pub proof fn peers_are_shown_as_they_stand(
    snapshot: Seq<(Seq<char>, PeerStateSummary)>,
    entry: (Seq<char>, PeerStateSummary),
)
    ensures
        ({
            let kind = entry.1.phase_kind;
            let info = shown_as(entry);
            &&& is_shown(entry.1) <==> !(kind is Unknown || kind is Dead)
            &&& info.device_id == entry.0
            &&& info.consecutive_failures == entry.1.consecutive_failures
            &&& info.connect_path == entry.1.connect_path
            &&& info.verified_endpoint == entry.1.verified_endpoint
            &&& info.phase is Unknown <==> kind is Unknown
            &&& info.phase is Discovered <==> kind is Discovered
            &&& info.phase is PendingDial <==> kind is PendingDial
            &&& info.phase is Connecting <==> kind is Connecting
            &&& info.phase is Handshaking <==> kind is Handshaking
            &&& info.phase is Connected <==> kind is Connected
            &&& info.phase is Draining <==> kind is Draining
            &&& info.phase is Reconnecting <==> kind is Reconnecting
            &&& info.phase is Dead <==> kind is Dead
            &&& info.phase is Restoring <==> kind is Restoring
            &&& shown(seq![]) == Seq::<PeerInfoView>::empty()
            &&& shown(snapshot.push(entry)) == shown(snapshot) + if kind is Unknown || kind is Dead {
                seq![]
            } else {
                seq![info]
            }
        }),
{
    assert(snapshot.push(entry).drop_last() =~= snapshot);
    assert(shown(snapshot.push(entry)) =~= shown(snapshot) + if entry.1.phase_kind is Unknown
        || entry.1.phase_kind is Dead {
        seq![]
    } else {
        seq![shown_as(entry)]
    });
}

/// A datagram without a device is refused for the reason why there is none, and
/// nothing happens. One that the inbox refuses because the registry is gone fails
/// as a broken pipe. A sender is parked exactly where the inbox was full at
/// first.
pub proof fn sends_fail_for_their_reason(
    s: SenderView,
    target: Result<Seq<char>, IoErrorView>,
    tx_gen: u64,
    contents: Seq<u8>,
    waker: WakerId,
    first: TrySend,
    second: TrySend,
)
    ensures
        ({
            let (after, poll) = s.polled(target, tx_gen, contents, waker, first, second);
            let last = if first is Full {
                second
            } else {
                first
            };
            match target {
                Err(e) => after == s && poll == SendPollView::Ready(Err(e)),
                Ok(_) => {
                    &&& after.parked == s.parked + if first is Full {
                        seq![waker]
                    } else {
                        seq![]
                    }
                    &&& last is Closed ==> poll == SendPollView::Ready(
                        Err(
                            IoErrorView {
                                kind: ErrorKind::BrokenPipe,
                                message: "transport shut down"@,
                            },
                        ),
                    )
                },
            }
        }),
{
    let after = s.polled(target, tx_gen, contents, waker, first, second).0;
    if target is Ok {
        assert(after.parked =~= s.parked + if first is Full {
            seq![waker]
        } else {
            seq![]
        });
    }
}

/// A device is sent to in the generation that the snapshot holds for it, or in
/// generation zero if it holds none.
pub proof fn sends_carry_the_generation_of_the_snapshot(
    snapshot: Seq<(Seq<char>, PeerStateSummary)>,
    id: Seq<char>,
    i: int,
)
    requires
        forall|a: int, b: int|
            0 <= a < b < snapshot.len() ==> (#[trigger] snapshot[a]).0 != (
            #[trigger] snapshot[b]).0,
    ensures
        0 <= i < snapshot.len() && snapshot[i].0 == id ==> generation(snapshot, id)
            == snapshot[i].1.tx_gen,
        (forall|a: int| 0 <= a < snapshot.len() ==> (#[trigger] snapshot[a]).0 != id)
            ==> generation(snapshot, id) == 0,
{
    if exists|a: int| 0 <= a < snapshot.len() && (#[trigger] snapshot[a]).0 == id {
        let a = choose|a: int| 0 <= a < snapshot.len() && (#[trigger] snapshot[a]).0 == id;
        if 0 <= i < snapshot.len() && snapshot[i].0 == id {
            if i < a {
                assert(snapshot[i].0 != snapshot[a].0);
            } else if a < i {
                assert(snapshot[a].0 != snapshot[i].0);
            }
        }
    }
}

} // verus!
