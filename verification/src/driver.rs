//! What the driver does for an action of the registry, and what it reports back.
//!
//! [`Driver::execute`] decides; the caller performs the I/O that the returned
//! [`DriverEffect`] names and turns its result into a command with one of the
//! functions below.

use vstd::prelude::*;
use vstd::slice::slice_subrange;
use vstd::string::StringExecFns;

use crate::bytes::{le16_value, u16_of};
use crate::channel::PipeHandles;
use crate::gatt::PROTOCOL_VERSION;
use crate::peer::{
    actions_view, ActionView, ChannelHandle, CommandView, ConnectPath, ConnectRole, DeviceId, KeyPrefix,
    L2capChannel, PeerAction, PeerCommand, PeerSnapshot, SnapshotView, SwapSender, WakerId,
};
use crate::routing::{TransportRouting, TransportRoutingView};
use crate::routing_v2::{
    evicting_is_idempotent, has_pipe, ids_are_fresh, lemma_other_pipe, pipe_place,
    registering_and_evicting_balance, without_pipe, Direction, Routing, RoutingView, StableConnId,
};
use crate::table::DeviceTable;
use crate::text::{strip, stripped};
use crate::time::Instant;

verus! {

/// How many sends a pipe's outbound channel holds.
pub const OUTBOUND_CAPACITY: usize = 32;

/// How many fragments a pipe's inbound channel holds.
pub const INBOUND_CAPACITY: usize = 64;

/// How many L2CAP channels wait to take a pipe over.
pub const SWAP_CAPACITY: usize = 1;

/// Nanoseconds in which an L2CAP channel has to be open.
pub const L2CAP_SELECT_TIMEOUT: u64 = 1_500_000_000;

/// Milliseconds to wait before each attempt to read the PSM. A GATT layer that
/// has just subscribed can need a moment before the next operation succeeds.
pub const READ_PSM_BACKOFFS_MS: [u64; 3] = [0, 150, 400];

/// A datagram that a pipe delivered.
#[derive(Debug)]
pub struct IncomingPacket {
    pub device_id: DeviceId,
    /// The pipe that delivered it.
    pub stable_conn_id: StableConnId,
    pub data: Vec<u8>,
}

pub open spec fn role_direction(role: ConnectRole) -> Direction {
    match role {
        ConnectRole::Central => Direction::Outbound,
        ConnectRole::Peripheral => Direction::Inbound,
    }
}

/// Who dialled, given our role.
pub fn direction_for_role(role: ConnectRole) -> (d: Direction)
    ensures
        d == role_direction(role),
{
    match role {
        ConnectRole::Central => Direction::Outbound,
        ConnectRole::Peripheral => Direction::Inbound,
    }
}

/// What a metric says, and at which level it is logged.
#[derive(Debug)]
pub enum MetricLog {
    /// Debug: an attempt to connect failed.
    ConnectFailed { error: String },
    /// Debug: the adapter restored a device that is not known.
    RestoredUnknownDevice { device: String },
    /// Info: L2CAP failed and GATT takes its place.
    FellBackToGatt { error: String },
    /// Warning: a pipe made no progress and is drained.
    PipeWedged,
    /// Debug: a second L2CAP channel was ignored.
    DuplicateAccept,
    /// Debug: a late L2CAP channel took the pipe over.
    LateAcceptSwapped,
    /// Debug: an L2CAP channel came in after GATT was set up.
    LateAcceptAfterGatt,
    /// Trace: any other metric, as it is.
    Other { metric: String },
}

#[verifier::ext_equal]
pub enum MetricView {
    ConnectFailed(Seq<char>),
    RestoredUnknownDevice(Seq<char>),
    FellBackToGatt(Seq<char>),
    PipeWedged,
    DuplicateAccept,
    LateAcceptSwapped,
    LateAcceptAfterGatt,
    Other(Seq<char>),
}

impl View for MetricLog {
    type V = MetricView;

    open spec fn view(&self) -> MetricView {
        match *self {
            MetricLog::ConnectFailed { error } => MetricView::ConnectFailed(error@),
            MetricLog::RestoredUnknownDevice { device } => MetricView::RestoredUnknownDevice(
                device@,
            ),
            MetricLog::FellBackToGatt { error } => MetricView::FellBackToGatt(error@),
            MetricLog::PipeWedged => MetricView::PipeWedged,
            MetricLog::DuplicateAccept => MetricView::DuplicateAccept,
            MetricLog::LateAcceptSwapped => MetricView::LateAcceptSwapped,
            MetricLog::LateAcceptAfterGatt => MetricView::LateAcceptAfterGatt,
            MetricLog::Other { metric } => MetricView::Other(metric@),
        }
    }
}

/// What a metric says.
pub open spec fn metric_meaning(metric: Seq<char>) -> MetricView {
    match stripped(metric, "connect_failed:"@) {
        Some(error) => MetricView::ConnectFailed(error),
        None => match stripped(metric, "restore_unknown_device="@) {
            Some(device) => MetricView::RestoredUnknownDevice(device),
            None => match stripped(metric, "l2cap_fallback_to_gatt:"@) {
                Some(error) => MetricView::FellBackToGatt(error),
                None => if metric == "connected_pipe_wedged"@ {
                    MetricView::PipeWedged
                } else if metric == "l2cap_duplicate_accept"@ {
                    MetricView::DuplicateAccept
                } else if metric == "l2cap_late_accept_swapped"@ {
                    MetricView::LateAcceptSwapped
                } else if metric == "l2cap_late_accept_after_gatt"@ {
                    MetricView::LateAcceptAfterGatt
                } else {
                    MetricView::Other(metric)
                },
            },
        },
    }
}

fn same_text(a: &str, b: &str) -> (r: bool)
    ensures
        r == (a@ == b@),
{
    match strip(a, b) {
        Some(rest) => {
            assert(a@.take(b@.len() as int) == b@);
            proof {
                if rest@.len() == 0 {
                    assert(a@ =~= b@);
                }
            }
            rest.unicode_len() == 0
        },
        None => {
            proof {
                if a@ == b@ {
                    assert(a@.take(b@.len() as int) =~= b@);
                }
            }
            false
        },
    }
}

/// Classifies a metric for the log.
pub fn log_peer_metric(metric: &str) -> (log: MetricLog)
    ensures
        log@ == metric_meaning(metric@),
{
    if let Some(error) = strip(metric, "connect_failed:") {
        return MetricLog::ConnectFailed { error: error.to_owned() };
    }
    if let Some(device) = strip(metric, "restore_unknown_device=") {
        return MetricLog::RestoredUnknownDevice { device: device.to_owned() };
    }
    if let Some(error) = strip(metric, "l2cap_fallback_to_gatt:") {
        return MetricLog::FellBackToGatt { error: error.to_owned() };
    }
    if same_text(metric, "connected_pipe_wedged") {
        MetricLog::PipeWedged
    } else if same_text(metric, "l2cap_duplicate_accept") {
        MetricLog::DuplicateAccept
    } else if same_text(metric, "l2cap_late_accept_swapped") {
        MetricLog::LateAcceptSwapped
    } else if same_text(metric, "l2cap_late_accept_after_gatt") {
        MetricLog::LateAcceptAfterGatt
    } else {
        MetricLog::Other { metric: metric.to_owned() }
    }
}

/// A pipe that is to be started. Its channels hold [`OUTBOUND_CAPACITY`],
/// [`INBOUND_CAPACITY`] and [`SWAP_CAPACITY`] items; once it runs the registry
/// is told that it is ready for the given transmit generation.
#[derive(Debug)]
pub struct PipeStart {
    pub device_id: DeviceId,
    pub stable_id: StableConnId,
    pub tx_gen: u64,
    pub role: ConnectRole,
    pub path: ConnectPath,
    pub l2cap_channel: Option<L2capChannel>,
}

/// The I/O that an action asks for.
#[derive(Debug)]
pub enum DriverEffect {
    Connect { device_id: DeviceId },
    ReadVersion { device_id: DeviceId },
    Disconnect { device_id: DeviceId },
    Refresh { device_id: DeviceId },
    Wake { waker: WakerId },
    RebuildServer,
    RestartAdvertising,
    RestartL2capListener,
    PutPeerStore { prefix: KeyPrefix, snapshot: PeerSnapshot },
    ForgetPeerStore { prefix: KeyPrefix },
    Log(MetricLog),
    StartPipe(PipeStart),
    OpenL2cap { device_id: DeviceId },
    SwapPipe { device_id: DeviceId, channel: L2capChannel, swap_tx: SwapSender },
}

#[verifier::ext_equal]
pub enum EffectView {
    Connect { device_id: Seq<char> },
    ReadVersion { device_id: Seq<char> },
    Disconnect { device_id: Seq<char> },
    Refresh { device_id: Seq<char> },
    Wake { waker: WakerId },
    RebuildServer,
    RestartAdvertising,
    RestartL2capListener,
    PutPeerStore { prefix: KeyPrefix, snapshot: SnapshotView },
    ForgetPeerStore { prefix: KeyPrefix },
    Log(MetricView),
    StartPipe {
        device_id: Seq<char>,
        stable_id: StableConnId,
        tx_gen: u64,
        role: ConnectRole,
        path: ConnectPath,
        l2cap_channel: Option<L2capChannel>,
    },
    OpenL2cap { device_id: Seq<char> },
    SwapPipe { device_id: Seq<char>, channel: L2capChannel, swap_tx: SwapSender },
}

impl View for DriverEffect {
    type V = EffectView;

    open spec fn view(&self) -> EffectView {
        match *self {
            DriverEffect::Connect { device_id } => EffectView::Connect { device_id: device_id@ },
            DriverEffect::ReadVersion { device_id } => EffectView::ReadVersion {
                device_id: device_id@,
            },
            DriverEffect::Disconnect { device_id } => EffectView::Disconnect {
                device_id: device_id@,
            },
            DriverEffect::Refresh { device_id } => EffectView::Refresh { device_id: device_id@ },
            DriverEffect::Wake { waker } => EffectView::Wake { waker },
            DriverEffect::RebuildServer => EffectView::RebuildServer,
            DriverEffect::RestartAdvertising => EffectView::RestartAdvertising,
            DriverEffect::RestartL2capListener => EffectView::RestartL2capListener,
            DriverEffect::PutPeerStore { prefix, snapshot } => EffectView::PutPeerStore {
                prefix,
                snapshot: snapshot@,
            },
            DriverEffect::ForgetPeerStore { prefix } => EffectView::ForgetPeerStore { prefix },
            DriverEffect::Log(log) => EffectView::Log(log@),
            DriverEffect::StartPipe(start) => EffectView::StartPipe {
                device_id: start.device_id@,
                stable_id: start.stable_id,
                tx_gen: start.tx_gen,
                role: start.role,
                path: start.path,
                l2cap_channel: start.l2cap_channel,
            },
            DriverEffect::OpenL2cap { device_id } => EffectView::OpenL2cap {
                device_id: device_id@,
            },
            DriverEffect::SwapPipe { device_id, channel, swap_tx } => EffectView::SwapPipe {
                device_id: device_id@,
                channel,
                swap_tx,
            },
        }
    }
}

/// The routing tables that pipes are entered in.
#[derive(Debug)]
pub struct Driver {
    pub routing_v2: Routing,
    pub routing_v1: TransportRouting,
}

#[verifier::ext_equal]
pub struct DriverView {
    pub pipes: RoutingView,
    pub tokens: TransportRoutingView,
}

impl View for Driver {
    type V = DriverView;

    open spec fn view(&self) -> DriverView {
        DriverView { pipes: self.routing_v2@, tokens: self.routing_v1@ }
    }
}

impl DriverView {
    /// Every token stands for a live pipe.
    pub open spec fn tokens_live(self) -> bool {
        forall|token: u64| #[trigger]
            self.tokens.tokens.contains_key(token) ==> has_pipe(
                self.pipes.pipes,
                StableConnId { raw: token },
            )
    }

    /// A pipe is entered: it gets an id, and the id stands for its device.
    pub open spec fn pipe_opened(
        self,
        device_id: Seq<char>,
        role: ConnectRole,
        now: Instant,
    ) -> DriverView {
        DriverView {
            pipes: self.pipes.pipe_registered(device_id, role_direction(role), now),
            tokens: TransportRoutingView {
                tokens: self.tokens.tokens.insert(self.pipes.next().raw, device_id),
                ..self.tokens
            },
        }
    }

    pub open spec fn pipe_closed(self, id: StableConnId) -> DriverView {
        DriverView {
            pipes: self.pipes.pipe_evicted(id),
            tokens: TransportRoutingView {
                tokens: self.tokens.tokens.remove(id.raw),
                ..self.tokens
            },
        }
    }

    /// What an action does to the tables.
    pub open spec fn executed(self, action: ActionView, now: Instant) -> DriverView {
        match action {
            ActionView::StartDataPipe { device_id, role, .. } => self.pipe_opened(
                device_id,
                role,
                now,
            ),
            ActionView::RevertToGattPipe { device_id, role, .. } => self.pipe_opened(
                device_id,
                role,
                now,
            ),
            _ => self,
        }
    }

    /// The I/O that an action asks for.
    pub open spec fn effect(self, action: ActionView) -> EffectView {
        match action {
            ActionView::StartConnect { device_id, .. } => EffectView::Connect { device_id },
            ActionView::ReadVersion { device_id } => EffectView::ReadVersion { device_id },
            ActionView::CloseChannel { device_id, .. } => EffectView::Disconnect { device_id },
            ActionView::Refresh { device_id } => EffectView::Refresh { device_id },
            ActionView::AckSend { waker, .. } => EffectView::Wake { waker },
            ActionView::RebuildGattServer => EffectView::RebuildServer,
            ActionView::RestartAdvertising => EffectView::RestartAdvertising,
            ActionView::RestartL2capListener => EffectView::RestartL2capListener,
            ActionView::StartDataPipe { device_id, tx_gen, role, path, l2cap_channel } =>
                EffectView::StartPipe {
                device_id,
                stable_id: self.pipes.next(),
                tx_gen,
                role,
                path,
                l2cap_channel,
            },
            ActionView::UpgradeToL2cap { device_id } => EffectView::OpenL2cap { device_id },
            ActionView::SwapPipeToL2cap { device_id, channel, swap_tx } => EffectView::SwapPipe {
                device_id,
                channel,
                swap_tx,
            },
            ActionView::RevertToGattPipe { device_id, tx_gen, role } => EffectView::StartPipe {
                device_id,
                stable_id: self.pipes.next(),
                tx_gen,
                role,
                path: ConnectPath::Gatt,
                l2cap_channel: None,
            },
            ActionView::PutPeerStore { prefix, snapshot } => EffectView::PutPeerStore {
                prefix,
                snapshot,
            },
            ActionView::ForgetPeerStore { prefix } => EffectView::ForgetPeerStore { prefix },
            ActionView::EmitMetric(text) => EffectView::Log(metric_meaning(text)),
        }
    }
}

/// Once a pipe has ended, neither it nor its token is in the tables any more,
/// and all else is as it was before the pipe: the pipe leaves no trace but the
/// id that it used up. Only what was left under that id from before the count
/// of ids ran through is gone too.
pub proof fn ended_pipes_leave_no_trace(
    d: DriverView,
    device_id: Seq<char>,
    role: ConnectRole,
    now: Instant,
)
    requires
        d.pipes.wf(),
        d.tokens_live(),
    ensures
        ({
            let id = d.pipes.next();
            let after = d.pipe_opened(device_id, role, now).pipe_closed(id);
            &&& !has_pipe(after.pipes.pipes, id)
            &&& !after.tokens.tokens.contains_key(id.raw)
            &&& after.pipes.pipes == without_pipe(d.pipes.pipes, id)
            &&& after.tokens.tokens == d.tokens.tokens.remove(id.raw)
            &&& after.tokens.discovered == d.tokens.discovered
            &&& after.pipes.scan_hint == d.pipes.scan_hint
            &&& !has_pipe(d.pipes.pipes, id) ==> after.pipes.pipes == d.pipes.pipes && after.tokens
                == d.tokens
        }),
{
    let id = d.pipes.next();
    let opened = d.pipe_opened(device_id, role, now);
    ids_are_fresh(d.pipes, device_id, role_direction(role), now);
    registering_and_evicting_balance(d.pipes, device_id, role_direction(role), now);
    evicting_is_idempotent(opened.pipes, id);
    assert(d.tokens.tokens.insert(id.raw, device_id).remove(id.raw) =~= d.tokens.tokens.remove(
        id.raw,
    ));
    if !has_pipe(d.pipes.pipes, id) {
        assert(!d.tokens.tokens.contains_key(id.raw));
        assert(d.tokens.tokens.remove(id.raw) =~= d.tokens.tokens);
    }
}

/// An action that starts a pipe enters exactly one pipe, for its device and
/// under an id that is not zero, and asks for that pipe to be run in the
/// generation that the action names.
pub proof fn started_pipes_are_entered_once(
    d: DriverView,
    action: ActionView,
    device_id: Seq<char>,
    tx_gen: u64,
    now: Instant,
)
    requires
        d.pipes.wf(),
        (action matches ActionView::StartDataPipe { device_id: i, tx_gen: g, .. } && i == device_id
            && g == tx_gen) || (action matches ActionView::RevertToGattPipe {
            device_id: i,
            tx_gen: g,
            ..
        } && i == device_id && g == tx_gen),
    ensures
        ({
            let id = d.pipes.next();
            let after = d.executed(action, now).pipes.pipes;
            &&& id.raw > 0
            &&& after.drop_last() == without_pipe(d.pipes.pipes, id)
            &&& after.last().id == id
            &&& after.last().device_id == device_id
            &&& !has_pipe(d.pipes.pipes, id) ==> after.len() == d.pipes.pipes.len() + 1
            &&& d.effect(action) matches EffectView::StartPipe {
                device_id: i,
                stable_id,
                tx_gen: g,
                ..
            } && i == device_id && stable_id == id && g == tx_gen
        }),
{
    let id = d.pipes.next();
    let after = d.executed(action, now).pipes.pipes;
    assert(after.drop_last() =~= without_pipe(d.pipes.pipes, id));
}

/// While a pipe runs, its token leads to its device.
pub proof fn tokens_lead_to_their_pipe(
    d: DriverView,
    device_id: Seq<char>,
    role: ConnectRole,
    now: Instant,
)
    requires
        d.pipes.wf(),
    ensures
        ({
            let after = d.pipe_opened(device_id, role, now);
            let id = d.pipes.next();
            &&& after.tokens.tokens.contains_key(id.raw)
            &&& after.tokens.tokens[id.raw] == device_id
            &&& after.pipes.device_of_pipe(id) == Some(device_id)
        }),
{
    ids_are_fresh(d.pipes, device_id, role_direction(role), now);
    let pipes = d.pipe_opened(device_id, role, now).pipes.pipes;
    let id = d.pipes.next();
    let last = pipes.len() - 1;
    assert(pipes[last].id == id);
    let i = pipe_place(pipes, id);
    if i < last {
        assert(pipes[i].id != pipes[last].id);
    }
}

proof fn lemma_opened_tokens(d: DriverView, device_id: Seq<char>, role: ConnectRole, now: Instant)
    requires
        d.tokens_live(),
    ensures
        d.pipe_opened(device_id, role, now).tokens_live(),
{
    let id = d.pipes.next();
    let before = d.pipes.pipes;
    let rest = without_pipe(before, id);
    let after = d.pipe_opened(device_id, role, now);
    assert forall|token: u64| #[trigger] after.tokens.tokens.contains_key(token) implies has_pipe(
        after.pipes.pipes,
        StableConnId { raw: token },
    ) by {
        if token == id.raw {
            assert(after.pipes.pipes[rest.len() as int].id == id);
        } else {
            lemma_other_pipe(before, id, StableConnId { raw: token });
            let k = choose|k: int|
                0 <= k < rest.len() && (#[trigger] rest[k]).id == (StableConnId { raw: token });
            assert(after.pipes.pipes[k] == rest[k]);
        }
    }
}

proof fn lemma_closed_tokens(d: DriverView, id: StableConnId)
    requires
        d.tokens_live(),
    ensures
        d.pipe_closed(id).tokens_live(),
{
    let after = d.pipe_closed(id);
    assert forall|token: u64| #[trigger] after.tokens.tokens.contains_key(token) implies has_pipe(
        after.pipes.pipes,
        StableConnId { raw: token },
    ) by {
        lemma_other_pipe(d.pipes.pipes, id, StableConnId { raw: token });
    }
}

impl Driver {
    pub open spec fn wf(self) -> bool {
        self.routing_v2.wf() && self.routing_v1.wf() && self@.tokens_live()
    }

    pub fn new() -> (d: Self)
        ensures
            d.wf(),
            d@.pipes.last_id == 0,
            d@.pipes.pipes.len() == 0,
            d@.tokens.tokens == Map::<u64, Seq<char>>::empty(),
            d@.tokens.discovered == Map::<Seq<u8>, Seq<char>>::empty(),
    {
        Driver { routing_v2: Routing::new(), routing_v1: TransportRouting::new() }
    }

    fn open_pipe(
        &mut self,
        device_id: DeviceId,
        tx_gen: u64,
        role: ConnectRole,
        path: ConnectPath,
        l2cap_channel: Option<L2capChannel>,
        now: Instant,
    ) -> (start: PipeStart)
        requires
            old(self).wf(),
        ensures
            final(self).wf(),
            final(self)@ == old(self)@.pipe_opened(device_id@, role, now),
            start.device_id@ == device_id@,
            start.stable_id == old(self)@.pipes.next(),
            start.tx_gen == tx_gen,
            start.role == role,
            start.path == path,
            start.l2cap_channel == l2cap_channel,
    {
        let direction = direction_for_role(role);
        let stable_id = self.routing_v2.register_pipe(device_id.clone(), direction, now);
        self.routing_v1.install_stable_conn_token(stable_id.as_u64(), device_id.clone());
        proof {
            lemma_opened_tokens(old(self)@, device_id@, role, now);
        }
        PipeStart { device_id, stable_id, tx_gen, role, path, l2cap_channel }
    }

    /// Decides what an action of the registry asks for. A pipe that is to be
    /// started gets its id here.
    pub fn execute(&mut self, action: PeerAction, now: Instant) -> (effect: DriverEffect)
        requires
            old(self).wf(),
        ensures
            final(self).wf(),
            final(self)@ == old(self)@.executed(action@, now),
            effect@ == old(self)@.effect(action@),
    {
        match action {
            PeerAction::StartConnect { device_id, .. } => DriverEffect::Connect { device_id },
            PeerAction::ReadVersion { device_id } => DriverEffect::ReadVersion { device_id },
            PeerAction::CloseChannel { device_id, .. } => DriverEffect::Disconnect { device_id },
            PeerAction::Refresh { device_id } => DriverEffect::Refresh { device_id },
            PeerAction::AckSend { waker, .. } => DriverEffect::Wake { waker },
            PeerAction::RebuildGattServer => DriverEffect::RebuildServer,
            PeerAction::RestartAdvertising => DriverEffect::RestartAdvertising,
            PeerAction::RestartL2capListener => DriverEffect::RestartL2capListener,
            PeerAction::PutPeerStore { prefix, snapshot } => DriverEffect::PutPeerStore {
                prefix,
                snapshot,
            },
            PeerAction::ForgetPeerStore { prefix } => DriverEffect::ForgetPeerStore { prefix },
            PeerAction::EmitMetric(text) => DriverEffect::Log(log_peer_metric(text.as_str())),
            PeerAction::StartDataPipe { device_id, tx_gen, role, path, l2cap_channel } => {
                DriverEffect::StartPipe(
                    self.open_pipe(device_id, tx_gen, role, path, l2cap_channel, now),
                )
            },
            PeerAction::UpgradeToL2cap { device_id } => DriverEffect::OpenL2cap { device_id },
            PeerAction::SwapPipeToL2cap { device_id, channel, swap_tx } => DriverEffect::SwapPipe {
                device_id,
                channel,
                swap_tx,
            },
            PeerAction::RevertToGattPipe { device_id, tx_gen, role } => {
                DriverEffect::StartPipe(
                    self.open_pipe(device_id, tx_gen, role, ConnectPath::Gatt, None, now),
                )
            },
        }
    }

    /// Takes a pipe that has ended out of the tables.
    pub fn pipe_ended(&mut self, id: StableConnId)
        requires
            old(self).wf(),
        ensures
            final(self).wf(),
            final(self)@ == old(self)@.pipe_closed(id),
    {
        self.routing_v2.evict_pipe(id);
        self.routing_v1.uninstall_stable_conn_token(id.as_u64());
        proof {
            lemma_closed_tokens(old(self)@, id);
        }
    }
}

/// What the registry is told of an attempt to connect.
pub fn connect_command(device_id: DeviceId, result: Result<ChannelHandle, String>) -> (command:
    PeerCommand)
    ensures
        command@ == match result {
            Ok(channel) => CommandView::ConnectSucceeded { device_id: device_id@, channel },
            Err(error) => CommandView::ConnectFailed { device_id: device_id@, error: error@ },
        },
{
    match result {
        Ok(channel) => PeerCommand::ConnectSucceeded { device_id, channel },
        Err(error) => PeerCommand::ConnectFailed { device_id, error },
    }
}

/// What the registry is told of a peer's version. A version that could not be
/// read, or is not published, passes.
pub fn version_command(device_id: DeviceId, read: Option<u8>) -> (command: Option<PeerCommand>)
    ensures
        match read {
            Some(got) if got != PROTOCOL_VERSION => command matches Some(c) && c@ == (
            CommandView::ProtocolVersionMismatch {
                device_id: device_id@,
                got,
                want: PROTOCOL_VERSION,
            }),
            _ => command is None,
        },
        command is Some <==> read is Some && read != Some(1u8),
        command matches Some(c) ==> (c@ matches CommandView::ProtocolVersionMismatch {
            device_id: i,
            got,
            want,
        } && i == device_id@ && Some(got) == read && want == 1),
{
    match read {
        Some(got) => {
            if got != PROTOCOL_VERSION {
                Some(
                    PeerCommand::ProtocolVersionMismatch { device_id, got, want: PROTOCOL_VERSION },
                )
            } else {
                None
            }
        },
        None => None,
    }
}

/// How an attempt to open an L2CAP channel ended.
#[derive(Debug)]
pub enum L2capOpen {
    Opened(L2capChannel),
    Failed(String),
    TimedOut,
}

/// What the registry is told of an attempt to open an L2CAP channel.
pub fn l2cap_command(device_id: DeviceId, outcome: L2capOpen) -> (command: PeerCommand)
    ensures
        command@ == match outcome {
            L2capOpen::Opened(channel) => CommandView::OpenL2capSucceeded {
                device_id: device_id@,
                channel,
            },
            L2capOpen::Failed(error) => CommandView::OpenL2capFailed {
                device_id: device_id@,
                error: error@,
            },
            L2capOpen::TimedOut => CommandView::OpenL2capFailed {
                device_id: device_id@,
                error: "l2cap select timeout"@,
            },
        },
{
    match outcome {
        L2capOpen::Opened(channel) => PeerCommand::OpenL2capSucceeded { device_id, channel },
        L2capOpen::Failed(error) => PeerCommand::OpenL2capFailed { device_id, error },
        L2capOpen::TimedOut => PeerCommand::OpenL2capFailed {
            device_id,
            error: "l2cap select timeout".to_owned(),
        },
    }
}

/// What the registry is told once a pipe runs.
pub fn ready_command(start: &PipeStart, handles: PipeHandles) -> (command: PeerCommand)
    ensures
        command@ == (CommandView::DataPipeReady {
            device_id: start.device_id@,
            tx_gen: start.tx_gen,
            pipe: handles@,
        }),
{
    PeerCommand::DataPipeReady { device_id: start.device_id.clone(), tx_gen: start.tx_gen, handles }
}

/// What one read of the PSM gave.
#[derive(Debug)]
pub enum PsmRead {
    Psm(u16),
    /// The peer offers no L2CAP.
    Absent,
    Failed(String),
}

/// What to do after a read of the PSM.
#[derive(Debug)]
pub enum PsmStep {
    /// Read again after this many milliseconds.
    ReadAgain { delay_ms: u64 },
    Done(Result<u16, String>),
}

/// What one read of the PSM gave.
#[verifier::ext_equal]
pub enum PsmReadView {
    Psm(u16),
    Absent,
    Failed(Seq<char>),
}

impl View for PsmRead {
    type V = PsmReadView;

    open spec fn view(&self) -> PsmReadView {
        match *self {
            PsmRead::Psm(psm) => PsmReadView::Psm(psm),
            PsmRead::Absent => PsmReadView::Absent,
            PsmRead::Failed(error) => PsmReadView::Failed(error@),
        }
    }
}

/// What to do after a read of the PSM.
#[verifier::ext_equal]
pub enum PsmStepView {
    ReadAgain { delay_ms: u64 },
    Done(Result<u16, Seq<char>>),
}

impl View for PsmStep {
    type V = PsmStepView;

    open spec fn view(&self) -> PsmStepView {
        match *self {
            PsmStep::ReadAgain { delay_ms } => PsmStepView::ReadAgain { delay_ms },
            PsmStep::Done(Ok(psm)) => PsmStepView::Done(Ok(psm)),
            PsmStep::Done(Err(e)) => PsmStepView::Done(Err(e@)),
        }
    }
}

/// Reads the PSM with retries.
///
/// A read that fails is repeated after the next delay of the schedule; a peer
/// that offers no PSM is not asked again.
#[derive(Debug)]
pub struct PsmReader {
    backoffs_ms: Vec<u64>,
    /// How many reads have failed.
    failed: usize,
}

#[verifier::ext_equal]
pub struct PsmReaderView {
    pub backoffs_ms: Seq<u64>,
    pub failed: nat,
}

impl View for PsmReader {
    type V = PsmReaderView;

    closed spec fn view(&self) -> PsmReaderView {
        PsmReaderView { backoffs_ms: self.backoffs_ms@, failed: self.failed as nat }
    }
}

impl PsmReaderView {
    /// What a read leads to.
    pub open spec fn next(self, read: PsmReadView) -> (PsmReaderView, PsmStepView) {
        match read {
            PsmReadView::Psm(psm) => (self, PsmStepView::Done(Ok(psm))),
            PsmReadView::Absent => (self, PsmStepView::Done(Err("no psm advertised"@))),
            PsmReadView::Failed(error) => (
                PsmReaderView { failed: self.failed + 1, ..self },
                if self.failed + 1 < self.backoffs_ms.len() {
                    PsmStepView::ReadAgain { delay_ms: self.backoffs_ms[self.failed as int + 1] }
                } else {
                    PsmStepView::Done(Err("read_psm: "@ + error))
                },
            ),
        }
    }
}

impl PsmReader {
    /// Starts with a schedule of delays, one per attempt.
    pub fn new(backoffs_ms: Vec<u64>) -> (r: Self)
        ensures
            r@ == (PsmReaderView { backoffs_ms: backoffs_ms@, failed: 0 }),
    {
        PsmReader { backoffs_ms, failed: 0 }
    }

    /// What to do first: read after the first delay, or give up at once if the
    /// schedule is empty.
    pub fn start(&self) -> (step: PsmStep)
        requires
            self@.failed == 0,
        ensures
            match step {
                PsmStep::ReadAgain { delay_ms } => self@.backoffs_ms.len() > 0 && delay_ms
                    == self@.backoffs_ms[0],
                PsmStep::Done(r) => self@.backoffs_ms.len() == 0 && (r matches Err(e) && e@
                    == "read_psm: unknown"@),
            },
    {
        if self.backoffs_ms.len() == 0 {
            PsmStep::Done(Err("read_psm: unknown".to_owned()))
        } else {
            PsmStep::ReadAgain { delay_ms: self.backoffs_ms[0] }
        }
    }

    /// What to do after a read.
    pub fn after_read(&mut self, read: PsmRead) -> (step: PsmStep)
        requires
            old(self)@.failed < old(self)@.backoffs_ms.len(),
        ensures
            (final(self)@, step@) == old(self)@.next(read@),
            final(self)@.backoffs_ms == old(self)@.backoffs_ms,
            match read {
                PsmRead::Psm(psm) => final(self)@ == old(self)@ && step == PsmStep::Done(Ok(psm)),
                PsmRead::Absent => final(self)@ == old(self)@ && (step matches PsmStep::Done(
                    Err(e),
                ) && e@ == "no psm advertised"@),
                PsmRead::Failed(error) => {
                    &&& final(self)@.failed == old(self)@.failed + 1
                    &&& match step {
                        PsmStep::ReadAgain { delay_ms } => final(self)@.failed
                            < old(self)@.backoffs_ms.len() && delay_ms
                            == old(self)@.backoffs_ms[final(self)@.failed as int],
                        PsmStep::Done(r) => final(self)@.failed == old(self)@.backoffs_ms.len() && (
                        r matches Err(e) && e@ == "read_psm: "@ + error@),
                    }
                },
            },
    {
        match read {
            PsmRead::Psm(psm) => PsmStep::Done(Ok(psm)),
            PsmRead::Absent => PsmStep::Done(Err("no psm advertised".to_owned())),
            PsmRead::Failed(error) => {
                let attempts: usize = self.backoffs_ms.len();
                self.failed = self.failed + 1;
                if self.failed < attempts {
                    PsmStep::ReadAgain { delay_ms: self.backoffs_ms[self.failed] }
                } else {
                    let mut text = "read_psm: ".to_owned();
                    text.append(error.as_str());
                    PsmStep::Done(Err(text))
                }
            },
        }
    }
}

/// What a read of the PSM characteristic gave. A value that is too short means
/// that the peer offers no L2CAP.
pub fn psm_read(value: Result<Vec<u8>, String>) -> (read: PsmRead)
    ensures
        match value {
            Ok(v) => if v@.len() < 2 {
                read is Absent
            } else {
                read == PsmRead::Psm(le16_value(v@.take(2)))
            },
            Err(e) => read == PsmRead::Failed(e),
        },
        read matches PsmRead::Psm(psm) ==> (value matches Ok(v) && v@.len() >= 2 && psm == v@[0]
            + 256 * v@[1]),
{
    match value {
        Ok(v) => {
            if v.len() < 2 {
                PsmRead::Absent
            } else {
                assert(v@.take(2)[0] == v@[0] && v@.take(2)[1] == v@[1]);
                PsmRead::Psm(u16_of(slice_subrange(v.as_slice(), 0, 2)))
            }
        },
        Err(e) => PsmRead::Failed(e),
    }
}

/// The version that a read of the version characteristic gave. Peers that do
/// not publish one have none.
pub fn version_read(value: Option<&[u8]>) -> (version: Option<u8>)
    ensures
        version == match value {
            Some(v) if v@.len() > 0 => Some(v@[0]),
            _ => None,
        },
        forall|published: u8, more: Seq<u8>|
            value is Some && value->0@ == #[trigger] (seq![published] + more) ==> version == Some(
                published,
            ),
{
    match value {
        Some(v) => {
            if v.len() > 0 {
                Some(v[0])
            } else {
                None
            }
        },
        None => None,
    }
}

/// The links that are up: which channel each device has. Channels are numbered
/// from one; the numbers wrap around.
#[derive(Debug)]
pub struct BlewDriver {
    next_channel_id: u64,
    channels_by_device: DeviceTable<ChannelHandle>,
}

#[verifier::ext_equal]
pub struct LinksView {
    pub next_channel_id: u64,
    pub channels: Map<Seq<char>, ChannelHandle>,
}

impl View for BlewDriver {
    type V = LinksView;

    closed spec fn view(&self) -> LinksView {
        LinksView {
            next_channel_id: self.next_channel_id,
            channels: self.channels_by_device@,
        }
    }
}

impl LinksView {
    /// A device is connected: it gets the next channel.
    pub open spec fn connected(self, device: Seq<char>) -> LinksView {
        LinksView {
            next_channel_id: ((self.next_channel_id + 1) % 0x1_0000_0000_0000_0000) as u64,
            channels: self.channels.insert(
                device,
                ChannelHandle { id: self.next_channel_id, path: ConnectPath::Gatt },
            ),
        }
    }

    /// A device is disconnected.
    pub open spec fn disconnected(self, device: Seq<char>) -> LinksView {
        LinksView { channels: self.channels.remove(device), ..self }
    }
}

impl BlewDriver {
    pub closed spec fn wf(self) -> bool {
        self.channels_by_device.wf()
    }

    pub fn new() -> (d: Self)
        ensures
            d.wf(),
            d@ == (LinksView { next_channel_id: 1, channels: Map::empty() }),
    {
        BlewDriver { next_channel_id: 1, channels_by_device: DeviceTable::new() }
    }

    /// Records that a device is connected, its services discovered and its
    /// notifications subscribed to, and names its channel.
    pub fn connect(&mut self, device_id: &DeviceId) -> (handle: ChannelHandle)
        requires
            old(self).wf(),
        ensures
            final(self).wf(),
            final(self)@ == old(self)@.connected(device_id@),
            handle == (ChannelHandle {
                id: old(self)@.next_channel_id,
                path: ConnectPath::Gatt,
            }),
    {
        let handle = ChannelHandle { id: self.next_channel_id, path: ConnectPath::Gatt };
        self.next_channel_id = self.next_channel_id.wrapping_add(1);
        self.channels_by_device.insert(device_id.clone(), handle);
        handle
    }

    /// Records that a device is disconnected.
    pub fn disconnect(&mut self, device_id: &DeviceId)
        requires
            old(self).wf(),
        ensures
            final(self).wf(),
            final(self)@ == old(self)@.disconnected(device_id@),
    {
        self.channels_by_device.remove(device_id);
    }

    /// The channel of a device.
    pub fn channel_of(&self, device_id: &DeviceId) -> (handle: Option<ChannelHandle>)
        requires
            self.wf(),
        ensures
            handle == if self@.channels.contains_key(device_id@) {
                Some(self@.channels[device_id@])
            } else {
                None
            },
    {
        match self.channels_by_device.get(device_id) {
            Some(handle) => Some(*handle),
            None => None,
        }
    }
}

impl DriverView {
    /// What actions do to the tables, one after the other.
    pub open spec fn executed_all(self, actions: Seq<ActionView>, now: Instant) -> DriverView
        decreases actions.len(),
    {
        if actions.len() == 0 {
            self
        } else {
            self.executed_all(actions.drop_last(), now).executed(actions.last(), now)
        }
    }
}

/// Every effect is that of the action in its place, on the tables as the
/// actions before it left them.
pub open spec fn effects_of(
    d: DriverView,
    actions: Seq<ActionView>,
    effects: Seq<DriverEffect>,
    now: Instant,
) -> bool {
    &&& effects.len() == actions.len()
    &&& forall|i: int|
        0 <= i < actions.len() ==> (#[trigger] effects[i])@ == d.executed_all(
            actions.take(i),
            now,
        ).effect(actions[i])
}

impl Driver {
    /// Decides what the actions of the registry ask for, in order.
    pub fn execute_all(&mut self, actions: Vec<PeerAction>, now: Instant) -> (effects: Vec<
        DriverEffect,
    >)
        requires
            old(self).wf(),
        ensures
            final(self).wf(),
            final(self)@ == old(self)@.executed_all(actions_view(actions@), now),
            effects_of(old(self)@, actions_view(actions@), effects@, now),
    {
        let ghost all = actions_view(actions@);
        let ghost start = self@;
        let mut effects: Vec<DriverEffect> = Vec::new();
        let mut rest: Vec<PeerAction> = actions;
        let ghost n = rest@.len();
        let mut done: Ghost<int> = Ghost(0);
        assert(all.take(0) =~= Seq::empty());
        while rest.len() > 0
            invariant
                self.wf(),
                0 <= done@ <= n,
                all.len() == n,
                rest@.len() == n - done@,
                effects@.len() == done@,
                forall|i: int| 0 <= i < rest@.len() ==> (#[trigger] rest@[i])@ == all[done@ + i],
                self@ == start.executed_all(all.take(done@), now),
                forall|i: int|
                    0 <= i < done@ ==> (#[trigger] effects@[i])@ == start.executed_all(
                        all.take(i),
                        now,
                    ).effect(all[i]),
            decreases rest@.len(),
        {
            let ghost before = rest@;
            let action = rest.remove(0);
            assert(action@ == before[0]@);
            assert(all.take(done@ + 1).drop_last() =~= all.take(done@));
            let effect = self.execute(action, now);
            effects.push(effect);
            proof {
                done@ = done@ + 1;
                assert forall|i: int| 0 <= i < rest@.len() implies (#[trigger] rest@[i])@
                    == all[done@ + i] by {
                    assert(before[i + 1]@ == all[done@ - 1 + i + 1]);
                }
            }
        }
        assert(all.take(n as int) =~= all);
        effects
    }
}

/// What each action is for. The pipe that an action starts is run for its
/// device, in its generation and role, and over the path and the L2CAP channel
/// that it names; a pipe that reverts to GATT has no channel. Each other action
/// is answered by one piece of I/O, for its device, and leaves the tables as
/// they are.
pub proof fn effects_do_what_was_asked(d: DriverView, action: ActionView, now: Instant)
    ensures
        ({
            let effect = d.effect(action);
            let after = d.executed(action, now);
            let same = after == d;
            match action {
                ActionView::StartDataPipe { device_id, tx_gen, role, path, l2cap_channel } => {
                    &&& effect matches EffectView::StartPipe {
                        device_id: i,
                        tx_gen: g,
                        role: r,
                        path: p,
                        l2cap_channel: c,
                        ..
                    } && i == device_id && g == tx_gen && r == role && p == path && c
                        == l2cap_channel
                },
                ActionView::RevertToGattPipe { device_id, tx_gen, role } => {
                    &&& effect matches EffectView::StartPipe {
                        device_id: i,
                        tx_gen: g,
                        role: r,
                        path: p,
                        l2cap_channel: c,
                        ..
                    } && i == device_id && g == tx_gen && r == role && p is Gatt && c is None
                },
                ActionView::StartConnect { device_id, .. } => same && effect
                    == (EffectView::Connect { device_id }),
                ActionView::ReadVersion { device_id } => same && effect
                    == (EffectView::ReadVersion { device_id }),
                ActionView::CloseChannel { device_id, .. } => same && effect
                    == (EffectView::Disconnect { device_id }),
                ActionView::Refresh { device_id } => same && effect
                    == (EffectView::Refresh { device_id }),
                ActionView::AckSend { waker, .. } => same && effect == (EffectView::Wake { waker }),
                ActionView::RebuildGattServer => same && effect is RebuildServer,
                ActionView::RestartAdvertising => same && effect is RestartAdvertising,
                ActionView::RestartL2capListener => same && effect is RestartL2capListener,
                ActionView::UpgradeToL2cap { device_id } => same && effect
                    == (EffectView::OpenL2cap { device_id }),
                ActionView::SwapPipeToL2cap { device_id, channel, swap_tx } => same && effect
                    == (EffectView::SwapPipe { device_id, channel, swap_tx }),
                ActionView::PutPeerStore { prefix, snapshot } => same && effect
                    == (EffectView::PutPeerStore { prefix, snapshot }),
                ActionView::ForgetPeerStore { prefix } => same && effect
                    == (EffectView::ForgetPeerStore { prefix }),
                ActionView::EmitMetric(_) => same && effect is Log,
            }
        }),
{
}

/// The pipe that an action starts is entered as one that we dialled exactly
/// where we are the central, and as opened now; its token leads to its device,
/// and no other token changes.
pub proof fn started_pipes_are_entered_as_dialled(
    d: DriverView,
    action: ActionView,
    device_id: Seq<char>,
    role: ConnectRole,
    now: Instant,
    token: u64,
)
    requires
        d.pipes.wf(),
        (action matches ActionView::StartDataPipe { device_id: i, role: r, .. } && i == device_id
            && r == role) || (action matches ActionView::RevertToGattPipe {
            device_id: i,
            role: r,
            ..
        } && i == device_id && r == role),
    ensures
        ({
            let after = d.executed(action, now);
            let pipe = after.pipes.pipes.last();
            let id = pipe.id;
            &&& d.effect(action) matches EffectView::StartPipe { stable_id, .. } && stable_id == id
            &&& after.pipes.pipes.len() > 0
            &&& pipe.device_id == device_id
            &&& pipe.direction == if role is Central {
                Direction::Outbound
            } else {
                Direction::Inbound
            }
            &&& pipe.created_at == now
            &&& after.tokens.tokens.contains_key(id.raw) && after.tokens.tokens[id.raw] == device_id
            &&& token != id.raw ==> {
                &&& after.tokens.tokens.contains_key(token) == d.tokens.tokens.contains_key(token)
                &&& after.tokens.tokens[token] == d.tokens.tokens[token]
            }
            &&& after.tokens.discovered == d.tokens.discovered
            &&& after.pipes.scan_hint == d.pipes.scan_hint
        }),
{
}

/// What the log makes of a metric: the reason of a failed attempt, the device
/// that was restored without being known, and the reason for falling back to
/// GATT are what follows the name of the metric. A metric without a meaning of
/// its own is logged as it is.
pub proof fn metrics_keep_their_reason(detail: Seq<char>)
    ensures
        metric_meaning("connect_failed:"@ + detail) == MetricView::ConnectFailed(detail),
        metric_meaning("restore_unknown_device="@ + detail) == MetricView::RestoredUnknownDevice(
            detail,
        ),
        metric_meaning("l2cap_fallback_to_gatt:"@ + detail) == MetricView::FellBackToGatt(detail),
        metric_meaning("connected_pipe_wedged"@) is PipeWedged,
        metric_meaning("l2cap_duplicate_accept"@) is DuplicateAccept,
        metric_meaning("l2cap_late_accept_swapped"@) is LateAcceptSwapped,
        metric_meaning("l2cap_late_accept_after_gatt"@) is LateAcceptAfterGatt,
        metric_meaning(detail) matches MetricView::Other(text) ==> text == detail,
        detail.len() == 0 || (detail[0] != 'c' && detail[0] != 'r' && detail[0] != 'l')
            ==> metric_meaning(detail) is Other,
{
    reveal_strlit("connect_failed:");
    reveal_strlit("restore_unknown_device=");
    reveal_strlit("l2cap_fallback_to_gatt:");
    reveal_strlit("connected_pipe_wedged");
    reveal_strlit("l2cap_duplicate_accept");
    reveal_strlit("l2cap_late_accept_swapped");
    reveal_strlit("l2cap_late_accept_after_gatt");
    let c = "connect_failed:"@;
    let r = "restore_unknown_device="@;
    let l = "l2cap_fallback_to_gatt:"@;
    assert((c + detail).take(c.len() as int) =~= c);
    assert((c + detail).skip(c.len() as int) =~= detail);
    assert((r + detail).take(r.len() as int) =~= r);
    assert((r + detail).skip(r.len() as int) =~= detail);
    assert((r + detail).take(c.len() as int)[0] != c[0]);
    assert((l + detail).take(l.len() as int) =~= l);
    assert((l + detail).skip(l.len() as int) =~= detail);
    assert((l + detail).take(c.len() as int)[0] != c[0]);
    assert((l + detail).take(r.len() as int)[0] != r[0]);
    let w = "connected_pipe_wedged"@;
    assert(w.take(c.len() as int)[7] != c[7]);
    let d = "l2cap_duplicate_accept"@;
    let s = "l2cap_late_accept_swapped"@;
    let g = "l2cap_late_accept_after_gatt"@;
    assert(l[6] == 'f');
    assert(d.len() < l.len() || d.take(l.len() as int)[6] == 'd');
    assert(s.take(l.len() as int)[6] == 'l');
    assert(g.take(l.len() as int)[6] == 'l');
    assert(s.take(c.len() as int)[0] == 'l');
    assert(g.take(c.len() as int)[0] == 'l');
    assert(d.take(c.len() as int)[0] == 'l');
    assert(s.take(r.len() as int)[0] == 'l');
    assert(g.take(r.len() as int)[0] == 'l');
    assert(d.len() < r.len() || d.take(r.len() as int)[0] == 'l');
    assert(s.len() != g.len() && d.len() != s.len() && d.len() != g.len());
    if detail.len() >= c.len() {
        assert(detail.take(c.len() as int)[0] == detail[0]);
    }
    if detail.len() >= r.len() {
        assert(detail.take(r.len() as int)[0] == detail[0]);
    }
    if detail.len() >= l.len() {
        assert(detail.take(l.len() as int)[0] == detail[0]);
    }
}

/// A device that connects gets a channel over GATT with a number that no
/// connect before it was given until the numbers run through; the channels of
/// other devices stay. Once it has disconnected it has none.
pub proof fn links_come_and_go(links: LinksView, device: Seq<char>, other: Seq<char>)
    requires
        device != other,
    ensures
        ({
            let up = links.connected(device);
            let down = up.disconnected(device);
            &&& up.channels.contains_key(device)
            &&& up.channels[device].id == links.next_channel_id
            &&& up.channels[device].path is Gatt
            &&& up.next_channel_id == if links.next_channel_id == u64::MAX {
                0
            } else {
                links.next_channel_id + 1
            }
            &&& up.channels.contains_key(other) == links.channels.contains_key(other)
            &&& up.channels[other] == links.channels[other]
            &&& !down.channels.contains_key(device)
            &&& down.channels.contains_key(other) == links.channels.contains_key(other)
            &&& links.channels.contains_key(other) ==> down.channels[other]
                == links.channels[other]
            &&& down.next_channel_id == up.next_channel_id
        }),
{
}

/// Actions are executed in order: those of two lists in a row are executed as
/// one list would be.
pub proof fn executing_goes_on_where_it_stopped(
    d: DriverView,
    first: Seq<ActionView>,
    second: Seq<ActionView>,
    now: Instant,
)
    ensures
        d.executed_all(first + second, now) == d.executed_all(first, now).executed_all(second, now),
        forall|action: ActionView| #[trigger]
            d.executed_all(seq![action], now) == d.executed(action, now),
    decreases second.len(),
{
    if second.len() == 0 {
        assert(first + second =~= first);
    } else {
        executing_goes_on_where_it_stopped(d, first, second.drop_last(), now);
        assert((first + second).drop_last() =~= first + second.drop_last());
    }
    assert forall|action: ActionView| #[trigger]
        d.executed_all(seq![action], now) == d.executed(action, now) by {
        assert(seq![action].drop_last() =~= Seq::<ActionView>::empty());
        reveal_with_fuel(DriverView::executed_all, 2);
    }
}

/// A reader with this schedule, and what it was told last, after these reads have
/// failed one after the other.
pub open spec fn reads_failed(backoffs_ms: Seq<u64>, errors: Seq<Seq<char>>) -> (
    PsmReaderView,
    Option<PsmStepView>,
)
    decreases errors.len(),
{
    if errors.len() == 0 {
        (PsmReaderView { backoffs_ms, failed: 0 }, None)
    } else {
        let (reader, step) = reads_failed(backoffs_ms, errors.drop_last()).0.next(
            PsmReadView::Failed(errors.last()),
        );
        (reader, Some(step))
    }
}

/// The PSM is read as often as the schedule has delays, and each time after the
/// delay in its place; when the last read has failed too, its error is the
/// answer. A read that gives a PSM, or says that there is none, is the answer at
/// once.
pub proof fn psms_are_read_on_schedule(
    backoffs_ms: Seq<u64>,
    errors: Seq<Seq<char>>,
    psm: u16,
)
    requires
        errors.len() <= backoffs_ms.len(),
    ensures
        ({
            let (reader, step) = reads_failed(backoffs_ms, errors);
            &&& reader.backoffs_ms == backoffs_ms
            &&& reader.failed == errors.len()
            &&& 0 < errors.len() < backoffs_ms.len() ==> step == Some(
                PsmStepView::ReadAgain { delay_ms: backoffs_ms[errors.len() as int] },
            )
            &&& 0 < errors.len() == backoffs_ms.len() ==> step == Some(
                PsmStepView::Done(Err("read_psm: "@ + errors.last())),
            )
            &&& reader.next(PsmReadView::Psm(psm)).1 == PsmStepView::Done(Ok(psm))
            &&& reader.next(PsmReadView::Absent).1 == PsmStepView::Done(Err("no psm advertised"@))
        }),
    decreases errors.len(),
{
    if errors.len() > 0 {
        psms_are_read_on_schedule(backoffs_ms, errors.drop_last(), psm);
    }
}

} // verus!
