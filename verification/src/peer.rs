//! Peer types: [`PeerEntry`], [`PeerPhase`], [`PeerCommand`], [`PeerAction`].
//!
//! All types here are data. The only live objects in them are the channel
//! ends of a data pipe (see [`crate::channel`]); everything else that belongs
//! to the operating system (an L2CAP socket, a task waker) is named by a number
//! that the caller resolves.

use std::collections::VecDeque;

use tokio::sync::mpsc::Sender;

use vstd::prelude::*;

use crate::channel::{outbound_offered, PipeHandles, PipeView, TrySend};
use crate::time::{Instant, SystemTime};

verus! {

pub const KEY_PREFIX_LEN: usize = 12;

/// The leading bytes of an endpoint's public key, as carried in advertisements.
pub type KeyPrefix = [u8; 12];

/// Whether two prefixes hold the same bytes.
pub fn prefix_equal(a: &KeyPrefix, b: &KeyPrefix) -> (r: bool)
    ensures
        r == (*a == *b),
        r == (a@ == b@),
{
    let r = crate::bytes::bytes_equal(a.as_slice(), b.as_slice());
    proof {
        lemma_prefix_ext(*a, *b);
    }
    r
}

/// A prefix is determined by its bytes.
pub proof fn lemma_prefix_ext(a: KeyPrefix, b: KeyPrefix)
    ensures
        (a@ == b@) == (a == b),
{
    if a@ == b@ {
        assert forall|i: int| 0 <= i < 12 implies a[i] == b[i] by {
            assert(a@[i] == b@[i]);
        }
        assert(a =~= b);
    }
}

/// An endpoint's public key.
#[derive(Clone, Copy, PartialEq, Eq, Hash, Debug)]
pub struct EndpointId {
    pub bytes: [u8; 32],
}

impl View for EndpointId {
    type V = Seq<u8>;

    open spec fn view(&self) -> Seq<u8> {
        self.bytes@
    }
}

impl EndpointId {
    pub fn from_bytes(bytes: [u8; 32]) -> (id: Self)
        ensures
            id.bytes == bytes,
    {
        EndpointId { bytes }
    }

    pub fn as_bytes(&self) -> (bytes: &[u8; 32])
        ensures
            *bytes == self.bytes,
    {
        &self.bytes
    }
}

/// An endpoint is determined by its key.
pub proof fn lemma_endpoint_ext(a: EndpointId, b: EndpointId)
    ensures
        (a@ == b@) == (a == b),
{
    if a@ == b@ {
        assert forall|i: int| 0 <= i < 32 implies a.bytes[i] == b.bytes[i] by {
            assert(a@[i] == b@[i]);
        }
        assert(a.bytes =~= b.bytes);
    }
}

/// The name by which the platform knows a device.
#[derive(PartialEq, Eq, Hash, Debug)]
pub struct DeviceId {
    pub name: String,
}

impl View for DeviceId {
    type V = Seq<char>;

    open spec fn view(&self) -> Seq<char> {
        self.name@
    }
}

impl DeviceId {
    pub fn new(name: &str) -> (id: Self)
        ensures
            id@ == name@,
    {
        DeviceId { name: name.to_owned() }
    }

    pub fn as_str(&self) -> (s: &str)
        ensures
            s@ == self@,
    {
        self.name.as_str()
    }
}

impl Clone for DeviceId {
    fn clone(&self) -> (id: Self)
        ensures
            id == *self,
    {
        DeviceId { name: self.name.clone() }
    }
}

/// A 128-bit UUID, most significant byte first.
#[derive(Clone, Copy, PartialEq, Eq, Hash, Debug)]
pub struct Uuid {
    pub bytes: [u8; 16],
}

impl View for Uuid {
    type V = Seq<u8>;

    open spec fn view(&self) -> Seq<u8> {
        self.bytes@
    }
}

/// A discovered device.
#[derive(Debug)]
pub struct BleDevice {
    pub id: DeviceId,
    pub name: Option<String>,
    pub rssi: Option<i16>,
    pub services: Vec<Uuid>,
}

/// Names an open L2CAP channel that the caller holds.
#[derive(Clone, Copy, PartialEq, Eq, Hash, Structural, Debug)]
pub struct L2capChannel {
    pub id: u64,
}

/// Names a task to be woken.
#[derive(Clone, Copy, PartialEq, Eq, Hash, Structural, Debug)]
pub struct WakerId {
    pub id: u64,
}

/// Names the sender through which a pipe is told to move to an L2CAP channel.
#[derive(Clone, Copy, PartialEq, Eq, Hash, Structural, Debug)]
pub struct SwapSender {
    pub id: u64,
}

/// How a send failed.
#[derive(Clone, Copy, PartialEq, Eq, Structural, Debug)]
pub enum ErrorKind {
    WouldBlock,
    BrokenPipe,
    ConnectionAborted,
    InvalidInput,
    InvalidData,
    UnexpectedEof,
    TimedOut,
    NotFound,
    Other,
}

#[derive(Clone, Copy, PartialEq, Eq, Structural, Debug)]
pub enum FragmentSource {
    /// A notification on the peripheral-to-central characteristic.
    CentralReceivedP2c,
    /// A write to the central-to-peripheral characteristic.
    PeripheralReceivedC2p,
}

#[derive(Clone, Copy, PartialEq, Eq, Structural, Debug)]
pub enum ConnectRole {
    /// This node discovered the peer by scanning and drives the GATT client side.
    Central,
    /// This node received an inbound GATT write and answers as peripheral.
    Peripheral,
}

#[derive(Clone, Copy, PartialEq, Eq, Structural, Debug)]
pub enum ConnectPath {
    L2cap,
    Gatt,
}

/// Why the platform reports a link as gone.
#[derive(Clone, Copy, PartialEq, Eq, Structural, Debug)]
pub enum DisconnectCause {
    LocalClose,
    RemoteClose,
    LinkLoss,
    AdapterOff,
    Gatt133,
    Timeout,
    Unknown(i32),
}

/// Why the registry gave up a link.
#[derive(Clone, Copy, PartialEq, Eq, Structural, Debug)]
pub enum DisconnectReason {
    LocalClose,
    RemoteClose,
    LinkLoss,
    AdapterOff,
    Gatt133,
    Timeout,
    ProtocolError,
    ProtocolMismatch,
    LinkDead,
    DedupLoser,
    Unknown(i32),
}

impl DisconnectReason {
    /// The reason recorded for a reported cause.
    pub open spec fn of_cause(cause: DisconnectCause) -> DisconnectReason {
        match cause {
            DisconnectCause::LocalClose => DisconnectReason::LocalClose,
            DisconnectCause::RemoteClose => DisconnectReason::RemoteClose,
            DisconnectCause::LinkLoss => DisconnectReason::LinkLoss,
            DisconnectCause::AdapterOff => DisconnectReason::AdapterOff,
            DisconnectCause::Gatt133 => DisconnectReason::Gatt133,
            DisconnectCause::Timeout => DisconnectReason::Timeout,
            DisconnectCause::Unknown(c) => DisconnectReason::Unknown(c),
        }
    }
}

impl From<DisconnectCause> for DisconnectReason {
    fn from(cause: DisconnectCause) -> (reason: Self) {
        match cause {
            DisconnectCause::LocalClose => DisconnectReason::LocalClose,
            DisconnectCause::RemoteClose => DisconnectReason::RemoteClose,
            DisconnectCause::LinkLoss => DisconnectReason::LinkLoss,
            DisconnectCause::AdapterOff => DisconnectReason::AdapterOff,
            DisconnectCause::Gatt133 => DisconnectReason::Gatt133,
            DisconnectCause::Timeout => DisconnectReason::Timeout,
            DisconnectCause::Unknown(c) => DisconnectReason::Unknown(c),
        }
    }
}

impl vstd::std_specs::convert::FromSpecImpl<DisconnectCause> for DisconnectReason {
    open spec fn obeys_from_spec() -> bool {
        true
    }

    open spec fn from_spec(cause: DisconnectCause) -> Self {
        DisconnectReason::of_cause(cause)
    }
}

#[derive(Clone, Copy, PartialEq, Eq, Structural, Debug)]
pub enum DeadReason {
    MaxRetries,
    ProtocolMismatch { got: u8, want: u8 },
    Forgotten,
}

/// Names a live channel held by the driver.
#[derive(Clone, Copy, PartialEq, Eq, Structural, Debug)]
pub struct ChannelHandle {
    pub id: u64,
    pub path: ConnectPath,
}

impl View for ChannelHandle {
    type V = ChannelHandle;

    open spec fn view(&self) -> ChannelHandle {
        *self
    }
}

/// Where a peer stands in its connection lifecycle.
#[derive(Clone, Copy, Debug)]
pub enum PeerPhase {
    Unknown,
    Discovered { since: Instant },
    /// A dial held back so that the peer with the higher key dials first.
    PendingDial { since: Instant, deadline: Instant, prefix: KeyPrefix },
    Connecting { attempt: u32, started: Instant, path: ConnectPath },
    Handshaking { since: Instant, channel: ChannelHandle },
    Connected { since: Instant, channel: ChannelHandle, tx_gen: u64, upgrading: bool },
    Draining { since: Instant, reason: DisconnectReason },
    Reconnecting { attempt: u32, next_at: Instant, reason: DisconnectReason },
    Dead { reason: DeadReason, at: Instant },
    Restoring { since: Instant },
}

/// A datagram waiting for its pipe.
#[derive(Debug)]
pub struct PendingSend {
    pub tx_gen: u64,
    pub datagram: Vec<u8>,
    pub waker: WakerId,
}

#[verifier::ext_equal]
pub struct PendingSendView {
    pub tx_gen: u64,
    pub datagram: Seq<u8>,
    pub waker: WakerId,
}

impl View for PendingSend {
    type V = PendingSendView;

    open spec fn view(&self) -> PendingSendView {
        PendingSendView { tx_gen: self.tx_gen, datagram: self.datagram@, waker: self.waker }
    }
}

/// Everything the registry knows of one device.
#[derive(Debug)]
pub struct PeerEntry {
    pub device_id: DeviceId,
    pub phase: PeerPhase,
    pub last_adv: Option<Instant>,
    pub last_rx: Option<Instant>,
    pub last_tx: Option<Instant>,
    pub consecutive_failures: u32,
    pub tx_gen: u64,
    pub pending_sends: VecDeque<PendingSend>,
    pub role: ConnectRole,
    pub pipe: Option<PipeHandles>,
    /// The sending end of the last pipe that was found closed. Its receiver is
    /// gone: it stays as the record of what it was offered.
    pub closed_tx: Option<Sender<PendingSend>>,
    pub rx_backlog: VecDeque<Vec<u8>>,
    pub prefix: Option<KeyPrefix>,
    pub verified_endpoint: Option<EndpointId>,
    pub verified_at: Option<Instant>,
    pub l2cap_channel: Option<L2capChannel>,
    pub l2cap_upgrade_failed: bool,
}

#[verifier::ext_equal]
pub struct PeerView {
    pub device_id: Seq<char>,
    pub phase: PeerPhase,
    pub last_adv: Option<Instant>,
    pub last_rx: Option<Instant>,
    pub last_tx: Option<Instant>,
    pub consecutive_failures: u32,
    pub tx_gen: u64,
    pub pending_sends: Seq<PendingSendView>,
    pub role: ConnectRole,
    pub pipe: Option<PipeView>,
    /// What the last pipe that was found closed had been offered.
    pub closed: Option<Seq<(PendingSendView, TrySend)>>,
    pub rx_backlog: Seq<Seq<u8>>,
    pub prefix: Option<KeyPrefix>,
    pub verified_endpoint: Option<EndpointId>,
    pub verified_at: Option<Instant>,
    pub l2cap_channel: Option<L2capChannel>,
    pub l2cap_upgrade_failed: bool,
}

pub open spec fn sends_view(sends: Seq<PendingSend>) -> Seq<PendingSendView> {
    Seq::new(sends.len(), |i: int| sends[i]@)
}

pub open spec fn fragments_view(fragments: Seq<Vec<u8>>) -> Seq<Seq<u8>> {
    Seq::new(fragments.len(), |i: int| fragments[i]@)
}

pub open spec fn pipe_view(pipe: Option<PipeHandles>) -> Option<PipeView> {
    match pipe {
        Some(p) => Some(p@),
        None => None,
    }
}

pub open spec fn closed_view(tx: Option<Sender<PendingSend>>) -> Option<
    Seq<(PendingSendView, TrySend)>,
> {
    match tx {
        Some(tx) => Some(outbound_offered(tx)),
        None => None,
    }
}

impl View for PeerEntry {
    type V = PeerView;

    open spec fn view(&self) -> PeerView {
        PeerView {
            device_id: self.device_id@,
            phase: self.phase,
            last_adv: self.last_adv,
            last_rx: self.last_rx,
            last_tx: self.last_tx,
            consecutive_failures: self.consecutive_failures,
            tx_gen: self.tx_gen,
            pending_sends: sends_view(self.pending_sends@),
            role: self.role,
            pipe: pipe_view(self.pipe),
            closed: closed_view(self.closed_tx),
            rx_backlog: fragments_view(self.rx_backlog@),
            prefix: self.prefix,
            verified_endpoint: self.verified_endpoint,
            verified_at: self.verified_at,
            l2cap_channel: self.l2cap_channel,
            l2cap_upgrade_failed: self.l2cap_upgrade_failed,
        }
    }
}

impl PeerView {
    /// A device about which nothing is known yet.
    pub open spec fn fresh(device_id: Seq<char>) -> PeerView {
        PeerView {
            device_id,
            phase: PeerPhase::Unknown,
            last_adv: None,
            last_rx: None,
            last_tx: None,
            consecutive_failures: 0,
            tx_gen: 0,
            pending_sends: Seq::empty(),
            role: ConnectRole::Central,
            pipe: None,
            closed: None,
            rx_backlog: Seq::empty(),
            prefix: None,
            verified_endpoint: None,
            verified_at: None,
            l2cap_channel: None,
            l2cap_upgrade_failed: false,
        }
    }
}

impl PeerEntry {
    pub fn new(device_id: DeviceId) -> (e: Self)
        ensures
            e@ == PeerView::fresh(device_id@),
    {
        let e = PeerEntry {
            device_id,
            phase: PeerPhase::Unknown,
            last_adv: None,
            last_rx: None,
            last_tx: None,
            consecutive_failures: 0,
            tx_gen: 0,
            pending_sends: VecDeque::new(),
            role: ConnectRole::Central,
            pipe: None,
            closed_tx: None,
            rx_backlog: VecDeque::new(),
            prefix: None,
            verified_endpoint: None,
            verified_at: None,
            l2cap_channel: None,
            l2cap_upgrade_failed: false,
        };
        assert(sends_view(e.pending_sends@) =~= Seq::empty());
        assert(fragments_view(e.rx_backlog@) =~= Seq::empty());
        e
    }
}

/// What is remembered of a peer across restarts.
#[derive(Debug)]
pub struct PeerSnapshot {
    /// The key the peer proved, if it has proved one.
    pub endpoint_id: Option<EndpointId>,
    pub last_device_id: String,
    pub last_seen: SystemTime,
}

#[verifier::ext_equal]
pub struct SnapshotView {
    pub endpoint_id: Option<EndpointId>,
    pub last_device_id: Seq<char>,
    pub last_seen: SystemTime,
}

impl View for PeerSnapshot {
    type V = SnapshotView;

    open spec fn view(&self) -> SnapshotView {
        SnapshotView {
            endpoint_id: self.endpoint_id,
            last_device_id: self.last_device_id@,
            last_seen: self.last_seen,
        }
    }
}

impl Clone for PeerSnapshot {
    fn clone(&self) -> (s: Self)
        ensures
            s == *self,
    {
        PeerSnapshot {
            endpoint_id: self.endpoint_id,
            last_device_id: self.last_device_id.clone(),
            last_seen: self.last_seen,
        }
    }
}

/// What the registry is told.
#[derive(Debug)]
pub enum PeerCommand {
    Advertised { prefix: KeyPrefix, device: BleDevice, rssi: Option<i16> },
    CentralConnected { device_id: DeviceId },
    CentralDisconnected { device_id: DeviceId, cause: DisconnectCause },
    InboundGattFragment { device_id: DeviceId, source: FragmentSource, bytes: Vec<u8> },
    InboundL2capChannel { device_id: DeviceId, channel: L2capChannel },
    AdapterStateChanged { powered: bool },
    RestoreFromAdapter { devices: Vec<BleDevice> },
    SendDatagram { device_id: DeviceId, tx_gen: u64, datagram: Vec<u8>, waker: WakerId },
    Tick(Instant),
    ConnectSucceeded { device_id: DeviceId, channel: ChannelHandle },
    ConnectFailed { device_id: DeviceId, error: String },
    OpenL2capSucceeded { device_id: DeviceId, channel: L2capChannel },
    OpenL2capFailed { device_id: DeviceId, error: String },
    Stalled { device_id: DeviceId },
    /// Evict this device. Sent when a known prefix shows up under another
    /// device name (a peer restarted with a new address).
    Forget { device_id: DeviceId },
    DataPipeReady {
        device_id: DeviceId,
        /// The transmit generation for which the pipe was started.
        tx_gen: u64,
        handles: PipeHandles,
    },
    Shutdown,
    ProtocolVersionMismatch { device_id: DeviceId, got: u8, want: u8 },
    /// A QUIC handshake proved that the peer holds this key.
    VerifiedEndpoint { endpoint_id: EndpointId },
    PeripheralClientSubscribed { client_id: DeviceId, char_uuid: Uuid },
    L2capHandoverTimeout { device_id: DeviceId },
}

#[verifier::ext_equal]
pub struct DeviceView {
    pub id: Seq<char>,
    pub name: Option<Seq<char>>,
    pub rssi: Option<i16>,
    pub services: Seq<Uuid>,
}

impl View for BleDevice {
    type V = DeviceView;

    open spec fn view(&self) -> DeviceView {
        DeviceView {
            id: self.id@,
            name: match self.name {
                Some(name) => Some(name@),
                None => None,
            },
            rssi: self.rssi,
            services: self.services@,
        }
    }
}

#[verifier::ext_equal]
pub enum CommandView {
    Advertised { prefix: KeyPrefix, device: DeviceView, rssi: Option<i16> },
    CentralConnected { device_id: Seq<char> },
    CentralDisconnected { device_id: Seq<char>, cause: DisconnectCause },
    InboundGattFragment { device_id: Seq<char>, source: FragmentSource, bytes: Seq<u8> },
    InboundL2capChannel { device_id: Seq<char>, channel: L2capChannel },
    AdapterStateChanged { powered: bool },
    RestoreFromAdapter { devices: Seq<DeviceView> },
    SendDatagram { device_id: Seq<char>, send: PendingSendView },
    Tick(Instant),
    ConnectSucceeded { device_id: Seq<char>, channel: ChannelHandle },
    ConnectFailed { device_id: Seq<char>, error: Seq<char> },
    OpenL2capSucceeded { device_id: Seq<char>, channel: L2capChannel },
    OpenL2capFailed { device_id: Seq<char>, error: Seq<char> },
    Stalled { device_id: Seq<char> },
    Forget { device_id: Seq<char> },
    DataPipeReady { device_id: Seq<char>, tx_gen: u64, pipe: PipeView },
    Shutdown,
    ProtocolVersionMismatch { device_id: Seq<char>, got: u8, want: u8 },
    VerifiedEndpoint { endpoint_id: EndpointId },
    PeripheralClientSubscribed { client_id: Seq<char>, char_uuid: Uuid },
    L2capHandoverTimeout { device_id: Seq<char> },
}

impl View for PeerCommand {
    type V = CommandView;

    open spec fn view(&self) -> CommandView {
        match *self {
            PeerCommand::Advertised { prefix, device, rssi } => CommandView::Advertised {
                prefix,
                device: device@,
                rssi,
            },
            PeerCommand::CentralConnected { device_id } => CommandView::CentralConnected {
                device_id: device_id@,
            },
            PeerCommand::CentralDisconnected { device_id, cause } =>
                CommandView::CentralDisconnected { device_id: device_id@, cause },
            PeerCommand::InboundGattFragment { device_id, source, bytes } =>
                CommandView::InboundGattFragment { device_id: device_id@, source, bytes: bytes@ },
            PeerCommand::InboundL2capChannel { device_id, channel } =>
                CommandView::InboundL2capChannel { device_id: device_id@, channel },
            PeerCommand::AdapterStateChanged { powered } => CommandView::AdapterStateChanged {
                powered,
            },
            PeerCommand::RestoreFromAdapter { devices } => CommandView::RestoreFromAdapter {
                devices: Seq::new(devices@.len(), |i: int| devices@[i]@),
            },
            PeerCommand::SendDatagram { device_id, tx_gen, datagram, waker } =>
                CommandView::SendDatagram {
                device_id: device_id@,
                send: PendingSendView { tx_gen, datagram: datagram@, waker },
            },
            PeerCommand::Tick(now) => CommandView::Tick(now),
            PeerCommand::ConnectSucceeded { device_id, channel } => CommandView::ConnectSucceeded {
                device_id: device_id@,
                channel,
            },
            PeerCommand::ConnectFailed { device_id, error } => CommandView::ConnectFailed {
                device_id: device_id@,
                error: error@,
            },
            PeerCommand::OpenL2capSucceeded { device_id, channel } =>
                CommandView::OpenL2capSucceeded { device_id: device_id@, channel },
            PeerCommand::OpenL2capFailed { device_id, error } => CommandView::OpenL2capFailed {
                device_id: device_id@,
                error: error@,
            },
            PeerCommand::Stalled { device_id } => CommandView::Stalled { device_id: device_id@ },
            PeerCommand::Forget { device_id } => CommandView::Forget { device_id: device_id@ },
            PeerCommand::DataPipeReady { device_id, tx_gen, handles } =>
                CommandView::DataPipeReady { device_id: device_id@, tx_gen, pipe: handles@ },
            PeerCommand::Shutdown => CommandView::Shutdown,
            PeerCommand::ProtocolVersionMismatch { device_id, got, want } =>
                CommandView::ProtocolVersionMismatch { device_id: device_id@, got, want },
            PeerCommand::VerifiedEndpoint { endpoint_id } => CommandView::VerifiedEndpoint {
                endpoint_id,
            },
            PeerCommand::PeripheralClientSubscribed { client_id, char_uuid } =>
                CommandView::PeripheralClientSubscribed { client_id: client_id@, char_uuid },
            PeerCommand::L2capHandoverTimeout { device_id } => CommandView::L2capHandoverTimeout {
                device_id: device_id@,
            },
        }
    }
}

pub open spec fn commands_view(commands: Seq<PeerCommand>) -> Seq<CommandView> {
    Seq::new(commands.len(), |i: int| commands[i]@)
}

/// What the registry asks the driver to do.
#[derive(Debug)]
pub enum PeerAction {
    StartConnect { device_id: DeviceId, attempt: u32 },
    ReadVersion { device_id: DeviceId },
    CloseChannel { device_id: DeviceId, channel: ChannelHandle, reason: DisconnectReason },
    Refresh { device_id: DeviceId },
    AckSend { tx_gen: u64, waker: WakerId, result: Result<(), ErrorKind> },
    RebuildGattServer,
    RestartAdvertising,
    RestartL2capListener,
    StartDataPipe {
        device_id: DeviceId,
        tx_gen: u64,
        role: ConnectRole,
        path: ConnectPath,
        l2cap_channel: Option<L2capChannel>,
    },
    UpgradeToL2cap { device_id: DeviceId },
    SwapPipeToL2cap { device_id: DeviceId, channel: L2capChannel, swap_tx: SwapSender },
    RevertToGattPipe { device_id: DeviceId, tx_gen: u64, role: ConnectRole },
    PutPeerStore { prefix: KeyPrefix, snapshot: PeerSnapshot },
    ForgetPeerStore { prefix: KeyPrefix },
    EmitMetric(String),
}

#[verifier::ext_equal]
pub enum ActionView {
    StartConnect { device_id: Seq<char>, attempt: u32 },
    ReadVersion { device_id: Seq<char> },
    CloseChannel { device_id: Seq<char>, channel: ChannelHandle, reason: DisconnectReason },
    Refresh { device_id: Seq<char> },
    AckSend { tx_gen: u64, waker: WakerId, result: Result<(), ErrorKind> },
    RebuildGattServer,
    RestartAdvertising,
    RestartL2capListener,
    StartDataPipe {
        device_id: Seq<char>,
        tx_gen: u64,
        role: ConnectRole,
        path: ConnectPath,
        l2cap_channel: Option<L2capChannel>,
    },
    UpgradeToL2cap { device_id: Seq<char> },
    SwapPipeToL2cap { device_id: Seq<char>, channel: L2capChannel, swap_tx: SwapSender },
    RevertToGattPipe { device_id: Seq<char>, tx_gen: u64, role: ConnectRole },
    PutPeerStore { prefix: KeyPrefix, snapshot: SnapshotView },
    ForgetPeerStore { prefix: KeyPrefix },
    EmitMetric(Seq<char>),
}

impl View for PeerAction {
    type V = ActionView;

    open spec fn view(&self) -> ActionView {
        match *self {
            PeerAction::StartConnect { device_id, attempt } => ActionView::StartConnect {
                device_id: device_id@,
                attempt,
            },
            PeerAction::ReadVersion { device_id } => ActionView::ReadVersion {
                device_id: device_id@,
            },
            PeerAction::CloseChannel { device_id, channel, reason } => ActionView::CloseChannel {
                device_id: device_id@,
                channel,
                reason,
            },
            PeerAction::Refresh { device_id } => ActionView::Refresh { device_id: device_id@ },
            PeerAction::AckSend { tx_gen, waker, result } => ActionView::AckSend {
                tx_gen,
                waker,
                result,
            },
            PeerAction::RebuildGattServer => ActionView::RebuildGattServer,
            PeerAction::RestartAdvertising => ActionView::RestartAdvertising,
            PeerAction::RestartL2capListener => ActionView::RestartL2capListener,
            PeerAction::StartDataPipe { device_id, tx_gen, role, path, l2cap_channel } =>
                ActionView::StartDataPipe {
                device_id: device_id@,
                tx_gen,
                role,
                path,
                l2cap_channel,
            },
            PeerAction::UpgradeToL2cap { device_id } => ActionView::UpgradeToL2cap {
                device_id: device_id@,
            },
            PeerAction::SwapPipeToL2cap { device_id, channel, swap_tx } =>
                ActionView::SwapPipeToL2cap { device_id: device_id@, channel, swap_tx },
            PeerAction::RevertToGattPipe { device_id, tx_gen, role } =>
                ActionView::RevertToGattPipe { device_id: device_id@, tx_gen, role },
            PeerAction::PutPeerStore { prefix, snapshot } => ActionView::PutPeerStore {
                prefix,
                snapshot: snapshot@,
            },
            PeerAction::ForgetPeerStore { prefix } => ActionView::ForgetPeerStore { prefix },
            PeerAction::EmitMetric(text) => ActionView::EmitMetric(text@),
        }
    }
}

pub open spec fn actions_view(actions: Seq<PeerAction>) -> Seq<ActionView> {
    Seq::new(actions.len(), |i: int| actions[i]@)
}

/// Appends one action.
pub fn emit(actions: &mut Vec<PeerAction>, action: PeerAction)
    ensures
        actions_view(final(actions)@) == actions_view(old(actions)@).push(action@),
{
    actions.push(action);
    assert(actions_view(actions@) =~= actions_view(old(actions)@).push(action@));
}

} // verus!
