//! A transport without a registry: it dials a peer when something is sent to
//! it, and keeps one data channel per device.

use vstd::prelude::*;
use vstd::string::StringExecFns;

use crate::address::{ble_custom_addr, device_addr, device_key_of, parse_custom_addr};
use crate::error::{BleError, BleErrorView, IoError, IoErrorView};
use crate::events::{
    advertised_prefix, lemma_no_prefix, lemma_some_prefix, CentralEvent, PeripheralEvent,
};
use crate::gatt::{
    extract_prefix_from_services, no_key_before, IROH_C2P_CHAR_UUID, IROH_P2C_CHAR_UUID,
};
use crate::keys::{parse_public_key, prefix_from_endpoint, prefix_of, valid_public_key};
use crate::l2cap::{frame, FRAME_OVERHEAD, MAX_DATAGRAM_SIZE};
use crate::peer::{DeviceId, EndpointId, ErrorKind, KeyPrefix};
use crate::routing::CustomAddr;
use crate::table::{DeviceTable, Key, PrefixTable, Table};
use crate::text::{append_hex, hex};
use crate::time::Instant;

verus! {

/// How long a discovered peer is remembered, in nanoseconds.
pub const DISCOVERY_TTL: u64 = 300_000_000_000;

/// Seconds between two health checks.
pub const HEALTH_CHECK_SECS: u64 = 10;

/// How many bytes go into one GATT write or notification.
pub const DEFAULT_CHUNK_SIZE: usize = 512;

/// Names a data channel that the caller holds.
#[derive(Clone, Copy, PartialEq, Eq, Structural, Debug)]
pub enum DataChannel {
    /// Writes and notifications, acknowledged and sent again.
    Gatt { id: u64 },
    /// A stream of framed datagrams.
    L2cap { id: u64 },
}

impl View for DataChannel {
    type V = DataChannel;

    open spec fn view(&self) -> DataChannel {
        *self
    }
}

/// A device, and when it was last seen advertising.
#[derive(Debug)]
pub struct Sighting {
    pub device: DeviceId,
    pub seen: Instant,
}

#[verifier::ext_equal]
pub struct SightingView {
    pub device: Seq<char>,
    pub seen: Instant,
}

impl View for Sighting {
    type V = SightingView;

    open spec fn view(&self) -> SightingView {
        SightingView { device: self.device@, seen: self.seen }
    }
}

/// How eagerly to scan.
#[derive(Clone, Copy, PartialEq, Eq, Structural, Debug)]
pub enum ScanMode {
    LowLatency,
    LowPower,
}

/// What the transport has counted. Counts wrap around.
#[derive(Clone, Copy, PartialEq, Eq, Structural, Debug)]
pub struct Counts {
    pub events: u64,
    pub discoveries: u64,
    pub iroh_discoveries: u64,
    pub tx_bytes: u64,
    pub rx_bytes: u64,
    pub retransmits: u64,
}

/// Cumulative transport statistics.
#[derive(Clone, Copy, PartialEq, Eq, Structural, Debug)]
pub struct TransportStats {
    /// Bytes sent over BLE since the transport came up.
    pub tx_bytes: u64,
    /// Bytes received over BLE since the transport came up.
    pub rx_bytes: u64,
}

/// A count with something added.
pub open spec fn counted(count: u64, n: nat) -> u64 {
    ((count + n) % 0x1_0000_0000_0000_0000) as u64
}

/// The state of a transport.
#[derive(Debug)]
pub struct DirectTransport {
    local_id: EndpointId,
    discovered: PrefixTable<Sighting>,
    channels: DeviceTable<DataChannel>,
    low_power: bool,
    counts: Counts,
}

#[verifier::ext_equal]
pub struct DirectView {
    pub local_id: EndpointId,
    pub discovered: Map<Seq<u8>, SightingView>,
    pub channels: Map<Seq<char>, DataChannel>,
    /// Whether the scan runs at a reduced duty cycle.
    pub low_power: bool,
    pub counts: Counts,
}

impl View for DirectTransport {
    type V = DirectView;

    closed spec fn view(&self) -> DirectView {
        DirectView {
            local_id: self.local_id,
            discovered: self.discovered@,
            channels: self.channels@,
            low_power: self.low_power,
            counts: self.counts,
        }
    }
}

/// Whether any device has a channel.
pub open spec fn any_channel(channels: Map<Seq<char>, DataChannel>) -> bool {
    exists|device: Seq<char>| #[trigger] channels.contains_key(device)
}

/// What to do with a fragment.
#[derive(Clone, Copy, PartialEq, Eq, Structural, Debug)]
pub enum FragmentStep {
    /// Feed it to this GATT channel.
    Feed { id: u64 },
    /// Drop it: the device has moved on to L2CAP.
    Discard,
    /// The device is new: open a GATT channel, feed it the fragment, and
    /// register it.
    Open,
}

impl DirectView {
    pub open spec fn scan_mode(self) -> ScanMode {
        if self.low_power {
            ScanMode::LowPower
        } else {
            ScanMode::LowLatency
        }
    }

    /// A device has a channel: the scan gives way to the traffic.
    pub open spec fn registered(self, device: Seq<char>, channel: DataChannel) -> DirectView {
        DirectView {
            channels: self.channels.insert(device, channel),
            low_power: true,
            ..self
        }
    }

    /// A device has no channel any more: with the last one the scan returns to
    /// full speed.
    pub open spec fn unregistered(self, device: Seq<char>) -> DirectView {
        let left = self.channels.remove(device);
        DirectView { channels: left, low_power: any_channel(left), ..self }
    }

    /// How the scan has to be restarted for a change of its duty cycle.
    pub open spec fn rescan(self, next: DirectView) -> Option<ScanMode> {
        if self.low_power == next.low_power {
            None
        } else {
            Some(next.scan_mode())
        }
    }

    pub open spec fn fragment_step(self, device: Seq<char>) -> FragmentStep {
        if !self.channels.contains_key(device) {
            FragmentStep::Open
        } else {
            match self.channels[device] {
                DataChannel::Gatt { id } => FragmentStep::Feed { id },
                DataChannel::L2cap { .. } => FragmentStep::Discard,
            }
        }
    }

    pub open spec fn with_counts(self, counts: Counts) -> DirectView {
        DirectView { counts, ..self }
    }

    /// A device was seen advertising a prefix.
    pub open spec fn sighted(self, prefix: Seq<u8>, device: Seq<char>, now: Instant) -> DirectView {
        DirectView {
            discovered: self.discovered.insert(prefix, SightingView { device, seen: now }),
            ..self
        }
    }
}

proof fn lemma_any_channel(channels: Map<Seq<char>, DataChannel>)
    requires
        channels.dom().finite(),
    ensures
        any_channel(channels) == (channels.len() > 0),
{
    if channels.len() > 0 {
        let device = channels.dom().choose();
        assert(channels.dom().contains(device));
        assert(channels.contains_key(device));
    }
    if any_channel(channels) {
        let device = choose|device: Seq<char>| #[trigger] channels.contains_key(device);
        assert(channels.dom().contains(device));
    }
}

/// What a reported read or write is answered.
#[derive(Clone, Copy, PartialEq, Eq, Structural, Debug)]
pub enum DirectAnswer {
    Nothing,
    /// Report success to the writer, if it asked.
    Acknowledge,
    /// Answer with an empty value.
    EmptyValue,
}

/// What follows from a report to the central.
#[derive(Clone, Copy, PartialEq, Eq, Structural, Debug)]
pub enum DirectReaction {
    Nothing,
    /// Deal with the reported value.
    Fragment(FragmentStep),
    /// Restart the scan.
    Rescan(ScanMode),
}

impl DirectTransport {
    /// The scan runs at a reduced duty cycle exactly while there are channels.
    pub closed spec fn wf(self) -> bool {
        &&& self.discovered.wf()
        &&& self.channels.wf()
        &&& self.low_power == any_channel(self.channels@)
    }

    pub fn new(local_id: EndpointId) -> (t: Self)
        ensures
            t.wf(),
            t@ == (DirectView {
                local_id,
                discovered: Map::empty(),
                channels: Map::empty(),
                low_power: false,
                counts: Counts {
                    events: 0,
                    discoveries: 0,
                    iroh_discoveries: 0,
                    tx_bytes: 0,
                    rx_bytes: 0,
                    retransmits: 0,
                },
            }),
    {
        DirectTransport {
            local_id,
            discovered: Table::new(),
            channels: Table::new(),
            low_power: false,
            counts: Counts {
                events: 0,
                discoveries: 0,
                iroh_discoveries: 0,
                tx_bytes: 0,
                rx_bytes: 0,
                retransmits: 0,
            },
        }
    }

    /// What has been counted of traffic.
    pub fn stats(&self) -> (stats: TransportStats)
        ensures
            stats == (TransportStats {
                tx_bytes: self@.counts.tx_bytes,
                rx_bytes: self@.counts.rx_bytes,
            }),
    {
        TransportStats { tx_bytes: self.counts.tx_bytes, rx_bytes: self.counts.rx_bytes }
    }

    /// Counts bytes that were written.
    pub fn count_sent(&mut self, len: usize)
        requires
            old(self).wf(),
        ensures
            final(self).wf(),
            final(self)@ == old(self)@.bytes_sent(len as nat),
    {
        self.counts.tx_bytes = self.counts.tx_bytes.wrapping_add(len as u64);
    }

    /// Counts a datagram that was written to an L2CAP stream, with its frame.
    pub fn count_datagram_sent(&mut self, payload_len: usize)
        requires
            old(self).wf(),
            payload_len <= MAX_DATAGRAM_SIZE,
        ensures
            final(self).wf(),
            final(self)@ == old(self)@.bytes_sent((payload_len + FRAME_OVERHEAD) as nat),
            forall|payload: Seq<u8>|
                payload.len() == payload_len ==> final(self)@ == old(self)@.bytes_sent(
                    (#[trigger] frame(payload)).len(),
                ),
    {
        self.count_sent(payload_len + FRAME_OVERHEAD);
    }

    /// Counts a datagram that was read from an L2CAP stream, with its frame.
    pub fn count_datagram_received(&mut self, payload_len: usize)
        requires
            old(self).wf(),
            payload_len <= MAX_DATAGRAM_SIZE,
        ensures
            final(self).wf(),
            final(self)@ == old(self)@.bytes_received((payload_len + FRAME_OVERHEAD) as nat),
            forall|payload: Seq<u8>|
                payload.len() == payload_len ==> final(self)@ == old(self)@.bytes_received(
                    (#[trigger] frame(payload)).len(),
                ),
    {
        let len: usize = payload_len + FRAME_OVERHEAD;
        self.counts.rx_bytes = self.counts.rx_bytes.wrapping_add(len as u64);
    }

    /// Counts a fragment that was sent again.
    pub fn count_retransmit(&mut self)
        requires
            old(self).wf(),
        ensures
            final(self).wf(),
            final(self)@ == old(self)@.with_counts(
                Counts {
                    retransmits: counted(old(self)@.counts.retransmits, 1),
                    ..old(self)@.counts
                },
            ),
    {
        self.counts.retransmits = self.counts.retransmits.wrapping_add(1);
    }

    /// Whether a device has a channel: it need not be dialled.
    pub fn is_connected(&self, device: &DeviceId) -> (r: bool)
        requires
            self.wf(),
        ensures
            r == self@.channels.contains_key(device@),
    {
        self.channels.contains_key(device)
    }

    /// Changes the duty cycle of the scan, and says how to restart it if it
    /// was another one.
    fn switch_scan_mode(&mut self, mode: ScanMode) -> (rescan: Option<ScanMode>)
        ensures
            *final(self) == (DirectTransport { low_power: mode is LowPower, ..*old(self) }),
            rescan == if old(self).low_power == (mode is LowPower) {
                None
            } else {
                Some(mode)
            },
    {
        let want_low_power = matches!(mode, ScanMode::LowPower);
        if self.low_power == want_low_power {
            return None;
        }
        self.low_power = want_low_power;
        Some(mode)
    }

    /// Puts a device's channel into the table, in place of the one that was
    /// there, and says how to restart the scan if it was the first.
    pub fn register_peer_channel(&mut self, device: DeviceId, channel: DataChannel) -> (rescan:
        Option<ScanMode>)
        requires
            old(self).wf(),
        ensures
            final(self).wf(),
            final(self)@ == old(self)@.registered(device@, channel),
            rescan == old(self)@.rescan(final(self)@),
    {
        let first = self.channels.len() == 0;
        proof {
            lemma_any_channel(self.channels@);
        }
        let ghost name = device@;
        self.channels.insert(device, channel);
        assert(self.channels@.contains_key(name));
        if first {
            self.switch_scan_mode(ScanMode::LowPower)
        } else {
            None
        }
    }

    /// Takes a device's channel out of the table, and says how to restart the
    /// scan if it was the last.
    pub fn unregister_peer(&mut self, device: &DeviceId) -> (rescan: Option<ScanMode>)
        requires
            old(self).wf(),
        ensures
            final(self).wf(),
            final(self)@ == old(self)@.unregistered(device@),
            rescan == old(self)@.rescan(final(self)@),
    {
        let ghost before = self.channels@;
        self.channels.remove(device);
        let none_left = self.channels.len() == 0;
        proof {
            lemma_any_channel(self.channels@);
            if any_channel(self.channels@) {
                let d = choose|d: Seq<char>| #[trigger] self.channels@.contains_key(d);
                assert(before.contains_key(d));
            }
        }
        if none_left {
            self.switch_scan_mode(ScanMode::LowLatency)
        } else {
            None
        }
    }

    /// What to do with a fragment from a device.
    pub fn handle_incoming_fragment(&self, device: &DeviceId) -> (step: FragmentStep)
        requires
            self.wf(),
        ensures
            step == self@.fragment_step(device@),
    {
        match self.channels.get(device) {
            None => FragmentStep::Open,
            Some(channel) => match *channel {
                DataChannel::Gatt { id } => FragmentStep::Feed { id },
                DataChannel::L2cap { .. } => FragmentStep::Discard,
            },
        }
    }
}

impl DirectView {
    /// One more event.
    pub open spec fn event_counted(self) -> DirectView {
        self.with_counts(Counts { events: counted(self.counts.events, 1), ..self.counts })
    }

    /// One more discovery.
    pub open spec fn discovery_counted(self) -> DirectView {
        self.with_counts(Counts { discoveries: counted(self.counts.discoveries, 1), ..self.counts })
    }

    /// One more discovery of a peer.
    pub open spec fn peer_counted(self) -> DirectView {
        self.with_counts(
            Counts { iroh_discoveries: counted(self.counts.iroh_discoveries, 1), ..self.counts },
        )
    }

    /// More bytes sent.
    pub open spec fn bytes_sent(self, len: nat) -> DirectView {
        self.with_counts(Counts { tx_bytes: counted(self.counts.tx_bytes, len), ..self.counts })
    }

    /// More bytes received.
    pub open spec fn bytes_received(self, len: nat) -> DirectView {
        self.with_counts(Counts { rx_bytes: counted(self.counts.rx_bytes, len), ..self.counts })
    }
}

impl DirectTransport {
    /// What follows from a report to the central. A device that advertises a
    /// key is remembered under it; a notification with data is a fragment; a
    /// device that went away loses its channel at once.
    pub fn handle_central_event(&mut self, event: &CentralEvent, now: Instant) -> (reaction:
        DirectReaction)
        requires
            old(self).wf(),
        ensures
            final(self).wf(),
            ({
                let before = old(self)@.event_counted();
                match *event {
                    CentralEvent::DeviceDiscovered(device) => {
                        &&& reaction is Nothing
                        &&& forall|prefix: KeyPrefix| #[trigger]
                            advertised_prefix(device.services@, prefix) ==> final(self)@
                                == before.discovery_counted().peer_counted().sighted(
                                prefix@,
                                device.id@,
                                now,
                            )
                        &&& no_key_before(device.services@, device.services@.len() as int)
                            ==> final(self)@ == before.discovery_counted()
                    },
                    CentralEvent::CharacteristicNotification { device_id, char_uuid, value } =>
                        if char_uuid@ == IROH_P2C_CHAR_UUID@ && value@.len() > 0 {
                            final(self)@ == before.bytes_received(value@.len()) && reaction
                                == DirectReaction::Fragment(before.fragment_step(device_id@))
                        } else {
                            final(self)@ == before && reaction is Nothing
                        },
                    CentralEvent::DeviceDisconnected { device_id, .. } => final(self)@
                        == before.unregistered(device_id@) && reaction == match before.rescan(
                        before.unregistered(device_id@),
                    ) {
                        Some(mode) => DirectReaction::Rescan(mode),
                        None => DirectReaction::Nothing,
                    },
                    _ => final(self)@ == before && reaction is Nothing,
                }
            }),
    {
        self.counts.events = self.counts.events.wrapping_add(1);
        match event {
            CentralEvent::DeviceDiscovered(device) => {
                self.counts.discoveries = self.counts.discoveries.wrapping_add(1);
                match extract_prefix_from_services(device.services.as_slice()) {
                    None => {
                        proof {
                            lemma_no_prefix(device.services@);
                        }
                    },
                    Some(prefix) => {
                        self.counts.iroh_discoveries = self.counts.iroh_discoveries.wrapping_add(1);
                        self.discovered.insert(
                            prefix,
                            Sighting { device: device.id.clone(), seen: now },
                        );
                        proof {
                            lemma_some_prefix(device.services@, prefix);
                        }
                    },
                }
                DirectReaction::Nothing
            },
            CentralEvent::CharacteristicNotification { device_id, char_uuid, value } => {
                if char_uuid.bytes.same(&IROH_P2C_CHAR_UUID) && value.len() > 0 {
                    self.counts.rx_bytes = self.counts.rx_bytes.wrapping_add(value.len() as u64);
                    DirectReaction::Fragment(self.handle_incoming_fragment(device_id))
                } else {
                    DirectReaction::Nothing
                }
            },
            CentralEvent::DeviceDisconnected { device_id, .. } => match self.unregister_peer(
                device_id,
            ) {
                Some(mode) => DirectReaction::Rescan(mode),
                None => DirectReaction::Nothing,
            },
            _ => DirectReaction::Nothing,
        }
    }

    /// What follows from a report to the peripheral. A write of data is a
    /// fragment; every write is acknowledged; a read yields nothing.
    pub fn handle_peripheral_event(&mut self, event: &PeripheralEvent) -> (r: (
        Option<FragmentStep>,
        DirectAnswer,
    ))
        requires
            old(self).wf(),
        ensures
            final(self).wf(),
            ({
                let before = old(self)@.event_counted();
                match *event {
                    PeripheralEvent::WriteRequest { client_id, char_uuid, value } => {
                        &&& r.1 is Acknowledge
                        &&& if char_uuid@ == IROH_C2P_CHAR_UUID@ && value@.len() > 0 {
                            final(self)@ == before.bytes_received(value@.len()) && r.0 == Some(
                                before.fragment_step(client_id@),
                            )
                        } else {
                            final(self)@ == before && r.0 is None
                        }
                    },
                    PeripheralEvent::ReadRequest { .. } => final(self)@ == before && r == (
                        None::<FragmentStep>,
                        DirectAnswer::EmptyValue,
                    ),
                    _ => final(self)@ == before && r == (
                        None::<FragmentStep>,
                        DirectAnswer::Nothing,
                    ),
                }
            }),
    {
        self.counts.events = self.counts.events.wrapping_add(1);
        match event {
            PeripheralEvent::WriteRequest { client_id, char_uuid, value } => {
                if char_uuid.bytes.same(&IROH_C2P_CHAR_UUID) && value.len() > 0 {
                    self.counts.rx_bytes = self.counts.rx_bytes.wrapping_add(value.len() as u64);
                    (Some(self.handle_incoming_fragment(client_id)), DirectAnswer::Acknowledge)
                } else {
                    (None, DirectAnswer::Acknowledge)
                }
            },
            PeripheralEvent::ReadRequest { .. } => (None, DirectAnswer::EmptyValue),
            _ => (None, DirectAnswer::Nothing),
        }
    }
}

/// The sightings that are recent enough to be remembered.
pub open spec fn remembered(
    discovered: Map<Seq<u8>, SightingView>,
    now: Instant,
) -> Map<Seq<u8>, SightingView> {
    Map::new(
        |prefix: Seq<u8>|
            discovered.contains_key(prefix) && now.nanos_since(discovered[prefix].seen)
                <= DISCOVERY_TTL,
        |prefix: Seq<u8>| discovered[prefix],
    )
}

/// What a health check has to tell.
#[derive(Clone, Copy, PartialEq, Eq, Structural, Debug)]
pub struct HealthReport {
    pub discoveries: u64,
    pub iroh_discoveries: u64,
    /// How many peers were remembered before the check.
    pub discovered_peers: usize,
    pub peer_channels: usize,
    /// Fragments sent again since the last check.
    pub retransmits: u64,
    /// Bytes sent since the last check.
    pub tx_bytes: u64,
    /// Bytes received since the last check.
    pub rx_bytes: u64,
    /// How to restart the scan.
    pub mode: ScanMode,
}

impl DirectTransport {
    /// Forgets peers that have not been seen for too long.
    fn evict(&mut self, now: Instant)
        requires
            old(self).wf(),
        ensures
            final(self).wf(),
            final(self)@ == (DirectView {
                discovered: remembered(old(self)@.discovered, now),
                ..old(self)@
            }),
    {
        let ghost all = self.discovered@;
        let ghost pairs = self.discovered.pairs();
        let mut kept: PrefixTable<Sighting> = Table::new();
        let n: usize = self.discovered.len();
        let mut i: usize = 0;
        while i < n
            invariant
                self.discovered.wf(),
                kept.wf(),
                n == pairs.len(),
                i <= n,
                all == self.discovered@,
                pairs == self.discovered.pairs(),
                forall|p: Seq<u8>| #[trigger]
                    kept@.contains_key(p) ==> remembered(all, now).contains_key(p) && kept@[p]
                        == all[p],
                forall|j: int|
                    0 <= j < i && remembered(all, now).contains_key((#[trigger] pairs[j]).0)
                        ==> kept@.contains_key(pairs[j].0),
            decreases n - i,
        {
            let (prefix, sighting) = self.discovered.at(i);
            if now.saturating_duration_since(sighting.seen).nanos <= DISCOVERY_TTL {
                kept.insert(
                    *prefix,
                    Sighting { device: sighting.device.clone(), seen: sighting.seen },
                );
            }
            i = i + 1;
        }
        proof {
            self.discovered.lemma_pairs();
            let want = remembered(all, now);
            assert forall|p: Seq<u8>|
                #![trigger kept@.dom().contains(p)]
                #![trigger want.dom().contains(p)]
                kept@.dom().contains(p) == want.dom().contains(p) by {
                if want.contains_key(p) {
                    assert(all.contains_key(p));
                    let j = choose|j: int| 0 <= j < pairs.len() && (#[trigger] pairs[j]).0 == p;
                    assert(kept@.contains_key(pairs[j].0));
                }
                if kept@.contains_key(p) {
                    assert(want.contains_key(p));
                }
            }
            assert(kept@ =~= want);
        }
        self.discovered = kept;
    }

    /// Sums up what happened since the last check, when `last` was counted,
    /// forgets peers that have not been seen for too long, and says how to
    /// restart the scan.
    pub fn health_check(&mut self, last: TransportStats, now: Instant) -> (report: HealthReport)
        requires
            old(self).wf(),
        ensures
            final(self).wf(),
            final(self)@ == (DirectView {
                discovered: remembered(old(self)@.discovered, now),
                counts: Counts { retransmits: 0, ..old(self)@.counts },
                ..old(self)@
            }),
            ({
                let before = old(self)@;
                &&& report.discoveries == before.counts.discoveries
                &&& report.iroh_discoveries == before.counts.iroh_discoveries
                &&& report.discovered_peers == before.discovered.len()
                &&& report.peer_channels == before.channels.len()
                &&& report.retransmits == before.counts.retransmits
                &&& counted(last.tx_bytes, report.tx_bytes as nat) == before.counts.tx_bytes
                &&& counted(last.rx_bytes, report.rx_bytes as nat) == before.counts.rx_bytes
                &&& report.mode == before.scan_mode()
            }),
    {
        let report = HealthReport {
            discoveries: self.counts.discoveries,
            iroh_discoveries: self.counts.iroh_discoveries,
            discovered_peers: self.discovered.len(),
            peer_channels: self.channels.len(),
            retransmits: self.counts.retransmits,
            tx_bytes: self.counts.tx_bytes.wrapping_sub(last.tx_bytes),
            rx_bytes: self.counts.rx_bytes.wrapping_sub(last.rx_bytes),
            mode: if self.low_power {
                ScanMode::LowPower
            } else {
                ScanMode::LowLatency
            },
        };
        self.counts.retransmits = 0;
        self.evict(now);
        report
    }
}

impl DirectView {
    /// The device that is known to advertise a prefix.
    pub open spec fn device_with(self, prefix: Seq<u8>) -> Option<Seq<char>> {
        if self.discovered.contains_key(prefix) {
            Some(self.discovered[prefix].device)
        } else {
            None
        }
    }

    /// The name under which the channel of an endpoint is kept: that of its
    /// device, or one made from its key while the device is not known.
    pub open spec fn name_for(self, key: Seq<u8>) -> Seq<char> {
        match self.device_with(prefix_of(key)) {
            Some(device) => device,
            None => "l2cap-"@ + hex(key),
        }
    }
}

/// An L2CAP channel was opened to this node.
#[derive(Debug)]
pub struct IncomingL2cap {
    /// The name under which the channel is kept.
    pub device: DeviceId,
    /// How to restart the scan, if it has to be.
    pub rescan: Option<ScanMode>,
}

impl DirectTransport {
    /// Registers a channel that was opened to this node by the endpoint that
    /// introduced itself. A GATT channel of the same device gives way.
    pub fn install_incoming_l2cap(&mut self, remote: Option<EndpointId>, id: u64) -> (r: Result<
        IncomingL2cap,
        BleError,
    >)
        requires
            old(self).wf(),
        ensures
            final(self).wf(),
            match remote {
                Some(endpoint) => {
                    &&& r matches Ok(incoming)
                    &&& incoming.device@ == old(self)@.name_for(endpoint@)
                    &&& final(self)@ == old(self)@.registered(
                        incoming.device@,
                        DataChannel::L2cap { id },
                    )
                    &&& incoming.rescan == old(self)@.rescan(final(self)@)
                },
                None => {
                    &&& r matches Err(e)
                    &&& e@ == BleErrorView::PeripheralError("l2cap: invalid remote identity"@)
                    &&& final(self)@ == old(self)@
                },
            },
    {
        match remote {
            None => Err(BleError::PeripheralError("l2cap: invalid remote identity".to_owned())),
            Some(endpoint) => {
                let device = match self.discovered.get(&prefix_from_endpoint(&endpoint)) {
                    Some(sighting) => sighting.device.clone(),
                    None => {
                        let mut name: String = "l2cap-".to_owned();
                        append_hex(&mut name, endpoint.bytes.as_slice());
                        DeviceId { name }
                    },
                };
                let kept = device.clone();
                let rescan = self.register_peer_channel(device, DataChannel::L2cap { id });
                Ok(IncomingL2cap { device: kept, rescan })
            },
        }
    }

    /// Deals with a channel that was opened to this node. Its central writes
    /// its key first: `identity` is what was read of it.
    pub fn handle_incoming_l2cap(&mut self, identity: Result<[u8; 32], IoError>, id: u64) -> (r:
        Result<IncomingL2cap, BleError>)
        requires
            old(self).wf(),
        ensures
            final(self).wf(),
            match identity {
                Err(e) => r matches Err(f) && f@ == BleErrorView::PeripheralError(
                    "l2cap identity read: "@ + e@.message,
                ) && final(self)@ == old(self)@,
                Ok(bytes) => if valid_public_key(bytes@) {
                    &&& r matches Ok(incoming)
                    &&& incoming.device@ == old(self)@.name_for(bytes@)
                    &&& final(self)@ == old(self)@.registered(
                        incoming.device@,
                        DataChannel::L2cap { id },
                    )
                    &&& incoming.rescan == old(self)@.rescan(final(self)@)
                } else {
                    &&& r matches Err(e)
                    &&& e@ == BleErrorView::PeripheralError("l2cap: invalid remote identity"@)
                    &&& final(self)@ == old(self)@
                },
            },
    {
        match identity {
            Err(e) => {
                let mut text: String = "l2cap identity read: ".to_owned();
                text.append(e.message.as_str());
                Err(BleError::PeripheralError(text))
            },
            Ok(bytes) => match parse_public_key(&bytes) {
                Some(key) => self.install_incoming_l2cap(Some(EndpointId { bytes: key }), id),
                None => self.install_incoming_l2cap(None, id),
            },
        }
    }

    /// The address of an endpoint, if its device has been seen.
    pub fn resolve(&self, endpoint_id: &EndpointId) -> (addr: Option<CustomAddr>)
        requires
            self.wf(),
        ensures
            match self@.device_with(prefix_of(endpoint_id@)) {
                Some(device) => addr matches Some(a) && a@ == device_addr(device),
                None => addr is None,
            },
    {
        match self.discovered.get(&prefix_from_endpoint(endpoint_id)) {
            Some(sighting) => Some(ble_custom_addr(sighting.device.as_str())),
            None => None,
        }
    }
}

/// How long a lookup waits for a device to be seen, in nanoseconds.
pub const BLE_RESOLVE_TIMEOUT: u64 = 30_000_000_000;

/// How long a lookup waits between two looks, in milliseconds.
pub const BLE_RESOLVE_POLL_MILLIS: u64 = 500;

/// What a lookup does next.
#[derive(Debug)]
pub enum LookupStep {
    /// The endpoint has this address; the lookup is over.
    Found(CustomAddr),
    /// Look again after a while.
    Wait,
    /// The lookup is over.
    GiveUp,
}

/// A lookup of an endpoint whose device has not been seen.
#[derive(Debug)]
pub struct Lookup {
    pub endpoint_id: EndpointId,
    pub since: Instant,
}

impl Lookup {
    /// Starts to wait.
    pub fn begin(endpoint_id: EndpointId, now: Instant) -> (l: Self)
        ensures
            l.endpoint_id == endpoint_id,
            l.since == now,
    {
        Lookup { endpoint_id, since: now }
    }

    /// Looks again.
    pub fn look(&self, transport: &DirectTransport, now: Instant) -> (step: LookupStep)
        requires
            transport.wf(),
        ensures
            match transport@.device_with(prefix_of(self.endpoint_id@)) {
                Some(device) => step matches LookupStep::Found(a) && a@ == device_addr(device),
                None => if now.nanos_since(self.since) >= BLE_RESOLVE_TIMEOUT {
                    step is GiveUp
                } else {
                    step is Wait
                },
            },
            step is GiveUp ==> now.nanos >= self.since.nanos + 30_000_000_000,
            step is Wait ==> now.nanos < self.since.nanos + 30_000_000_000,
    {
        match transport.resolve(&self.endpoint_id) {
            Some(addr) => LookupStep::Found(addr),
            None => if now.saturating_duration_since(self.since).nanos >= BLE_RESOLVE_TIMEOUT {
                LookupStep::GiveUp
            } else {
                LookupStep::Wait
            },
        }
    }
}

/// How a datagram leaves.
#[derive(Debug)]
pub enum DirectSend {
    /// Not at all.
    Refused(IoError),
    /// The table of channels is in use: ask to be polled again.
    Busy,
    /// The device has no channel: dial it, then send.
    Dial { device: DeviceId },
    /// Over a GATT channel.
    Gatt { id: u64 },
    /// Over an L2CAP channel.
    L2cap { id: u64 },
}

/// What becomes of a datagram that was offered to a GATT channel.
#[derive(Clone, Copy, PartialEq, Eq, Structural, Debug)]
pub enum Enqueued {
    /// The channel took it.
    Done,
    /// The channel is full: wait until it has room.
    Park,
    /// The channel is in use: hand it over in the background.
    HandOver,
}

impl DirectTransport {
    /// How a datagram for an address leaves. `in_use` says that the table of
    /// channels could not be read.
    pub fn poll_send(&self, dst: &CustomAddr, in_use: bool) -> (send: DirectSend)
        requires
            self.wf(),
        ensures
            match device_key_of(dst@) {
                Err(e) => send matches DirectSend::Refused(f) && f@ == e,
                Ok(key) => if in_use {
                    send is Busy
                } else if !self@.channels.contains_key(key) {
                    send matches DirectSend::Dial { device } && device@ == key
                } else {
                    match self@.channels[key] {
                        DataChannel::Gatt { id } => send matches DirectSend::Gatt { id: i } && i
                            == id,
                        DataChannel::L2cap { id } => send matches DirectSend::L2cap { id: i } && i
                            == id,
                    }
                },
            },
            forall|device: Seq<char>, channel: DataChannel, before: DirectView|
                !in_use && dst@ == device_addr(device) && self@ == #[trigger] before.registered(
                    device,
                    channel,
                ) ==> send == match channel {
                    DataChannel::Gatt { id } => DirectSend::Gatt { id },
                    DataChannel::L2cap { id } => DirectSend::L2cap { id },
                },
            forall|device: Seq<char>, before: DirectView|
                !in_use && dst@ == device_addr(device) && self@ == #[trigger] before.unregistered(
                    device,
                ) ==> (send matches DirectSend::Dial { device: d } && d@ == device),
    {
        proof {
            assert forall|device: Seq<char>| dst@ == #[trigger] device_addr(device) implies
                device_key_of(dst@) == Ok::<Seq<char>, IoErrorView>(device) by {
                crate::address::device_keys_survive_their_address(device);
            }
        }
        let device = match parse_custom_addr(dst) {
            Ok(name) => DeviceId { name },
            Err(e) => {
                return DirectSend::Refused(e);
            },
        };
        if in_use {
            return DirectSend::Busy;
        }
        match self.channels.get(&device) {
            None => DirectSend::Dial { device },
            Some(channel) => match *channel {
                DataChannel::Gatt { id } => DirectSend::Gatt { id },
                DataChannel::L2cap { id } => DirectSend::L2cap { id },
            },
        }
    }

    /// The channel over which the first datagram leaves after a device was
    /// dialled.
    pub fn dialled_channel(&self, device: &DeviceId) -> (r: Result<DataChannel, IoError>)
        requires
            self.wf(),
        ensures
            match r {
                Ok(channel) => self@.channels.contains_key(device@) && self@.channels[device@]
                    == channel,
                Err(e) => !self@.channels.contains_key(device@) && e@ == (IoErrorView {
                    kind: ErrorKind::Other,
                    message: "peer channel missing after ensure_connected"@,
                }),
            },
    {
        match self.channels.get(device) {
            Some(channel) => Ok(*channel),
            None => Err(
                IoError::new(ErrorKind::Other, "peer channel missing after ensure_connected"),
            ),
        }
    }
}

/// What becomes of a datagram that was offered to a GATT channel, which took
/// it, had no room, or could not be reached.
pub fn enqueue_verdict(taken: Option<bool>) -> (r: Enqueued)
    ensures
        r == match taken {
            Some(true) => Enqueued::Done,
            Some(false) => Enqueued::Park,
            None => Enqueued::HandOver,
        },
{
    match taken {
        Some(true) => Enqueued::Done,
        Some(false) => Enqueued::Park,
        None => Enqueued::HandOver,
    }
}

/// The failure to send over an L2CAP channel whose task has ended.
pub fn l2cap_closed() -> (e: BleError)
    ensures
        e@ == BleErrorView::ChannelError("l2cap send channel closed"@),
{
    BleError::ChannelError("l2cap send channel closed".to_owned())
}


/// The scan runs at a reduced duty cycle exactly while some device has a
/// channel.
pub proof fn scans_yield_to_traffic(t: DirectTransport)
    requires
        t.wf(),
    ensures
        t@.low_power == any_channel(t@.channels),
{
}

/// A device that comes and goes leaves no trace.
pub proof fn connecting_and_disconnecting_balance(
    t: DirectTransport,
    device: Seq<char>,
    channel: DataChannel,
)
    requires
        t.wf(),
        !t@.channels.contains_key(device),
    ensures
        t@.registered(device, channel).unregistered(device) == t@,
{
    assert(t@.channels.insert(device, channel).remove(device) =~= t@.channels);
}

/// Disconnecting twice is disconnecting once.
pub proof fn disconnecting_is_idempotent(t: DirectView, device: Seq<char>)
    ensures
        t.unregistered(device).unregistered(device) == t.unregistered(device),
        t.unregistered(device).rescan(t.unregistered(device).unregistered(device)) is None,
{
    assert(t.channels.remove(device).remove(device) =~= t.channels.remove(device));
}

/// A peer that was seen within the time limit is remembered, and found under
/// its key; a peer that was not is forgotten.
pub proof fn peers_are_remembered_for_a_while(
    t: DirectView,
    key: Seq<u8>,
    device: Seq<char>,
    seen: Instant,
    now: Instant,
)
    ensures
        ({
            let sighted = t.sighted(prefix_of(key), device, seen);
            let later = DirectView { discovered: remembered(sighted.discovered, now), ..sighted };
            later.device_with(prefix_of(key)) == if now.nanos_since(seen) <= DISCOVERY_TTL {
                Some(device)
            } else {
                None
            }
        }),
{
}

/// What is sent to the address under which a peer is found goes to the device
/// under which it was seen.
pub proof fn found_addresses_lead_to_their_device(
    t: DirectView,
    key: Seq<u8>,
    device: Seq<char>,
    now: Instant,
)
    ensures
        t.sighted(prefix_of(key), device, now).device_with(prefix_of(key)) == Some(device),
        device_key_of(device_addr(device)) == Ok::<Seq<char>, IoErrorView>(device),
{
    crate::address::device_keys_survive_their_address(device);
}

/// The channel that an endpoint opened takes over: answers leave over it, and
/// stray fragments of the GATT channel before it are dropped.
pub proof fn incoming_channels_take_over(t: DirectView, key: Seq<u8>, id: u64)
    ensures
        ({
            let next = t.registered(t.name_for(key), DataChannel::L2cap { id });
            &&& next.channels[t.name_for(key)] == (DataChannel::L2cap { id })
            &&& next.fragment_step(t.name_for(key)) is Discard
            &&& next.name_for(key) == t.name_for(key)
        }),
{
}

/// Some device other than this one has a channel.
pub open spec fn others_connected(t: DirectView, device: Seq<char>) -> bool {
    exists|other: Seq<char>| #[trigger] t.channels.contains_key(other) && other != device
}

/// A fragment goes to the GATT channel of its device, is dropped once the
/// device has moved on to L2CAP, and opens a channel for a device that has none.
/// Channels of other devices are not touched by a device that comes or goes.
pub proof fn fragments_find_their_channel(
    t: DirectView,
    device: Seq<char>,
    channel: DataChannel,
    other: Seq<char>,
)
    requires
        other != device,
    ensures
        ({
            let up = t.registered(device, channel);
            let down = t.unregistered(device);
            &&& up.channels.contains_key(device) && up.channels[device] == channel
            &&& match channel {
                DataChannel::Gatt { id } => up.fragment_step(device) == (FragmentStep::Feed { id }),
                DataChannel::L2cap { .. } => up.fragment_step(device) is Discard,
            }
            &&& !down.channels.contains_key(device)
            &&& down.fragment_step(device) is Open
            &&& up.fragment_step(other) == t.fragment_step(other)
            &&& down.fragment_step(other) == t.fragment_step(other)
            &&& up.channels.contains_key(other) == t.channels.contains_key(other)
            &&& down.channels.contains_key(other) == t.channels.contains_key(other)
            &&& t.channels.contains_key(other) ==> up.channels[other] == t.channels[other]
                && down.channels[other] == t.channels[other]
            &&& up == DirectView { channels: up.channels, low_power: true, ..t }
            &&& down == DirectView { channels: down.channels, low_power: down.low_power, ..t }
        }),
{
}

/// The scan runs slowly from the first channel on, and at full speed again once
/// the last one is gone; it is restarted exactly when that changes.
pub proof fn scans_slow_down_for_channels(
    t: DirectView,
    device: Seq<char>,
    channel: DataChannel,
)
    ensures
        ({
            let up = t.registered(device, channel);
            let down = t.unregistered(device);
            &&& up.low_power
            &&& down.low_power <==> others_connected(t, device)
            &&& t.rescan(up) == if t.low_power {
                None
            } else {
                Some(ScanMode::LowPower)
            }
            &&& t.rescan(down) == if t.low_power && !others_connected(t, device) {
                Some(ScanMode::LowLatency)
            } else if !t.low_power && others_connected(t, device) {
                Some(ScanMode::LowPower)
            } else {
                None
            }
            &&& t.scan_mode() is LowPower <==> t.low_power
            &&& t.scan_mode() is LowLatency <==> !t.low_power
        }),
{
    let left = t.channels.remove(device);
    if any_channel(left) {
        let other = choose|other: Seq<char>| #[trigger] left.contains_key(other);
        assert(t.channels.contains_key(other) && other != device);
    }
    if others_connected(t, device) {
        let other = choose|other: Seq<char>| #[trigger]
            t.channels.contains_key(other) && other != device;
        assert(left.contains_key(other));
    }
}

/// Each count goes up by what there is to count, through zero after the highest
/// number, and nothing else changes.
pub proof fn counts_go_up_by_one_thing(t: DirectView, len: nat)
    requires
        len <= u64::MAX,
    ensures
        ({
            let plus = |count: u64, n: nat|
                if count + n <= u64::MAX {
                    count + n
                } else {
                    count + n - u64::MAX - 1
                };
            &&& t.event_counted() == DirectView {
                counts: Counts { events: plus(t.counts.events, 1) as u64, ..t.counts },
                ..t
            }
            &&& t.discovery_counted() == DirectView {
                counts: Counts { discoveries: plus(t.counts.discoveries, 1) as u64, ..t.counts },
                ..t
            }
            &&& t.peer_counted() == DirectView {
                counts: Counts {
                    iroh_discoveries: plus(t.counts.iroh_discoveries, 1) as u64,
                    ..t.counts
                },
                ..t
            }
            &&& t.bytes_sent(len) == DirectView {
                counts: Counts { tx_bytes: plus(t.counts.tx_bytes, len) as u64, ..t.counts },
                ..t
            }
            &&& t.bytes_received(len) == DirectView {
                counts: Counts { rx_bytes: plus(t.counts.rx_bytes, len) as u64, ..t.counts },
                ..t
            }
        }),
{
}

/// A sighting is kept under its prefix, with its device and its time, in place
/// of the one before it, and for five minutes; other sightings stay. An endpoint
/// goes by the device that was seen under the first twelve bytes of its key, or
/// by a name made of its key while there is none.
pub proof fn sightings_last_for_five_minutes(
    t: DirectView,
    prefix: Seq<u8>,
    device: Seq<char>,
    seen: Instant,
    now: Instant,
    other: Seq<u8>,
    key: Seq<u8>,
)
    ensures
        ({
            let after = t.sighted(prefix, device, seen);
            let kept = remembered(t.discovered, now);
            &&& after == DirectView { discovered: after.discovered, ..t }
            &&& after.discovered.contains_key(prefix)
            &&& after.discovered[prefix].device == device
            &&& after.discovered[prefix].seen == seen
            &&& other != prefix ==> after.discovered.contains_key(other)
                == t.discovered.contains_key(other) && after.discovered[other]
                == t.discovered[other]
            &&& kept.contains_key(other) <==> t.discovered.contains_key(other) && now.nanos
                <= t.discovered[other].seen.nanos + 300_000_000_000
            &&& kept.contains_key(other) ==> kept[other] == t.discovered[other]
            &&& t.discovered.contains_key(key.take(12)) ==> t.name_for(key)
                == t.discovered[key.take(12)].device && t.device_with(key.take(12)) == Some(
                t.discovered[key.take(12)].device,
            )
            &&& !t.discovered.contains_key(key.take(12)) ==> t.name_for(key) == "l2cap-"@ + hex(key)
                && t.device_with(key.take(12)) is None
        }),
{
}

} // verus!
