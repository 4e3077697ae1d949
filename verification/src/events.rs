//! Turns what the Bluetooth stack reports into commands for the registry.

use vstd::prelude::*;

use crate::gatt::{
    carries_key, extract_prefix_from_services, no_key_before, read_answer, read_response,
};
use crate::peer::{
    commands_view, BleDevice, CommandView, DeviceId, DisconnectCause, FragmentSource, KeyPrefix,
    L2capChannel, PeerCommand, Uuid,
};
use crate::routing::{DiscoveryUpdate, TransportRouting, TransportRoutingView};
use crate::table::without_value;

verus! {

/// What is reported to this node as a central.
#[derive(Debug)]
pub enum CentralEvent {
    DeviceDiscovered(BleDevice),
    DeviceConnected { device_id: DeviceId },
    DeviceDisconnected { device_id: DeviceId, cause: DisconnectCause },
    CharacteristicNotification { device_id: DeviceId, char_uuid: Uuid, value: Vec<u8> },
    AdapterStateChanged { powered: bool },
    Restored { devices: Vec<BleDevice> },
}

/// What is reported to this node as a peripheral.
#[derive(Debug)]
pub enum PeripheralEvent {
    AdapterStateChanged { powered: bool },
    WriteRequest { client_id: DeviceId, char_uuid: Uuid, value: Vec<u8> },
    SubscriptionChanged { client_id: DeviceId, char_uuid: Uuid, subscribed: bool },
    ReadRequest { client_id: DeviceId, char_uuid: Uuid },
}

/// The prefix that the advertised services carry.
pub open spec fn advertised_prefix(services: Seq<Uuid>, prefix: KeyPrefix) -> bool {
    exists|i: int|
        0 <= i < services.len() && no_key_before(services, i) && carries_key(
            (#[trigger] services[i])@,
        ) && prefix@ == services[i]@.skip(4)
}

/// The first UUID that carries a key decides the prefix.
proof fn lemma_one_prefix(services: Seq<Uuid>, p: KeyPrefix, q: KeyPrefix)
    requires
        advertised_prefix(services, p),
        advertised_prefix(services, q),
    ensures
        p == q,
{
    let i = choose|i: int|
        0 <= i < services.len() && no_key_before(services, i) && carries_key(
            (#[trigger] services[i])@,
        ) && p@ == services[i]@.skip(4);
    let j = choose|j: int|
        0 <= j < services.len() && no_key_before(services, j) && carries_key(
            (#[trigger] services[j])@,
        ) && q@ == services[j]@.skip(4);
    if i < j {
        assert(!carries_key(services[i]@));
    } else if j < i {
        assert(!carries_key(services[j]@));
    }
    crate::peer::lemma_prefix_ext(p, q);
}

/// Services without a UUID that carries a key advertise no prefix.
pub proof fn lemma_no_prefix(services: Seq<Uuid>)
    requires
        no_key_before(services, services.len() as int),
    ensures
        forall|prefix: KeyPrefix| !#[trigger] advertised_prefix(services, prefix),
{
    assert forall|prefix: KeyPrefix| !#[trigger] advertised_prefix(services, prefix) by {
        if advertised_prefix(services, prefix) {
            let i = choose|i: int|
                0 <= i < services.len() && no_key_before(services, i) && carries_key(
                    (#[trigger] services[i])@,
                ) && prefix@ == services[i]@.skip(4);
            assert(!carries_key(services[i]@));
        }
    }
}

/// Services that advertise a prefix advertise no other.
pub proof fn lemma_some_prefix(services: Seq<Uuid>, prefix: KeyPrefix)
    requires
        advertised_prefix(services, prefix),
    ensures
        forall|p: KeyPrefix| #[trigger] advertised_prefix(services, p) ==> p == prefix,
        !no_key_before(services, services.len() as int),
{
    assert forall|p: KeyPrefix| #[trigger] advertised_prefix(services, p) implies p == prefix by {
        lemma_one_prefix(services, p, prefix);
    }
    if no_key_before(services, services.len() as int) {
        lemma_no_prefix(services);
    }
}

/// What a discovery does to the table of prefixes, and which commands follow.
pub open spec fn discovered(
    r: TransportRoutingView,
    prefix: KeyPrefix,
    device: BleDevice,
) -> (TransportRoutingView, Seq<CommandView>) {
    let noted = TransportRoutingView {
        discovered: r.discovered.insert(prefix@, device.id@),
        ..r
    };
    let advertised = CommandView::Advertised { prefix, device: device@, rssi: device.rssi };
    if r.discovered.contains_key(prefix@) && r.discovered[prefix@] != device.id@ {
        let previous = r.discovered[prefix@];
        (
            TransportRoutingView {
                discovered: without_value(noted.discovered, previous),
                tokens: without_value(noted.tokens, previous),
            },
            seq![CommandView::Forget { device_id: previous }, advertised],
        )
    } else {
        (noted, seq![advertised])
    }
}

/// The commands that follow from a report, in the order in which they go to
/// the registry. A device that advertises no key is ignored. A prefix that
/// shows up under a new device lets the previous one be forgotten first.
pub fn central_commands(routing: &mut TransportRouting, event: CentralEvent) -> (commands: Vec<
    PeerCommand,
>)
    requires
        old(routing).wf(),
    ensures
        final(routing).wf(),
        match event {
            CentralEvent::DeviceDiscovered(device) => {
                &&& forall|prefix: KeyPrefix| #[trigger]
                    advertised_prefix(device.services@, prefix) ==> (
                    final(routing)@,
                    commands_view(commands@),
                ) == discovered(old(routing)@, prefix, device)
                &&& no_key_before(device.services@, device.services@.len() as int)
                    ==> final(routing)@ == old(routing)@ && commands@.len() == 0
            },
            CentralEvent::DeviceConnected { device_id } => final(routing)@ == old(routing)@
                && commands_view(commands@) == seq![
                CommandView::CentralConnected { device_id: device_id@ },
            ],
            CentralEvent::DeviceDisconnected { device_id, cause } => final(routing)@
                == old(routing)@ && commands_view(commands@) == seq![
                CommandView::CentralDisconnected { device_id: device_id@, cause },
            ],
            CentralEvent::CharacteristicNotification { device_id, value, .. } => final(routing)@
                == old(routing)@ && commands_view(commands@) == seq![
                CommandView::InboundGattFragment {
                    device_id: device_id@,
                    source: FragmentSource::CentralReceivedP2c,
                    bytes: value@,
                },
            ],
            CentralEvent::AdapterStateChanged { powered } => final(routing)@ == old(routing)@
                && commands_view(commands@) == seq![CommandView::AdapterStateChanged { powered }],
            CentralEvent::Restored { devices } => final(routing)@ == old(routing)@ && commands_view(
                commands@,
            ) == seq![
                CommandView::RestoreFromAdapter {
                    devices: Seq::new(devices@.len(), |i: int| devices@[i]@),
                },
            ],
        },
{
    let mut commands: Vec<PeerCommand> = Vec::new();
    let ghost before = routing@;
    match event {
        CentralEvent::DeviceDiscovered(device) => {
            match extract_prefix_from_services(device.services.as_slice()) {
                None => {
                    proof {
                        lemma_no_prefix(device.services@);
                    }
                },
                Some(prefix) => {
                    assert(advertised_prefix(device.services@, prefix));
                    let ghost dev = device;
                    let rssi = device.rssi;
                    match routing.note_discovery(prefix, device.id.clone()) {
                        DiscoveryUpdate::Unchanged | DiscoveryUpdate::New => {},
                        DiscoveryUpdate::Replaced { previous } => {
                            routing.forget_device(&previous);
                            commands.push(PeerCommand::Forget { device_id: previous });
                        },
                    }
                    commands.push(PeerCommand::Advertised { prefix, device, rssi });
                    proof {
                        assert((routing@, commands_view(commands@)) == discovered(
                            before,
                            prefix,
                            dev,
                        )) by {
                            assert(commands_view(commands@) =~= discovered(before, prefix, dev).1);
                        }
                        lemma_some_prefix(dev.services@, prefix);
                    }
                },
            }
        },
        CentralEvent::DeviceConnected { device_id } => {
            commands.push(PeerCommand::CentralConnected { device_id });
        },
        CentralEvent::DeviceDisconnected { device_id, cause } => {
            commands.push(PeerCommand::CentralDisconnected { device_id, cause });
        },
        CentralEvent::CharacteristicNotification { device_id, value, .. } => {
            commands.push(
                PeerCommand::InboundGattFragment {
                    device_id,
                    source: FragmentSource::CentralReceivedP2c,
                    bytes: value,
                },
            );
        },
        CentralEvent::AdapterStateChanged { powered } => {
            commands.push(PeerCommand::AdapterStateChanged { powered });
        },
        CentralEvent::Restored { devices } => {
            commands.push(PeerCommand::RestoreFromAdapter { devices });
        },
    }
    commands
}

/// What to do with a report to the peripheral.
#[derive(Debug)]
pub enum PeripheralReaction {
    /// Hand a command to the registry; if the report asks for an
    /// acknowledgement, give it.
    Forward { command: PeerCommand, acknowledge: bool },
    /// Answer a read.
    Respond(Vec<u8>),
    /// Nothing.
    Ignore,
}

/// What to do with a report to the peripheral, which listens for L2CAP under
/// the given PSM, if it does.
pub fn peripheral_reaction(event: PeripheralEvent, psm: Option<u16>) -> (r: PeripheralReaction)
    ensures
        match event {
            PeripheralEvent::AdapterStateChanged { powered } => r
                matches PeripheralReaction::Forward { command, acknowledge } && !acknowledge
                && command@ == (CommandView::AdapterStateChanged { powered }),
            PeripheralEvent::WriteRequest { client_id, value, .. } => r
                matches PeripheralReaction::Forward { command, acknowledge } && acknowledge
                && command@ == (CommandView::InboundGattFragment {
                device_id: client_id@,
                source: FragmentSource::PeripheralReceivedC2p,
                bytes: value@,
            }),
            PeripheralEvent::SubscriptionChanged { client_id, char_uuid, subscribed } =>
                if subscribed {
                    r matches PeripheralReaction::Forward { command, acknowledge } && !acknowledge
                        && command@ == (CommandView::PeripheralClientSubscribed {
                        client_id: client_id@,
                        char_uuid,
                    })
                } else {
                    r is Ignore
                },
            PeripheralEvent::ReadRequest { char_uuid, .. } => r matches PeripheralReaction::Respond(
                value,
            ) && value@ == read_answer(char_uuid@, psm),
        },
{
    match event {
        PeripheralEvent::AdapterStateChanged { powered } => PeripheralReaction::Forward {
            command: PeerCommand::AdapterStateChanged { powered },
            acknowledge: false,
        },
        PeripheralEvent::WriteRequest { client_id, value, .. } => PeripheralReaction::Forward {
            command: PeerCommand::InboundGattFragment {
                device_id: client_id,
                source: FragmentSource::PeripheralReceivedC2p,
                bytes: value,
            },
            acknowledge: true,
        },
        PeripheralEvent::SubscriptionChanged { client_id, char_uuid, subscribed } => {
            if subscribed {
                PeripheralReaction::Forward {
                    command: PeerCommand::PeripheralClientSubscribed { client_id, char_uuid },
                    acknowledge: false,
                }
            } else {
                PeripheralReaction::Ignore
            }
        },
        PeripheralEvent::ReadRequest { char_uuid, .. } => PeripheralReaction::Respond(
            read_response(&char_uuid, psm),
        ),
    }
}

/// The command that follows from an attempt to accept an L2CAP channel. A
/// failed attempt is passed over.
pub fn accept_command(accepted: Option<(DeviceId, L2capChannel)>) -> (r: Option<PeerCommand>)
    ensures
        match accepted {
            Some((device_id, channel)) => r matches Some(command) && command@ == (
            CommandView::InboundL2capChannel { device_id: device_id@, channel }),
            None => r is None,
        },
{
    match accepted {
        Some((device_id, channel)) => Some(PeerCommand::InboundL2capChannel { device_id, channel }),
        None => None,
    }
}

/// A device that is seen under a prefix is the one that the prefix leads to from
/// then on, and its advertisement is passed on. If the prefix led to another
/// device before, that one is forgotten first, and no prefix and no token leads
/// to it any more. What leads to other devices stays.
pub proof fn prefixes_lead_to_the_last_device_seen(
    r: TransportRoutingView,
    prefix: KeyPrefix,
    device: BleDevice,
    other: Seq<u8>,
    token: u64,
)
    ensures
        ({
            let (after, commands) = discovered(r, prefix, device);
            let known = r.discovered.contains_key(prefix@);
            let previous = r.discovered[prefix@];
            let moved = known && previous != device.id@;
            let advertised = CommandView::Advertised { prefix, device: device@, rssi: device.rssi };
            &&& after.discovered.contains_key(prefix@)
            &&& after.discovered[prefix@] == device.id@
            &&& !moved ==> commands == seq![advertised] && after.tokens == r.tokens
            &&& moved ==> commands == seq![
                CommandView::Forget { device_id: previous },
                advertised,
            ]
            &&& other != prefix@ ==> {
                let gone = moved && r.discovered.contains_key(other) && r.discovered[other]
                    == previous;
                &&& after.discovered.contains_key(other) == (r.discovered.contains_key(other)
                    && !gone)
                &&& after.discovered.contains_key(other) ==> after.discovered[other]
                    == r.discovered[other]
            }
            &&& after.tokens.contains_key(token) == (r.tokens.contains_key(token) && !(moved
                && r.tokens[token] == previous))
            &&& after.tokens.contains_key(token) ==> after.tokens[token] == r.tokens[token]
        }),
{
}

/// A device advertises the prefix that its first UUID carries that starts with
/// the letters "iro" and a zero: the twelve bytes after them. A device without
/// such a UUID advertises none.
pub proof fn the_first_key_uuid_is_the_prefix(services: Seq<Uuid>, prefix: KeyPrefix, k: int)
    requires
        0 <= k <= services.len(),
        forall|i: int|
            0 <= i < k ==> !((#[trigger] services[i])@[0] == 0x69 && services[i]@[1] == 0x72
                && services[i]@[2] == 0x6f && services[i]@[3] == 0),
    ensures
        k == services.len() ==> !advertised_prefix(services, prefix),
        k < services.len() && services[k]@[0] == 0x69 && services[k]@[1] == 0x72 && services[k]@[2]
            == 0x6f && services[k]@[3] == 0 ==> (advertised_prefix(services, prefix) <==> (
        forall|j: int| 0 <= j < 12 ==> #[trigger] prefix@[j] == services[k]@[j + 4])),
{
    let zeros = Seq::new(32, |i: int| 0u8);
    assert forall|i: int| 0 <= i < k implies !carries_key((#[trigger] services[i])@) by {
        crate::gatt::key_uuids_start_with_the_name(services[i]@, zeros);
    }
    if k == services.len() {
        lemma_no_prefix(services);
    } else if services[k]@[0] == 0x69 && services[k]@[1] == 0x72 && services[k]@[2] == 0x6f
        && services[k]@[3] == 0 {
        crate::gatt::key_uuids_start_with_the_name(services[k]@, zeros);
        assert(no_key_before(services, k));
        assert(carries_key(services[k]@));
        if advertised_prefix(services, prefix) {
            let i = choose|i: int|
                0 <= i < services.len() && no_key_before(services, i) && carries_key(
                    (#[trigger] services[i])@,
                ) && prefix@ == services[i]@.skip(4);
            if i < k {
                assert(!carries_key(services[i]@));
            } else if k < i {
                assert(!carries_key(services[k]@));
            }
        }
        if forall|j: int| 0 <= j < 12 ==> #[trigger] prefix@[j] == services[k]@[j + 4] {
            assert(prefix@ =~= services[k]@.skip(4));
        }
    }
}

} // verus!
