use iroh_ble_transport::channel::PipeHandles;
use iroh_ble_transport::driver::IncomingPacket;
use iroh_ble_transport::events::{
    accept_command, central_commands, peripheral_reaction, CentralEvent, PeripheralEvent,
    PeripheralReaction,
};
use iroh_ble_transport::gatt::{IROH_C2P_CHAR_UUID, IROH_P2C_CHAR_UUID, IROH_VERSION_CHAR_UUID};
use iroh_ble_transport::peer::{
    BleDevice, ConnectPath, ConnectRole, DeviceId, DisconnectCause, DisconnectReason,
    FragmentSource, L2capChannel, PeerAction, PeerCommand, PeerEntry, PeerPhase, PendingSend,
    SwapSender, Uuid,
};
use iroh_ble_transport::routing::TransportRouting;
use iroh_ble_transport::routing_v2::StableConnId;
use tokio::sync::mpsc::channel;

#[test]
fn peer_entry_defaults_to_unknown() {
    let e = PeerEntry::new(DeviceId::new("test"));
    assert!(matches!(e.phase, PeerPhase::Unknown));
    assert_eq!(e.tx_gen, 0);
}

#[test]
fn disconnect_cause_maps_to_reason() {
    assert_eq!(
        DisconnectReason::from(DisconnectCause::Gatt133),
        DisconnectReason::Gatt133
    );
}

#[test]
fn every_disconnect_cause_has_its_reason() {
    let pairs = [
        (DisconnectCause::LocalClose, DisconnectReason::LocalClose),
        (DisconnectCause::RemoteClose, DisconnectReason::RemoteClose),
        (DisconnectCause::LinkLoss, DisconnectReason::LinkLoss),
        (DisconnectCause::AdapterOff, DisconnectReason::AdapterOff),
        (DisconnectCause::Timeout, DisconnectReason::Timeout),
        (DisconnectCause::Unknown(-3), DisconnectReason::Unknown(-3)),
    ];
    for (cause, reason) in pairs {
        assert_eq!(DisconnectReason::from(cause), reason);
    }
}

#[test]
fn peer_entry_defaults_to_central_role_and_no_pipe() {
    let e = PeerEntry::new(DeviceId::new("test"));
    assert_eq!(e.role, ConnectRole::Central);
    assert!(e.pipe.is_none());
    assert!(e.rx_backlog.is_empty());
}

#[test]
fn data_pipe_variants_are_constructible() {
    let (outbound_tx, _) = channel::<PendingSend>(1);
    let (inbound_tx, _) = channel::<Vec<u8>>(1);
    let _cmd = PeerCommand::DataPipeReady {
        device_id: DeviceId::new("x"),
        tx_gen: 0,
        handles: PipeHandles {
            outbound_tx,
            inbound_tx,
            swap_tx: SwapSender { id: 1 },
        },
    };
    let _act = PeerAction::StartDataPipe {
        device_id: DeviceId::new("x"),
        tx_gen: 0,
        role: ConnectRole::Central,
        path: ConnectPath::Gatt,
        l2cap_channel: None,
    };
}

#[test]
fn incoming_packet_carries_device_id() {
    let pkt = IncomingPacket {
        device_id: DeviceId::new("test"),
        stable_conn_id: StableConnId::for_test(1),
        data: b"x".to_vec(),
    };
    assert_eq!(pkt.device_id, DeviceId::new("test"));
}

fn seen(name: &str, services: Vec<Uuid>) -> CentralEvent {
    CentralEvent::DeviceDiscovered(BleDevice {
        id: DeviceId::new(name),
        name: None,
        rssi: Some(-40),
        services,
    })
}

fn key_uuid(b: u8) -> Uuid {
    let mut bytes = [b; 16];
    bytes[..4].copy_from_slice(&[0x69, 0x72, 0x6f, 0x00]);
    Uuid { bytes }
}

#[test]
fn devices_without_a_key_are_passed_over() {
    let mut routing = TransportRouting::new();
    assert!(central_commands(&mut routing, seen("x", vec![])).is_empty());
    let other = Uuid { bytes: [7; 16] };
    assert!(central_commands(&mut routing, seen("x", vec![other])).is_empty());
}

#[test]
fn moved_peers_are_forgotten_before_they_advertise() {
    let mut routing = TransportRouting::new();
    let first = central_commands(&mut routing, seen("old", vec![key_uuid(3)]));
    assert!(matches!(
        first.as_slice(),
        [PeerCommand::Advertised { prefix, rssi: Some(-40), .. }] if *prefix == [3; 12]
    ));
    let second = central_commands(&mut routing, seen("new", vec![key_uuid(3)]));
    assert!(matches!(
        second.as_slice(),
        [PeerCommand::Forget { device_id }, PeerCommand::Advertised { device, .. }]
            if device_id.as_str() == "old" && device.id.as_str() == "new"
    ));
}

#[test]
fn notifications_become_fragments() {
    let mut routing = TransportRouting::new();
    let commands = central_commands(
        &mut routing,
        CentralEvent::CharacteristicNotification {
            device_id: DeviceId::new("p"),
            char_uuid: Uuid {
                bytes: IROH_P2C_CHAR_UUID,
            },
            value: b"frag".to_vec(),
        },
    );
    assert!(matches!(
        commands.as_slice(),
        [PeerCommand::InboundGattFragment { source: FragmentSource::CentralReceivedP2c, bytes, .. }]
            if bytes == b"frag"
    ));
}

#[test]
fn peripheral_reports_are_forwarded_or_answered() {
    let write = peripheral_reaction(
        PeripheralEvent::WriteRequest {
            client_id: DeviceId::new("c"),
            char_uuid: Uuid {
                bytes: IROH_C2P_CHAR_UUID,
            },
            value: b"w".to_vec(),
        },
        None,
    );
    assert!(matches!(
        write,
        PeripheralReaction::Forward {
            command: PeerCommand::InboundGattFragment {
                source: FragmentSource::PeripheralReceivedC2p,
                ..
            },
            acknowledge: true,
        }
    ));
    let unsubscribed = peripheral_reaction(
        PeripheralEvent::SubscriptionChanged {
            client_id: DeviceId::new("c"),
            char_uuid: Uuid {
                bytes: IROH_P2C_CHAR_UUID,
            },
            subscribed: false,
        },
        None,
    );
    assert!(matches!(unsubscribed, PeripheralReaction::Ignore));
    let read = peripheral_reaction(
        PeripheralEvent::ReadRequest {
            client_id: DeviceId::new("c"),
            char_uuid: Uuid {
                bytes: IROH_VERSION_CHAR_UUID,
            },
        },
        None,
    );
    assert!(matches!(read, PeripheralReaction::Respond(v) if v == [1]));
}

#[test]
fn failed_accepts_are_passed_over() {
    assert!(accept_command(None).is_none());
    let accepted = accept_command(Some((DeviceId::new("d"), L2capChannel { id: 4 })));
    assert!(matches!(
        accepted,
        Some(PeerCommand::InboundL2capChannel { channel: L2capChannel { id: 4 }, .. })
    ));
}
