use iroh_ble_transport::address::parse_custom_addr;
use iroh_ble_transport::dial::{ConnectRetry, DialEvent, DialStage};
use iroh_ble_transport::direct::{
    enqueue_verdict, l2cap_closed, DataChannel, DirectAnswer, DirectReaction, DirectSend,
    DirectTransport, Enqueued, FragmentStep, Lookup, LookupStep, ScanMode, TransportStats,
    BLE_RESOLVE_TIMEOUT, DISCOVERY_TTL,
};
use iroh_ble_transport::address::ble_custom_addr;
use iroh_ble_transport::error::{BleError, IoError, StackError};
use iroh_ble_transport::events::{CentralEvent, PeripheralEvent};
use iroh_ble_transport::gatt::{iroh_key_uuid, IROH_C2P_CHAR_UUID, IROH_P2C_CHAR_UUID};
use iroh_ble_transport::keys::endpoint_of_secret;
use iroh_ble_transport::l2cap::read_identity;
use iroh_ble_transport::peer::{
    BleDevice, ConnectPath, DeviceId, DisconnectCause, EndpointId, ErrorKind, Uuid,
};
use iroh_ble_transport::routing::CustomAddr;
use iroh_ble_transport::time::{Duration, Instant};

const START: u64 = 1_000_000_000_000;

fn at(nanos: u64) -> Instant {
    Instant::from_nanos(START + nanos)
}

fn dev(name: &str) -> DeviceId {
    DeviceId::new(name)
}

fn key(seed: u8) -> EndpointId {
    endpoint_of_secret(&[seed; 32])
}

fn transport() -> DirectTransport {
    DirectTransport::new(key(1))
}

fn seen(name: &str, peer: &EndpointId) -> CentralEvent {
    CentralEvent::DeviceDiscovered(BleDevice {
        id: dev(name),
        name: None,
        rssi: None,
        services: vec![Uuid { bytes: [3; 16] }, iroh_key_uuid(peer)],
    })
}

fn notification(name: &str, uuid: [u8; 16], value: &[u8]) -> CentralEvent {
    CentralEvent::CharacteristicNotification {
        device_id: dev(name),
        char_uuid: Uuid { bytes: uuid },
        value: value.to_vec(),
    }
}

#[test]
fn first_channel_slows_the_scan_and_last_speeds_it_up() {
    let mut t = transport();
    assert_eq!(
        t.register_peer_channel(dev("a"), DataChannel::Gatt { id: 1 }),
        Some(ScanMode::LowPower)
    );
    assert_eq!(
        t.register_peer_channel(dev("b"), DataChannel::L2cap { id: 2 }),
        None
    );
    assert!(t.is_connected(&dev("a")));
    assert_eq!(t.unregister_peer(&dev("a")), None);
    assert!(!t.is_connected(&dev("a")));
    assert_eq!(t.unregister_peer(&dev("b")), Some(ScanMode::LowLatency));
    assert_eq!(t.unregister_peer(&dev("b")), None);
}

#[test]
fn discovered_peers_resolve_to_their_device() {
    let mut t = transport();
    let peer = key(9);
    assert!(t.resolve(&peer).is_none());
    let reaction = t.handle_central_event(&seen("AA:BB", &peer), at(0));
    assert_eq!(reaction, DirectReaction::Nothing);
    let addr = t.resolve(&peer).unwrap();
    assert_eq!(parse_custom_addr(&addr).unwrap(), "AA:BB");
    assert!(matches!(
        t.poll_send(&addr, false),
        DirectSend::Dial { device } if device == dev("AA:BB")
    ));
}

#[test]
fn peers_are_forgotten_after_five_minutes() {
    let mut t = transport();
    let old = key(2);
    let fresh = key(3);
    t.handle_central_event(&seen("old", &old), at(0));
    t.handle_central_event(&seen("fresh", &fresh), at(1));
    let report = t.health_check(t.stats(), at(DISCOVERY_TTL + 1));
    assert_eq!(report.discovered_peers, 2);
    assert_eq!(report.discoveries, 2);
    assert_eq!(report.iroh_discoveries, 2);
    assert!(t.resolve(&old).is_none());
    assert!(t.resolve(&fresh).is_some());
}

#[test]
fn datagrams_are_counted_with_their_frames() {
    let mut t = transport();
    t.count_datagram_sent(4);
    t.count_datagram_received(0);
    t.count_datagram_received(1472);
    assert_eq!(t.stats().tx_bytes, 6);
    assert_eq!(t.stats().rx_bytes, 2 + 1474);
}

#[test]
fn health_checks_count_from_the_last_one() {
    let mut t = transport();
    t.count_sent(10);
    t.count_retransmit();
    t.handle_central_event(&notification("x", IROH_P2C_CHAR_UUID, b"abc"), at(0));
    let last = TransportStats {
        tx_bytes: 4,
        rx_bytes: 1,
    };
    let report = t.health_check(last, at(1));
    assert_eq!(report.tx_bytes, 6);
    assert_eq!(report.rx_bytes, 2);
    assert_eq!(report.retransmits, 1);
    assert_eq!(report.mode, ScanMode::LowLatency);
    assert_eq!(t.health_check(last, at(2)).retransmits, 0);
    t.register_peer_channel(dev("x"), DataChannel::Gatt { id: 1 });
    let report = t.health_check(t.stats(), at(3));
    assert_eq!(report.mode, ScanMode::LowPower);
    assert_eq!(report.peer_channels, 1);
    assert_eq!(report.tx_bytes, 0);
}

#[test]
fn fragments_open_feed_or_are_discarded() {
    let mut t = transport();
    let event = notification("x", IROH_P2C_CHAR_UUID, b"abc");
    assert_eq!(
        t.handle_central_event(&event, at(0)),
        DirectReaction::Fragment(FragmentStep::Open)
    );
    t.register_peer_channel(dev("x"), DataChannel::Gatt { id: 7 });
    assert_eq!(
        t.handle_central_event(&event, at(0)),
        DirectReaction::Fragment(FragmentStep::Feed { id: 7 })
    );
    t.register_peer_channel(dev("x"), DataChannel::L2cap { id: 8 });
    assert_eq!(
        t.handle_central_event(&event, at(0)),
        DirectReaction::Fragment(FragmentStep::Discard)
    );
    assert_eq!(t.stats().rx_bytes, 9);
}

#[test]
fn other_notifications_are_ignored() {
    let mut t = transport();
    for event in [
        notification("x", IROH_C2P_CHAR_UUID, b"abc"),
        notification("x", IROH_P2C_CHAR_UUID, b""),
        CentralEvent::DeviceConnected { device_id: dev("x") },
    ] {
        assert_eq!(
            t.handle_central_event(&event, at(0)),
            DirectReaction::Nothing
        );
    }
    assert_eq!(t.stats().rx_bytes, 0);
}

#[test]
fn disconnected_devices_lose_their_channel() {
    let mut t = transport();
    t.register_peer_channel(dev("x"), DataChannel::Gatt { id: 1 });
    let gone = CentralEvent::DeviceDisconnected {
        device_id: dev("x"),
        cause: DisconnectCause::LinkLoss,
    };
    assert_eq!(
        t.handle_central_event(&gone, at(0)),
        DirectReaction::Rescan(ScanMode::LowLatency)
    );
    assert!(!t.is_connected(&dev("x")));
    assert_eq!(t.handle_central_event(&gone, at(0)), DirectReaction::Nothing);
}

#[test]
fn writes_are_acknowledged_and_reads_are_empty() {
    let mut t = transport();
    let write = |uuid: [u8; 16], value: &[u8]| PeripheralEvent::WriteRequest {
        client_id: dev("c"),
        char_uuid: Uuid { bytes: uuid },
        value: value.to_vec(),
    };
    assert_eq!(
        t.handle_peripheral_event(&write(IROH_C2P_CHAR_UUID, b"hi")),
        (Some(FragmentStep::Open), DirectAnswer::Acknowledge)
    );
    assert_eq!(
        t.handle_peripheral_event(&write(IROH_P2C_CHAR_UUID, b"hi")),
        (None, DirectAnswer::Acknowledge)
    );
    assert_eq!(t.stats().rx_bytes, 2);
    let read = PeripheralEvent::ReadRequest {
        client_id: dev("c"),
        char_uuid: Uuid { bytes: [0; 16] },
    };
    assert_eq!(
        t.handle_peripheral_event(&read),
        (None, DirectAnswer::EmptyValue)
    );
    assert_eq!(
        t.handle_peripheral_event(&PeripheralEvent::AdapterStateChanged { powered: true }),
        (None, DirectAnswer::Nothing)
    );
}

#[test]
fn sends_leave_over_the_channel_there_is() {
    let mut t = transport();
    let addr = ble_custom_addr("x");
    assert!(matches!(t.poll_send(&addr, true), DirectSend::Busy));
    t.register_peer_channel(dev("x"), DataChannel::Gatt { id: 3 });
    assert!(matches!(t.poll_send(&addr, false), DirectSend::Gatt { id: 3 }));
    t.register_peer_channel(dev("x"), DataChannel::L2cap { id: 4 });
    assert!(matches!(t.poll_send(&addr, false), DirectSend::L2cap { id: 4 }));
    let wrong = CustomAddr {
        id: 1,
        data: b"x".to_vec(),
    };
    assert!(matches!(
        t.poll_send(&wrong, true),
        DirectSend::Refused(e) if e.message == "not a BLE transport address"
    ));
    assert_eq!(enqueue_verdict(Some(true)), Enqueued::Done);
    assert_eq!(enqueue_verdict(Some(false)), Enqueued::Park);
    assert_eq!(enqueue_verdict(None), Enqueued::HandOver);
    assert_eq!(
        l2cap_closed().message(),
        "Channel error: l2cap send channel closed"
    );
}

#[test]
fn dialled_devices_have_a_channel() {
    let mut t = transport();
    let missing = t.dialled_channel(&dev("x")).unwrap_err();
    assert_eq!(missing.kind, ErrorKind::Other);
    assert_eq!(missing.message, "peer channel missing after ensure_connected");
    t.register_peer_channel(dev("x"), DataChannel::L2cap { id: 4 });
    assert_eq!(
        t.dialled_channel(&dev("x")).unwrap(),
        DataChannel::L2cap { id: 4 }
    );
}

#[test]
fn incoming_channels_are_kept_under_the_device() {
    let mut t = transport();
    let peer = key(5);
    t.handle_central_event(&seen("AA", &peer), at(0));
    t.register_peer_channel(dev("AA"), DataChannel::Gatt { id: 1 });
    let identity = read_identity(peer.as_bytes(), false);
    let incoming = t.handle_incoming_l2cap(identity, 2).unwrap();
    assert_eq!(incoming.device, dev("AA"));
    assert_eq!(incoming.rescan, None);
    assert!(matches!(
        t.poll_send(&ble_custom_addr("AA"), false),
        DirectSend::L2cap { id: 2 }
    ));
}

#[test]
fn unknown_endpoints_get_a_name_from_their_key() {
    let mut t = transport();
    let peer = key(6);
    let incoming = t.handle_incoming_l2cap(Ok(*peer.as_bytes()), 2).unwrap();
    let hex: String = peer.as_bytes().iter().map(|b| format!("{b:02x}")).collect();
    assert_eq!(incoming.device.as_str(), format!("l2cap-{hex}"));
    assert_eq!(incoming.rescan, Some(ScanMode::LowPower));
}

#[test]
fn invalid_identities_are_refused() {
    let mut t = transport();
    let short = t.handle_incoming_l2cap(read_identity(&[1; 5], false), 1).unwrap_err();
    assert_eq!(
        short.message(),
        "Peripheral role error: l2cap identity read: early eof"
    );
    let late = t
        .handle_incoming_l2cap(Err(IoError::new(ErrorKind::TimedOut, "late")), 1)
        .unwrap_err();
    assert_eq!(
        late.message(),
        "Peripheral role error: l2cap identity read: late"
    );
    let off_curve = (0..=255u8)
        .map(|b| [b; 32])
        .find(|bytes| iroh_base::PublicKey::from_bytes(bytes).is_err())
        .expect("some bytes are no curve point");
    let invalid = t.handle_incoming_l2cap(Ok(off_curve), 1).unwrap_err();
    assert_eq!(
        invalid.message(),
        "Peripheral role error: l2cap: invalid remote identity"
    );
    assert!(t.install_incoming_l2cap(None, 1).is_err());
    assert!(t.install_incoming_l2cap(Some(key(4)), 1).is_ok());
}

#[test]
fn lookups_wait_thirty_seconds() {
    let mut t = transport();
    let peer = key(7);
    let lookup = Lookup::begin(peer, at(0));
    assert!(matches!(lookup.look(&t, at(500_000_000)), LookupStep::Wait));
    assert!(matches!(
        lookup.look(&t, at(BLE_RESOLVE_TIMEOUT)),
        LookupStep::GiveUp
    ));
    t.handle_central_event(&seen("late", &peer), at(1));
    assert!(matches!(
        lookup.look(&t, at(BLE_RESOLVE_TIMEOUT)),
        LookupStep::Found(addr) if addr.data == b"late"
    ));
}

fn dial(events: Vec<DialEvent>) -> Result<DialStage, BleError> {
    let mut stage = DialStage::Connect;
    for event in events {
        stage = stage.on_event(event)?;
    }
    Ok(stage)
}

#[test]
fn dialling_prefers_l2cap() {
    let stage = dial(vec![
        DialEvent::Done,
        DialEvent::Done,
        DialEvent::Value(vec![1]),
        DialEvent::Value(vec![0x80, 0]),
    ]);
    assert_eq!(stage.unwrap(), DialStage::OpenL2cap { psm: 0x80 });
    assert_eq!(
        DialStage::Introduce.on_event(DialEvent::Done).unwrap(),
        DialStage::Ready {
            path: ConnectPath::L2cap
        }
    );
}

#[test]
fn dialling_falls_back_to_gatt() {
    for event in [
        DialEvent::Value(vec![0, 0]),
        DialEvent::Value(vec![]),
        DialEvent::Failed(StackError::Timeout),
    ] {
        assert_eq!(
            DialStage::ReadPsm.on_event(event).unwrap(),
            DialStage::Subscribe
        );
    }
    for stage in [DialStage::OpenL2cap { psm: 1 }, DialStage::Introduce] {
        assert_eq!(
            stage.on_event(DialEvent::Failed(StackError::Timeout)).unwrap(),
            DialStage::Subscribe
        );
    }
    assert_eq!(
        DialStage::Subscribe.on_event(DialEvent::Done).unwrap(),
        DialStage::Ready {
            path: ConnectPath::Gatt
        }
    );
}

#[test]
fn dialling_checks_the_version() {
    let empty = DialStage::ReadVersion
        .on_event(DialEvent::Value(vec![]))
        .unwrap_err();
    assert_eq!(empty.message(), "GATT error: empty version characteristic");
    let other = DialStage::ReadVersion
        .on_event(DialEvent::Value(vec![2]))
        .unwrap_err();
    assert_eq!(
        other.message(),
        "protocol version mismatch: local=1, remote=2"
    );
    assert!(matches!(
        dial(vec![DialEvent::Failed(StackError::Timeout)]),
        Err(BleError::Timeout)
    ));
}

#[test]
fn transient_errors_are_retried_twice() {
    let mut retry = ConnectRetry::begin();
    assert_eq!(
        retry.after_failure(BleError::Timeout).unwrap(),
        Duration::from_millis(200)
    );
    assert_eq!(
        retry
            .after_failure(BleError::GattBusy("x".to_string()))
            .unwrap(),
        Duration::from_millis(400)
    );
    let last = retry
        .after_failure(BleError::GattError("boom".to_string()))
        .unwrap_err();
    assert_eq!(last.message, "GATT error: boom");
    assert_eq!(last.kind, ErrorKind::Other);
}

#[test]
fn other_errors_are_final() {
    let mut retry = ConnectRetry::begin();
    let e = retry
        .after_failure(BleError::DeviceNotFound("d".to_string()))
        .unwrap_err();
    assert_eq!(e.message, "Device not found: d");
}
