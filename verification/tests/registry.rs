use std::collections::HashSet;

use iroh_ble_transport::channel::PipeHandles;
use iroh_ble_transport::gatt::{IROH_C2P_CHAR_UUID, IROH_P2C_CHAR_UUID};
use iroh_ble_transport::keys::{endpoint_of_secret, prefix_from_endpoint};
use iroh_ble_transport::peer::{
    BleDevice, ChannelHandle, ConnectPath, ConnectRole, DeadReason, DeviceId, DisconnectCause,
    DisconnectReason, EndpointId, ErrorKind, FragmentSource, KeyPrefix, L2capChannel, PeerAction,
    PeerCommand, PeerEntry, PeerPhase, PendingSend, SwapSender, Uuid, WakerId,
};
use iroh_ble_transport::registry::{PhaseKind, Registry};
use iroh_ble_transport::time::{Clock, Duration, Instant, SystemTime};
use iroh_ble_transport::transport::L2capPolicy;
use tokio::sync::mpsc::channel;

const SECOND: u64 = 1_000_000_000;

fn now() -> Instant {
    Instant::from_nanos(100_000 * SECOND)
}

fn before(secs: u64) -> Instant {
    Instant::from_nanos((100_000 - secs) * SECOND)
}

fn later(secs: u64) -> Instant {
    Instant::from_nanos((100_000 + secs) * SECOND)
}

fn device(name: &str) -> DeviceId {
    DeviceId::new(name)
}

fn copy(device: &BleDevice) -> BleDevice {
    BleDevice {
        id: device.id.clone(),
        name: device.name.clone(),
        rssi: device.rssi,
        services: device.services.clone(),
    }
}

fn endpoint(secret: [u8; 32]) -> EndpointId {
    endpoint_of_secret(&secret)
}

fn noop_waker() -> WakerId {
    WakerId { id: 0 }
}

fn handle(reg: &mut Registry, cmd: PeerCommand) -> Vec<PeerAction> {
    let clock = Clock {
        now: now(),
        wall: SystemTime { nanos: 7 * SECOND },
    };
    assert!(reg.can_handle(&cmd, clock));
    reg.handle(cmd, clock)
}

fn peer<'a>(reg: &'a Registry, id: &DeviceId) -> &'a PeerEntry {
    reg.peer(id).expect("known peer")
}

fn edit(reg: &mut Registry, id: &DeviceId, change: impl FnOnce(&mut PeerEntry)) {
    let mut entry = reg
        .insert_peer(PeerEntry::new(id.clone()))
        .expect("known peer");
    change(&mut entry);
    reg.insert_peer(entry);
}

#[test]
fn registry_starts_empty() {
    let reg = Registry::new_for_test();
    assert!(reg.peer(&device("nobody")).is_none());
}

#[test]
fn advertised_new_peer_creates_discovered_entry() {
    let mut reg = Registry::new_for_test();
    let dev = BleDevice {
        id: device("dev-1"),
        name: None,
        rssi: Some(-60),
        services: vec![],
    };
    let actions = handle(&mut reg, PeerCommand::Advertised {
        prefix: [1u8; 12],
        device: copy(&dev),
        rssi: Some(-60),
    });
    assert!(actions.is_empty(), "no actions for first advertisement");
    let entry = reg.peer(&dev.id).unwrap();
    assert!(matches!(entry.phase, PeerPhase::Discovered { .. }));
    assert_eq!(entry.device_id, dev.id);
}

#[test]
fn advertised_duplicate_in_connecting_is_noop() {
    let mut reg = Registry::new_for_test();
    let dev = BleDevice {
        id: device("dev-2"),
        name: None,
        rssi: None,
        services: vec![],
    };
    handle(&mut reg, PeerCommand::Advertised {
        prefix: [2u8; 12],
        device: copy(&dev),
        rssi: None,
    });
    edit(&mut reg, &dev.id, |entry| {
        entry.phase = PeerPhase::Connecting {
            attempt: 0,
            started: now(),
            path: ConnectPath::Gatt,
        };
    });
    let actions = handle(&mut reg, PeerCommand::Advertised {
        prefix: [2u8; 12],
        device: copy(&dev),
        rssi: None,
    });
    assert!(actions.is_empty());
    assert!(matches!(
        reg.peer(&dev.id).unwrap().phase,
        PeerPhase::Connecting { .. }
    ));
}

#[test]
fn connect_succeeded_moves_to_connected_and_emits_start_data_pipe() {

    let mut reg = Registry::new_for_test();
    let device_id = device("dev-4");
    reg.insert_peer({
        let mut e = PeerEntry::new(device_id.clone());
        e.role = ConnectRole::Central;
        e.tx_gen = 0;
        e.phase = PeerPhase::Connecting {
            attempt: 0,
            started: now(),
            path: ConnectPath::Gatt,
        };
        e
    });
    let ch = ChannelHandle {
        id: 42,
        path: ConnectPath::Gatt,
    };
    let actions = handle(&mut reg, PeerCommand::ConnectSucceeded {
        device_id: device_id.clone(),
        channel: ch,
    });
    let has_start = actions.iter().any(|a| matches!(
        a,
        PeerAction::StartDataPipe { device_id: d, role: ConnectRole::Central, .. } if *d == device_id
    ));
    assert!(has_start, "expected StartDataPipe; got {actions:?}");
    match &reg.peer(&device_id).unwrap().phase {
        PeerPhase::Connected { tx_gen, .. } => assert_eq!(*tx_gen, 1),
        other => panic!("wrong phase: {other:?}"),
    }
    assert_eq!(reg.peer(&device_id).unwrap().tx_gen, 1);
    assert_eq!(reg.peer(&device_id).unwrap().consecutive_failures, 0);
}

#[test]
fn connect_failed_moves_to_reconnecting_with_backoff() {
    let mut reg = Registry::new_for_test();
    let device_id = device("dev-5");
    reg.insert_peer({
        let mut e = PeerEntry::new(device_id.clone());
        e.phase = PeerPhase::Connecting {
            attempt: 0,
            started: now(),
            path: ConnectPath::Gatt,
        };
        e
    });
    let actions = handle(&mut reg, PeerCommand::ConnectFailed {
        device_id: device_id.clone(),
        error: "boom".into(),
    });
    assert!(
        actions
            .iter()
            .any(|a| matches!(a, PeerAction::EmitMetric(_)))
    );
    match &reg.peer(&device_id).unwrap().phase {
        PeerPhase::Reconnecting { attempt, .. } => assert_eq!(*attempt, 1),
        other => panic!("wrong phase: {other:?}"),
    }
    assert_eq!(reg.peer(&device_id).unwrap().consecutive_failures, 1);
}

#[test]
fn connect_failed_past_max_moves_to_dead() {
    let mut reg = Registry::new_for_test();
    let device_id = device("dev-6");
    reg.insert_peer({
        let mut e = PeerEntry::new(device_id.clone());
        e.consecutive_failures = 14;
        e.phase = PeerPhase::Connecting {
            attempt: 14,
            started: now(),
            path: ConnectPath::Gatt,
        };
        e
    });
    let _actions = handle(&mut reg, PeerCommand::ConnectFailed {
        device_id: device_id.clone(),
        error: "final boom".into(),
    });
    assert!(matches!(
        reg.peer(&device_id).unwrap().phase,
        PeerPhase::Dead {
            reason: DeadReason::MaxRetries,
            ..
        }
    ));
}

#[test]
fn inbound_fragment_promotes_handshaking_to_connected_and_bumps_tx_gen() {
    let mut reg = Registry::new_for_test();
    let device_id = device("dev-7");
    reg.insert_peer({
        let mut e = PeerEntry::new(device_id.clone());
        e.tx_gen = 0;
        e.phase = PeerPhase::Handshaking {
            since: now(),
            channel: ChannelHandle {
                id: 1,
                path: ConnectPath::Gatt,
            },
        };
        e
    });
    let actions = handle(&mut reg, PeerCommand::InboundGattFragment {
        device_id: device_id.clone(),
        source: FragmentSource::CentralReceivedP2c,
        bytes: b"frag".to_vec(),
    });
    assert!(
        actions
            .iter()
            .any(|a| matches!(a, PeerAction::StartDataPipe { .. }))
    );
    match &reg.peer(&device_id).unwrap().phase {
        PeerPhase::Connected { tx_gen, .. } => assert_eq!(*tx_gen, 1),
        other => panic!("wrong phase: {other:?}"),
    }
    assert_eq!(reg.peer(&device_id).unwrap().tx_gen, 1);
}

#[test]
fn send_datagram_matches_tx_gen_enqueues() {
    let mut reg = Registry::new_for_test();
    let device_id = device("dev-8");
    reg.insert_peer({
        let mut e = PeerEntry::new(device_id.clone());
        e.tx_gen = 3;
        e.phase = PeerPhase::Connected {
            since: now(),
            channel: ChannelHandle {
                id: 1,
                path: ConnectPath::Gatt,
            },
            tx_gen: 3,
            upgrading: false,
        };
        e
    });
    let actions = handle(&mut reg, PeerCommand::SendDatagram {
        device_id: device_id.clone(),
        tx_gen: 3,
        datagram: b"hi".to_vec(),
        waker: noop_waker(),
    });
    assert!(actions.is_empty(), "enqueued, no action needed yet");
    assert_eq!(reg.peer(&device_id).unwrap().pending_sends.len(), 1);
}

#[test]
fn send_datagram_stale_tx_gen_is_rejected() {
    let mut reg = Registry::new_for_test();
    let device_id = device("dev-9");
    reg.insert_peer({
        let mut e = PeerEntry::new(device_id.clone());
        e.tx_gen = 5;
        e.phase = PeerPhase::Connected {
            since: now(),
            channel: ChannelHandle {
                id: 1,
                path: ConnectPath::Gatt,
            },
            tx_gen: 5,
            upgrading: false,
        };
        e
    });
    let actions = handle(&mut reg, PeerCommand::SendDatagram {
        device_id: device_id.clone(),
        tx_gen: 4,
        datagram: b"stale".to_vec(),
        waker: noop_waker(),
    });
    assert!(actions.iter().any(|a| matches!(
        a,
        PeerAction::AckSend {
            result: Err(ErrorKind::WouldBlock),
            ..
        }
    )));
    assert_eq!(reg.peer(&device_id).unwrap().pending_sends.len(), 0);
}

#[test]
fn disconnected_from_connected_moves_to_draining() {
    let mut reg = Registry::new_for_test();
    let device_id = device("dev-10");
    reg.insert_peer({
        let mut e = PeerEntry::new(device_id.clone());
        e.tx_gen = 1;
        e.phase = PeerPhase::Connected {
            since: now(),
            channel: ChannelHandle {
                id: 1,
                path: ConnectPath::Gatt,
            },
            tx_gen: 1,
            upgrading: false,
        };
        e
    });
    let actions = handle(&mut reg, PeerCommand::CentralDisconnected {
        device_id: device_id.clone(),
        cause: DisconnectCause::LinkLoss,
    });
    assert!(
        actions
            .iter()
            .any(|a| matches!(a, PeerAction::CloseChannel { .. }))
    );
    assert!(matches!(
        reg.peer(&device_id).unwrap().phase,
        PeerPhase::Draining {
            reason: DisconnectReason::LinkLoss,
            ..
        }
    ));
}

#[test]
fn gatt133_disconnect_emits_refresh_action() {
    let mut reg = Registry::new_for_test();
    let device_id = device("dev-11");
    reg.insert_peer({
        let mut e = PeerEntry::new(device_id.clone());
        e.phase = PeerPhase::Connected {
            since: now(),
            channel: ChannelHandle {
                id: 1,
                path: ConnectPath::Gatt,
            },
            tx_gen: 1,
            upgrading: false,
        };
        e
    });
    let actions = handle(&mut reg, PeerCommand::CentralDisconnected {
        device_id: device_id.clone(),
        cause: DisconnectCause::Gatt133,
    });
    assert!(
        actions
            .iter()
            .any(|a| matches!(a, PeerAction::Refresh { .. }))
    );
    assert!(
        actions
            .iter()
            .any(|a| matches!(a, PeerAction::CloseChannel { .. }))
    );
}

#[test]
fn link_loss_does_not_emit_refresh() {
    let mut reg = Registry::new_for_test();
    let device_id = device("dev-12");
    reg.insert_peer({
        let mut e = PeerEntry::new(device_id.clone());
        e.phase = PeerPhase::Connected {
            since: now(),
            channel: ChannelHandle {
                id: 1,
                path: ConnectPath::Gatt,
            },
            tx_gen: 1,
            upgrading: false,
        };
        e
    });
    let actions = handle(&mut reg, PeerCommand::CentralDisconnected {
        device_id,
        cause: DisconnectCause::LinkLoss,
    });
    assert!(
        !actions
            .iter()
            .any(|a| matches!(a, PeerAction::Refresh { .. }))
    );
}

#[test]
fn adapter_off_moves_all_peers_to_restoring() {
    let mut reg = Registry::new_for_test();
    let now = now();
    let mut ids = Vec::new();
    for i in 0..3u8 {
        let device_id = device(&format!("dev-off-{i}"));
        reg.insert_peer({
            let mut e = PeerEntry::new(device_id.clone());
            e.phase = PeerPhase::Connected {
                since: now,
                channel: ChannelHandle {
                    id: u64::from(i),
                    path: ConnectPath::Gatt,
                },
                tx_gen: 1,
                upgrading: false,
            };
            e
        });
        ids.push(device_id);
    }
    let actions = handle(&mut reg, PeerCommand::AdapterStateChanged { powered: false });
    assert!(
        actions.is_empty(),
        "powered=false emits no driver actions; blew tears the stack down on its own, and rebuild/restart fire on powered=true"
    );
    for device_id in &ids {
        assert!(matches!(
            reg.peer(device_id).unwrap().phase,
            PeerPhase::Restoring { .. }
        ));
    }
}

#[test]
fn send_datagram_from_discovered_starts_connect() {
    let mut reg = Registry::new_for_test();
    let device_id = device("dev-3");
    handle(&mut reg, PeerCommand::Advertised {
        prefix: [3u8; 12],
        device: BleDevice {
            id: device_id.clone(),
            name: None,
            rssi: None,
            services: vec![],
        },
        rssi: None,
    });
    let actions = handle(&mut reg, PeerCommand::SendDatagram {
        device_id: device_id.clone(),
        tx_gen: 0,
        datagram: b"hello".to_vec(),
        waker: noop_waker(),
    });
    assert!(matches!(
        actions.as_slice(),
        [PeerAction::StartConnect { .. }]
    ));
    assert!(matches!(
        reg.peer(&device_id).unwrap().phase,
        PeerPhase::Connecting { attempt: 0, .. }
    ));
    assert_eq!(reg.peer(&device_id).unwrap().pending_sends.len(), 1);
}

#[test]
fn adapter_on_from_restoring_moves_to_reconnecting() {
    let mut reg = Registry::new_for_test();
    let device_id = device("dev-13");
    reg.insert_peer({
        let mut e = PeerEntry::new(device_id.clone());
        e.phase = PeerPhase::Restoring {
            since: now(),
        };
        e
    });
    let actions = handle(&mut reg, PeerCommand::AdapterStateChanged { powered: true });
    assert!(
        actions
            .iter()
            .any(|a| matches!(a, PeerAction::RebuildGattServer)),
        "expected RebuildGattServer on adapter-on"
    );
    assert!(
        actions
            .iter()
            .any(|a| matches!(a, PeerAction::RestartAdvertising)),
        "expected RestartAdvertising on adapter-on"
    );
    assert!(
        !actions
            .iter()
            .any(|a| matches!(a, PeerAction::RestartL2capListener)),
        "L2capPolicy::Disabled should not request an L2CAP restart"
    );
    match &reg.peer(&device_id).unwrap().phase {
        PeerPhase::Reconnecting { attempt: 0, .. } => {}
        other => panic!("wrong phase: {other:?}"),
    }
}

#[test]
fn adapter_on_with_l2cap_policy_also_restarts_listener() {
    let mut reg = Registry::new_for_test_with_policy(L2capPolicy::PreferL2cap);
    let actions = handle(&mut reg, PeerCommand::AdapterStateChanged { powered: true });
    assert!(
        actions
            .iter()
            .any(|a| matches!(a, PeerAction::RestartL2capListener)),
        "PreferL2cap should request an L2CAP listener restart on adapter-on"
    );
}

#[test]
fn tick_past_next_at_moves_reconnecting_to_connecting() {
    let mut reg = Registry::new_for_test();
    let device_id = device("dev-14");
    let past = before(10);
    reg.insert_peer({
        let mut e = PeerEntry::new(device_id.clone());
        e.phase = PeerPhase::Reconnecting {
            attempt: 2,
            next_at: past,
            reason: DisconnectReason::LinkLoss,
        };
        e
    });
    let actions = handle(&mut reg, PeerCommand::Tick(now()));
    assert!(
        actions
            .iter()
            .any(|a| matches!(a, PeerAction::StartConnect { attempt: 2, .. }))
    );
    assert!(matches!(
        reg.peer(&device_id).unwrap().phase,
        PeerPhase::Connecting { attempt: 2, .. }
    ));
}

#[test]
fn tick_before_next_at_is_noop() {
    let mut reg = Registry::new_for_test();
    let device_id = device("dev-15");
    let future = later(10);
    reg.insert_peer({
        let mut e = PeerEntry::new(device_id.clone());
        e.phase = PeerPhase::Reconnecting {
            attempt: 1,
            next_at: future,
            reason: DisconnectReason::LinkLoss,
        };
        e
    });
    let actions = handle(&mut reg, PeerCommand::Tick(now()));
    assert!(actions.is_empty());
    assert!(matches!(
        reg.peer(&device_id).unwrap().phase,
        PeerPhase::Reconnecting { .. }
    ));
}

#[test]
fn tick_past_draining_timeout_moves_to_dead() {
    let mut reg = Registry::new_for_test();
    let device_id = device("dev-16");
    let old = before(10);
    reg.insert_peer({
        let mut e = PeerEntry::new(device_id.clone());
        e.phase = PeerPhase::Draining {
            since: old,
            reason: DisconnectReason::LinkLoss,
        };
        e
    });
    let actions = handle(&mut reg, PeerCommand::Tick(now()));
    assert!(actions.is_empty(), "Draining->Dead does not emit actions");
    match &reg.peer(&device_id).unwrap().phase {
        PeerPhase::Dead { reason, .. } => {
            assert_eq!(*reason, DeadReason::Forgotten);
        }
        other => panic!("wrong phase: {other:?}"),
    }
}

#[test]
fn tick_past_restoring_timeout_moves_to_dead_and_forgets() {
    let mut reg = Registry::new_for_test();
    let device_id = device("dev-17");
    let old = before(200);
    reg.insert_peer({
        let mut e = PeerEntry::new(device_id.clone());
        e.phase = PeerPhase::Restoring { since: old };
        e
    });
    let _actions = handle(&mut reg, PeerCommand::Tick(now()));
    assert!(matches!(
        reg.peer(&device_id).unwrap().phase,
        PeerPhase::Dead {
            reason: DeadReason::Forgotten,
            ..
        }
    ));
}

#[test]
fn tick_garbage_collects_old_dead_peers() {
    let mut reg = Registry::new_for_test();
    let fresh_id = device("dev-fresh");
    let old_id = device("dev-old");
    let now = now();
    reg.insert_peer({
        let mut e = PeerEntry::new(fresh_id.clone());
        e.phase = PeerPhase::Dead {
            reason: DeadReason::MaxRetries,
            at: before(10),
        };
        e
    });
    reg.insert_peer({
        let mut e = PeerEntry::new(old_id.clone());
        e.phase = PeerPhase::Dead {
            reason: DeadReason::MaxRetries,
            at: before(3600),
        };
        e
    });
    let _ = handle(&mut reg, PeerCommand::Tick(now));
    assert!(reg.peer(&fresh_id).is_some(), "fresh Dead peer survives GC");
    assert!(reg.peer(&old_id).is_none(), "old Dead peer is GC'd");
}

#[test]
fn restore_from_adapter_places_known_peers_in_restoring() {
    let mut reg = Registry::new_for_test();
    let device_id = device("dev-16");
    reg.insert_peer({
        let mut e = PeerEntry::new(device_id.clone());
        e.phase = PeerPhase::Unknown;
        e
    });
    let dev = BleDevice {
        id: device_id.clone(),
        name: None,
        rssi: None,
        services: vec![],
    };
    let actions = handle(&mut reg, PeerCommand::RestoreFromAdapter {
        devices: vec![dev],
    });
    assert!(actions.is_empty());
    assert!(matches!(
        reg.peer(&device_id).unwrap().phase,
        PeerPhase::Restoring { .. }
    ));
}

#[test]
fn restore_from_adapter_unknown_device_emits_metric() {
    let mut reg = Registry::new_for_test();
    let dev = BleDevice {
        id: device("dev-stranger"),
        name: None,
        rssi: None,
        services: vec![],
    };
    let actions = handle(&mut reg, PeerCommand::RestoreFromAdapter {
        devices: vec![dev],
    });
    assert!(actions.iter().any(|a| matches!(
        a,
        PeerAction::EmitMetric(s) if s.contains("restore_unknown_device")
    )));
}

#[test]
fn restore_from_adapter_skips_connected_peers() {
    let mut reg = Registry::new_for_test();
    let device_id = device("dev-20");
    let channel = ChannelHandle {
        id: 42,
        path: ConnectPath::Gatt,
    };
    reg.insert_peer({
        let mut e = PeerEntry::new(device_id.clone());
        e.phase = PeerPhase::Connected {
            since: now(),
            channel,
            tx_gen: 7,
            upgrading: false,
        };
        e
    });
    let dev = BleDevice {
        id: device_id.clone(),
        name: None,
        rssi: None,
        services: vec![],
    };
    let actions = handle(&mut reg, PeerCommand::RestoreFromAdapter {
        devices: vec![dev],
    });
    assert!(actions.is_empty(), "Connected peer stays put, no actions");
    match &reg.peer(&device_id).unwrap().phase {
        PeerPhase::Connected { tx_gen: 7, .. } => {}
        other => panic!("expected Connected unchanged, got {other:?}"),
    }
}

#[test]
fn restore_from_adapter_skips_handshaking_peers() {
    let mut reg = Registry::new_for_test();
    let device_id = device("dev-21");
    reg.insert_peer({
        let mut e = PeerEntry::new(device_id.clone());
        e.phase = PeerPhase::Handshaking {
            since: now(),
            channel: ChannelHandle {
                id: 99,
                path: ConnectPath::L2cap,
            },
        };
        e
    });
    let dev = BleDevice {
        id: device_id.clone(),
        name: None,
        rssi: None,
        services: vec![],
    };
    let actions = handle(&mut reg, PeerCommand::RestoreFromAdapter {
        devices: vec![dev],
    });
    assert!(actions.is_empty());
    assert!(matches!(
        reg.peer(&device_id).unwrap().phase,
        PeerPhase::Handshaking { .. }
    ));
}

#[test]
fn restore_from_adapter_mixes_known_and_unknown() {
    let mut reg = Registry::new_for_test();
    let known_id = device("dev-known");
    reg.insert_peer({
        let mut e = PeerEntry::new(known_id.clone());
        e.phase = PeerPhase::Unknown;
        e
    });
    let actions = handle(&mut reg, PeerCommand::RestoreFromAdapter {
        devices: vec![
            BleDevice {
                id: known_id.clone(),
                name: None,
                rssi: None,
                services: vec![],
            },
            BleDevice {
                id: device("dev-unknown"),
                name: None,
                rssi: None,
                services: vec![],
            },
        ],
    });
    assert_eq!(
        actions.len(),
        1,
        "exactly one metric for the unknown device"
    );
    assert!(matches!(
        actions[0],
        PeerAction::EmitMetric(ref s) if s.contains("restore_unknown_device=") && s.contains("dev-unknown")
    ));
    assert!(matches!(
        reg.peer(&known_id).unwrap().phase,
        PeerPhase::Restoring { .. }
    ));
}

#[test]
fn stalled_from_connected_moves_to_draining_link_dead() {
    let mut reg = Registry::new_for_test();
    let device_id = device("dev-stalled");
    reg.insert_peer({
        let mut e = PeerEntry::new(device_id.clone());
        e.phase = PeerPhase::Connected {
            since: now(),
            channel: ChannelHandle {
                id: 1,
                path: ConnectPath::Gatt,
            },
            tx_gen: 1,
            upgrading: false,
        };
        e
    });
    let actions = handle(&mut reg, PeerCommand::Stalled {
        device_id: device_id.clone(),
    });
    assert!(
        actions
            .iter()
            .any(|a| matches!(a, PeerAction::CloseChannel { .. }))
    );
    assert!(matches!(
        reg.peer(&device_id).unwrap().phase,
        PeerPhase::Draining {
            reason: DisconnectReason::LinkDead,
            ..
        }
    ));
}

#[test]
fn stalled_on_non_connected_peer_is_noop() {
    let mut reg = Registry::new_for_test();
    let device_id = device("dev-23");
    reg.insert_peer({
        let mut e = PeerEntry::new(device_id.clone());
        e.phase = PeerPhase::Reconnecting {
            attempt: 3,
            next_at: now(),
            reason: DisconnectReason::LinkLoss,
        };
        e
    });
    let actions = handle(&mut reg, PeerCommand::Stalled {
        device_id: device_id.clone(),
    });
    assert!(actions.is_empty());
    assert!(matches!(
        reg.peer(&device_id).unwrap().phase,
        PeerPhase::Reconnecting { attempt: 3, .. }
    ));
}

#[test]
fn shutdown_wakes_pending_sends_with_connection_aborted() {
    let mut reg = Registry::new_for_test();
    let device_id = device("dev-18");
    reg.insert_peer({
        let mut e = PeerEntry::new(device_id.clone());
        e.pending_sends
            .push_back(PendingSend {
                tx_gen: 1,
                datagram: b"x".to_vec(),
                waker: noop_waker(),
            });
        e
    });
    let actions = handle(&mut reg, PeerCommand::Shutdown);
    let aborted_acks = actions
        .iter()
        .filter(|a| {
            matches!(
                a,
                PeerAction::AckSend {
                    result: Err(ErrorKind::ConnectionAborted),
                    ..
                }
            )
        })
        .count();
    assert_eq!(aborted_acks, 1);
}

#[test]
fn shutdown_drains_pending_sends_across_all_peers() {
    let mut reg = Registry::new_for_test();
    for i in 0u8..3 {
        let device_id = device(&format!("dev-shut-{i}"));
        let mut entry = PeerEntry::new(device_id.clone());
        entry
            .pending_sends
            .push_back(PendingSend {
                tx_gen: u64::from(i),
                datagram: b"hello".to_vec(),
                waker: noop_waker(),
            });
        entry
            .pending_sends
            .push_back(PendingSend {
                tx_gen: u64::from(i) + 100,
                datagram: b"hello".to_vec(),
                waker: noop_waker(),
            });
        reg.insert_peer(entry);
    }
    let actions = handle(&mut reg, PeerCommand::Shutdown);
    let drained_tx_gens: HashSet<u64> = actions
        .iter()
        .filter_map(|a| match a {
            PeerAction::AckSend {
                tx_gen,
                result: Err(ErrorKind::ConnectionAborted),
                ..
            } => Some(*tx_gen),
            _ => None,
        })
        .collect();
    let expected: HashSet<u64> = [0u64, 1, 2, 100, 101, 102].into_iter().collect();
    assert_eq!(drained_tx_gens, expected);
    for entry in reg.peer_iter_for_test() {
        assert!(entry.pending_sends.is_empty(), "pending sends drained");
    }
}

#[test]
fn snapshot_reflects_current_phase() {

    let mut reg = Registry::new_for_test();
    let device_id = device("dev-snap");
    let mut entry = PeerEntry::new(device_id.clone());
    entry.phase = PeerPhase::Connected {
        since: now(),
        channel: ChannelHandle {
            id: 1,
            path: ConnectPath::Gatt,
        },
        tx_gen: 7,
        upgrading: false,
    };
    entry.tx_gen = 7;
    reg.insert_peer(entry);

    let loaded = reg.snapshot();
    let summary = loaded.get(&device_id).expect("device_id present");
    assert_eq!(summary.phase_kind, PhaseKind::Connected);
    assert_eq!(summary.tx_gen, 7);
}

#[test]
fn advertised_new_peer_has_central_role() {
    let mut reg = Registry::new_for_test();
    let device_id = device("dev-30");
    handle(&mut reg, PeerCommand::Advertised {
        prefix: [30u8; 12],
        device: BleDevice {
            id: device_id.clone(),
            name: None,
            rssi: None,
            services: vec![],
        },
        rssi: None,
    });
    assert_eq!(
        reg.peer(&device_id).unwrap().role,
        ConnectRole::Central
    );
}

#[test]
fn handshaking_fragment_emits_start_data_pipe_and_buffers_bytes() {

    let mut reg = Registry::new_for_test();
    let device_id = device("dev-31");
    reg.insert_peer({
        let mut e = PeerEntry::new(device_id.clone());
        e.role = ConnectRole::Central;
        e.phase = PeerPhase::Handshaking {
            since: now(),
            channel: ChannelHandle {
                id: 1,
                path: ConnectPath::Gatt,
            },
        };
        e
    });

    let actions = handle(&mut reg, PeerCommand::InboundGattFragment {
        device_id: device_id.clone(),
        source: FragmentSource::CentralReceivedP2c,
        bytes: b"first-frag".to_vec(),
    });

    let has_start = actions.iter().any(|a| matches!(
        a,
        PeerAction::StartDataPipe { device_id: d, role: ConnectRole::Central, .. } if *d == device_id
    ));
    assert!(has_start, "expected StartDataPipe; got {actions:?}");

    let entry = reg.peer(&device_id).unwrap();
    assert!(matches!(entry.phase, PeerPhase::Connected { .. }));
    assert_eq!(entry.rx_backlog.len(), 1);
    assert_eq!(&entry.rx_backlog[0][..], b"first-frag");
}

#[test]
fn data_pipe_ready_drains_pending_sends_in_fifo() {

    let mut reg = Registry::new_for_test();
    let device_id = device("dev-40");
    reg.insert_peer({
        let mut e = PeerEntry::new(device_id.clone());
        e.phase = PeerPhase::Connected {
            since: now(),
            channel: ChannelHandle {
                id: 1,
                path: ConnectPath::Gatt,
            },
            tx_gen: 7,
            upgrading: false,
        };
        e.tx_gen = 7;
        for i in 0..3u64 {
            e.pending_sends.push_back(PendingSend {
                tx_gen: 7,
                datagram: vec![i as u8],
                waker: noop_waker(),
            });
        }
        e
    });

    let (outbound_tx, mut outbound_rx) = channel::<PendingSend>(8);
    let (inbound_tx, _inbound_rx) = channel::<Vec<u8>>(8);
    let swap_tx = SwapSender { id: 1 };

    let actions = handle(&mut reg, PeerCommand::DataPipeReady {
        device_id: device_id.clone(),
        tx_gen: 7,
        handles: PipeHandles { outbound_tx, inbound_tx, swap_tx },
    });
    assert!(actions.is_empty());

    assert!(reg.peer(&device_id).unwrap().pipe.is_some());
    assert_eq!(reg.peer(&device_id).unwrap().pending_sends.len(), 0);

    for expected in 0..3u8 {
        let send = outbound_rx.try_recv().expect("drained");
        assert_eq!(&send.datagram[..], &[expected]);
    }
}

#[test]
fn data_pipe_ready_drains_rx_backlog_in_fifo() {

    let mut reg = Registry::new_for_test();
    let device_id = device("dev-41");
    reg.insert_peer({
        let mut e = PeerEntry::new(device_id.clone());
        e.phase = PeerPhase::Connected {
            since: now(),
            channel: ChannelHandle {
                id: 1,
                path: ConnectPath::Gatt,
            },
            tx_gen: 1,
            upgrading: false,
        };
        e.rx_backlog.push_back(b"A".to_vec());
        e.rx_backlog.push_back(b"B".to_vec());
        e
    });

    let (outbound_tx, _outbound_rx) = channel::<PendingSend>(8);
    let (inbound_tx, mut inbound_rx) = channel::<Vec<u8>>(8);
    let swap_tx = SwapSender { id: 1 };

    let actions = handle(&mut reg, PeerCommand::DataPipeReady {
        device_id: device_id.clone(),
        tx_gen: 1,
        handles: PipeHandles { outbound_tx, inbound_tx, swap_tx },
    });
    assert!(actions.is_empty());
    assert_eq!(reg.peer(&device_id).unwrap().rx_backlog.len(), 0);

    assert_eq!(inbound_rx.try_recv().unwrap().as_slice(), b"A");
    assert_eq!(inbound_rx.try_recv().unwrap().as_slice(), b"B");
}

#[test]
fn send_datagram_fast_path_pushes_to_outbound_tx() {

    let mut reg = Registry::new_for_test();
    let device_id = device("dev-50");
    let (outbound_tx, mut outbound_rx) = channel::<PendingSend>(4);
    let (inbound_tx, _inbound_rx) = channel::<Vec<u8>>(4);

    reg.insert_peer({
        let mut e = PeerEntry::new(device_id.clone());
        e.tx_gen = 9;
        e.phase = PeerPhase::Connected {
            since: now(),
            channel: ChannelHandle {
                id: 1,
                path: ConnectPath::Gatt,
            },
            tx_gen: 9,
            upgrading: false,
        };
        let swap_tx = SwapSender { id: 1 };
        e.pipe = Some(PipeHandles {
            outbound_tx,
            inbound_tx,
            swap_tx,
        });
        e
    });

    let actions = handle(&mut reg, PeerCommand::SendDatagram {
        device_id: device_id.clone(),
        tx_gen: 9,
        datagram: b"fast".to_vec(),
        waker: noop_waker(),
    });

    assert!(
        actions
            .iter()
            .any(|a| matches!(a, PeerAction::AckSend { result: Ok(()), .. }))
    );
    let got = outbound_rx.try_recv().unwrap();
    assert_eq!(&got.datagram[..], b"fast");
    assert_eq!(reg.peer(&device_id).unwrap().pending_sends.len(), 0);
}

#[test]
fn send_datagram_fast_path_closed_falls_back_to_pending_sends() {

    let mut reg = Registry::new_for_test();
    let device_id = device("dev-51");
    {
        let (outbound_tx, _outbound_rx) = channel::<PendingSend>(4);
        let (inbound_tx, _inbound_rx) = channel::<Vec<u8>>(4);
        reg.insert_peer({
            let mut e = PeerEntry::new(device_id.clone());
            e.tx_gen = 8;
            e.phase = PeerPhase::Connected {
                since: now(),
                channel: ChannelHandle {
                    id: 2,
                    path: ConnectPath::Gatt,
                },
                tx_gen: 8,
                upgrading: false,
            };
            let swap_tx = SwapSender { id: 1 };
            e.pipe = Some(PipeHandles {
                outbound_tx,
                inbound_tx,
                swap_tx,
            });
            e
        });
    }

    let actions = handle(&mut reg, PeerCommand::SendDatagram {
        device_id: device_id.clone(),
        tx_gen: 8,
        datagram: b"fallback".to_vec(),
        waker: noop_waker(),
    });

    assert!(
        actions
            .iter()
            .any(|a| matches!(a, PeerAction::AckSend { result: Ok(()), .. }))
    );
    assert!(reg.peer(&device_id).unwrap().pipe.is_none());
    assert_eq!(reg.peer(&device_id).unwrap().pending_sends.len(), 1);
    assert_eq!(
        &reg.peer(&device_id).unwrap().pending_sends[0].datagram[..],
        b"fallback"
    );
}

#[test]
fn send_datagram_pipe_closed_acks_and_buffers() {

    let mut reg = Registry::new_for_test();
    let device_id = device("dev-52");
    {
        let (outbound_tx, _outbound_rx) = channel::<PendingSend>(4);
        let (inbound_tx, _inbound_rx) = channel::<Vec<u8>>(4);
        reg.insert_peer({
            let mut e = PeerEntry::new(device_id.clone());
            e.tx_gen = 7;
            e.phase = PeerPhase::Connected {
                since: now(),
                channel: ChannelHandle {
                    id: 3,
                    path: ConnectPath::Gatt,
                },
                tx_gen: 7,
                upgrading: false,
            };
            let swap_tx = SwapSender { id: 1 };
            e.pipe = Some(PipeHandles {
                outbound_tx,
                inbound_tx,
                swap_tx,
            });
            e
        });
    }

    let actions = handle(&mut reg, PeerCommand::SendDatagram {
        device_id: device_id.clone(),
        tx_gen: 7,
        datagram: b"closed".to_vec(),
        waker: noop_waker(),
    });

    assert!(
        actions
            .iter()
            .any(|a| matches!(a, PeerAction::AckSend { result: Ok(()), .. })),
        "expected AckSend(Ok) when pipe is closed"
    );
    assert_eq!(reg.peer(&device_id).unwrap().pending_sends.len(), 1);
    assert_eq!(
        &reg.peer(&device_id).unwrap().pending_sends[0].datagram[..],
        b"closed"
    );
    assert!(reg.peer(&device_id).unwrap().pipe.is_none());
}

#[test]
fn peripheral_lazy_peer_creation_from_inbound_fragment() {

    let mut reg = Registry::new_for_test();
    let device_id = device("dev-stranger");

    let actions = handle(&mut reg, PeerCommand::InboundGattFragment {
        device_id: device_id.clone(),
        source: FragmentSource::PeripheralReceivedC2p,
        bytes: b"lazy-hello".to_vec(),
    });

    let entry = reg.peer(&device_id).expect("peripheral entry created");
    assert_eq!(entry.role, ConnectRole::Peripheral);
    assert!(matches!(entry.phase, PeerPhase::Connected { .. }));
    assert_eq!(entry.rx_backlog.len(), 1);
    assert_eq!(&entry.rx_backlog[0][..], b"lazy-hello");

    assert!(actions.iter().any(|a| matches!(
        a,
        PeerAction::StartDataPipe { role: ConnectRole::Peripheral, device_id: d, .. }
            if d == &device_id
    )));
}

#[test]
fn peripheral_client_subscribed_materializes_connected_peer() {

    let mut reg = Registry::new_for_test();
    let client = device("inbound-client");
    let actions = handle(&mut reg, PeerCommand::PeripheralClientSubscribed {
        client_id: client.clone(),
        char_uuid: Uuid { bytes: IROH_C2P_CHAR_UUID },
    });
    let entry = reg.peer(&client).expect("entry created");
    assert_eq!(entry.role, ConnectRole::Peripheral);
    assert!(matches!(entry.phase, PeerPhase::Connected { .. }));
    assert!(
        actions.iter().any(|a| matches!(
            a,
            PeerAction::StartDataPipe {
                role: ConnectRole::Peripheral,
                path: ConnectPath::Gatt,
                ..
            }
        )),
        "must emit StartDataPipe role=Peripheral path=Gatt; got {actions:?}"
    );
}

#[test]
fn peripheral_client_subscribed_idempotent_for_second_char() {

    let mut reg = Registry::new_for_test();
    let client = device("inbound");
    let _ = handle(&mut reg, PeerCommand::PeripheralClientSubscribed {
        client_id: client.clone(),
        char_uuid: Uuid { bytes: IROH_C2P_CHAR_UUID },
    });
    let tx_gen_after_first = match peer(&reg, &client).phase {
        PeerPhase::Connected { tx_gen, .. } => tx_gen,
        _ => panic!(),
    };
    let actions = handle(&mut reg, PeerCommand::PeripheralClientSubscribed {
        client_id: client.clone(),
        char_uuid: Uuid { bytes: IROH_P2C_CHAR_UUID },
    });
    assert!(
        !actions
            .iter()
            .any(|a| matches!(a, PeerAction::StartDataPipe { .. })),
        "second subscribe on same client must not start another pipe"
    );
    match peer(&reg, &client).phase {
        PeerPhase::Connected { tx_gen, .. } => assert_eq!(tx_gen, tx_gen_after_first),
        _ => panic!(),
    }
    assert_eq!(peer(&reg, &client).role, ConnectRole::Peripheral);
}

#[test]
fn inbound_fragment_fast_path_pushes_to_inbound_tx() {

    let mut reg = Registry::new_for_test();
    let device_id = device("dev-60");

    let (outbound_tx, _outbound_rx) =
        channel::<PendingSend>(4);
    let (inbound_tx, mut inbound_rx) = channel::<Vec<u8>>(4);

    reg.insert_peer({
        let mut e = PeerEntry::new(device_id.clone());
        e.last_rx = Some(now());
        e.phase = PeerPhase::Connected {
            since: now(),
            channel: ChannelHandle {
                id: 1,
                path: ConnectPath::Gatt,
            },
            tx_gen: 1,
            upgrading: false,
        };
        let swap_tx = SwapSender { id: 1 };
        e.pipe = Some(PipeHandles {
            outbound_tx,
            inbound_tx,
            swap_tx,
        });
        e
    });

    handle(&mut reg, PeerCommand::InboundGattFragment {
        device_id: device_id.clone(),
        source: FragmentSource::CentralReceivedP2c,
        bytes: b"frag".to_vec(),
    });

    assert_eq!(inbound_rx.try_recv().unwrap().as_slice(), b"frag");
    assert_eq!(reg.peer(&device_id).unwrap().rx_backlog.len(), 0);
}

#[test]
fn inbound_fragment_without_pipe_buffers_in_rx_backlog() {

    let mut reg = Registry::new_for_test();
    let device_id = device("dev-61");
    reg.insert_peer({
        let mut e = PeerEntry::new(device_id.clone());
        e.last_rx = Some(now());
        e.phase = PeerPhase::Connected {
            since: now(),
            channel: ChannelHandle {
                id: 1,
                path: ConnectPath::Gatt,
            },
            tx_gen: 1,
            upgrading: false,
        };
        e
    });
    let _ = handle(&mut reg, PeerCommand::InboundGattFragment {
        device_id: device_id.clone(),
        source: FragmentSource::CentralReceivedP2c,
        bytes: b"race".to_vec(),
    });
    assert_eq!(reg.peer(&device_id).unwrap().rx_backlog.len(), 1);
}

#[test]
fn inbound_fragment_in_discovered_phase_rebuilds_as_peripheral_connected() {

    let mut reg = Registry::new_for_test();
    let device_id = device("dev-rebuild-1");
    reg.insert_peer({
        let mut e = PeerEntry::new(device_id.clone());
        e.phase = PeerPhase::Discovered {
            since: now(),
        };
        e
    });

    let actions = handle(&mut reg, PeerCommand::InboundGattFragment {
        device_id: device_id.clone(),
        source: FragmentSource::PeripheralReceivedC2p,
        bytes: b"rebuild".to_vec(),
    });

    let entry = reg.peer(&device_id).unwrap();
    assert!(matches!(entry.phase, PeerPhase::Connected { .. }));
    assert_eq!(entry.role, ConnectRole::Peripheral);
    assert_eq!(entry.rx_backlog.len(), 1);
    assert_eq!(&entry.rx_backlog[0][..], b"rebuild");
    assert!(actions.iter().any(|a| matches!(
        a,
        PeerAction::StartDataPipe { role: ConnectRole::Peripheral, device_id: d, .. }
            if d == &device_id
    )));
}

#[test]
fn forget_evicts_connected_entry_and_emits_close_channel() {

    let mut reg = Registry::new_for_test();
    let device_id = device("dev-forget");

    let (outbound_tx, _outbound_rx) = channel::<PendingSend>(4);
    let (inbound_tx, _inbound_rx) = channel::<Vec<u8>>(4);

    reg.insert_peer({
        let mut e = PeerEntry::new(device_id.clone());
        e.tx_gen = 4;
        e.phase = PeerPhase::Connected {
            since: now(),
            channel: ChannelHandle {
                id: 11,
                path: ConnectPath::Gatt,
            },
            tx_gen: 4,
            upgrading: false,
        };
        let swap_tx = SwapSender { id: 1 };
        e.pipe = Some(PipeHandles {
            outbound_tx,
            inbound_tx,
            swap_tx,
        });
        e.pending_sends.push_back(PendingSend {
            tx_gen: 4,
            datagram: b"queued".to_vec(),
            waker: noop_waker(),
        });
        e
    });

    let actions = handle(&mut reg, PeerCommand::Forget {
        device_id: device_id.clone(),
    });

    let entry = reg.peer(&device_id).expect("entry still present until GC");
    assert!(matches!(
        &entry.phase,
        PeerPhase::Dead {
            reason: DeadReason::Forgotten,
            ..
        }
    ));
    assert!(entry.pipe.is_none());
    assert_eq!(entry.pending_sends.len(), 0);

    assert!(actions.iter().any(|a| matches!(
        a,
        PeerAction::AckSend {
            result: Err(ErrorKind::ConnectionAborted),
            ..
        }
    )));
    assert!(actions.iter().any(|a| matches!(
        a,
        PeerAction::CloseChannel { device_id: d, .. } if d == &device_id
    )));
}

#[test]
fn forget_unknown_device_is_noop() {
    let mut reg = Registry::new_for_test();
    let actions = handle(&mut reg, PeerCommand::Forget {
        device_id: device("dev-no-such"),
    });
    assert!(actions.is_empty());
}

#[test]
fn inbound_fragment_in_dead_phase_rebuilds_as_peripheral_connected() {

    let mut reg = Registry::new_for_test();
    let device_id = device("dev-rebuild-2");
    reg.insert_peer({
        let mut e = PeerEntry::new(device_id.clone());
        e.phase = PeerPhase::Dead {
            reason: DeadReason::MaxRetries,
            at: now(),
        };
        e
    });

    let actions = handle(&mut reg, PeerCommand::InboundGattFragment {
        device_id: device_id.clone(),
        source: FragmentSource::PeripheralReceivedC2p,
        bytes: b"alive-again".to_vec(),
    });

    let entry = reg.peer(&device_id).unwrap();
    assert!(matches!(entry.phase, PeerPhase::Connected { .. }));
    assert_eq!(entry.role, ConnectRole::Peripheral);
    assert_eq!(entry.tx_gen, 1);
    assert!(actions.iter().any(|a| matches!(
        a,
        PeerAction::StartDataPipe {
            role: ConnectRole::Peripheral,
            ..
        }
    )));
}

#[test]
fn draining_wakes_pending_sends_with_broken_pipe_and_drops_pipe() {

    let mut reg = Registry::new_for_test();
    let device_id = device("dev-70");

    let (outbound_tx, _outbound_rx) = channel::<PendingSend>(4);
    let (inbound_tx, _inbound_rx) = channel::<Vec<u8>>(4);

    reg.insert_peer({
        let mut e = PeerEntry::new(device_id.clone());
        e.phase = PeerPhase::Connected {
            since: now(),
            channel: ChannelHandle {
                id: 1,
                path: ConnectPath::Gatt,
            },
            tx_gen: 1,
            upgrading: false,
        };
        let swap_tx = SwapSender { id: 1 };
        e.pipe = Some(PipeHandles {
            outbound_tx,
            inbound_tx,
            swap_tx,
        });
        e.pending_sends.push_back(PendingSend {
            tx_gen: 1,
            datagram: b"x".to_vec(),
            waker: noop_waker(),
        });
        e
    });

    let actions = handle(&mut reg, PeerCommand::CentralDisconnected {
        device_id: device_id.clone(),
        cause: DisconnectCause::LinkLoss,
    });

    assert!(actions.iter().any(|a| matches!(
        a,
        PeerAction::AckSend {
            result: Err(ErrorKind::BrokenPipe),
            ..
        }
    )));
    let entry = reg.peer(&device_id).unwrap();
    assert!(entry.pipe.is_none(), "pipe dropped on Draining");
    assert_eq!(entry.pending_sends.len(), 0);
    assert!(matches!(
        entry.phase,
        PeerPhase::Draining {
            reason: DisconnectReason::LinkLoss,
            ..
        }
    ));
}

#[test]
fn connect_succeeded_disabled_goes_straight_to_connected() {

    let mut reg = Registry::new_for_test_with_policy(L2capPolicy::Disabled);
    let device_id = device("dev-l2cap-2");
    reg.insert_peer({
        let mut e = PeerEntry::new(device_id.clone());
        e.role = ConnectRole::Central;
        e.tx_gen = 0;
        e.phase = PeerPhase::Connecting {
            attempt: 0,
            started: now(),
            path: ConnectPath::Gatt,
        };
        e
    });
    let ch = ChannelHandle {
        id: 10,
        path: ConnectPath::Gatt,
    };
    let actions = handle(&mut reg, PeerCommand::ConnectSucceeded {
        device_id: device_id.clone(),
        channel: ch,
    });

    assert!(
        actions.iter().any(|a| matches!(
            a,
            PeerAction::StartDataPipe {
                path: ConnectPath::Gatt,
                ..
            }
        )),
        "expected StartDataPipe(Gatt); got {actions:?}"
    );
    match &reg.peer(&device_id).unwrap().phase {
        PeerPhase::Connected { tx_gen, .. } => assert_eq!(*tx_gen, 1),
        other => panic!("expected Connected, got {other:?}"),
    }
}

#[test]
fn open_l2cap_succeeded_transitions_to_connected_l2cap() {

    let mut reg = Registry::new_for_test_with_policy(L2capPolicy::PreferL2cap);
    let device_id = device("dev-l2cap-3");
    reg.insert_peer({
        let mut e = PeerEntry::new(device_id.clone());
        e.role = ConnectRole::Central;
        e.tx_gen = 1;
        e.phase = PeerPhase::Handshaking {
            since: now(),
            channel: ChannelHandle {
                id: 42,
                path: ConnectPath::Gatt,
            },
        };
        e
    });

    let l2cap_chan = L2capChannel { id: 1024 };
    let actions = handle(&mut reg, PeerCommand::OpenL2capSucceeded {
        device_id: device_id.clone(),
        channel: l2cap_chan,
    });

    let entry = reg.peer(&device_id).unwrap();
    match &entry.phase {
        PeerPhase::Connected {
            channel, tx_gen, ..
        } => {
            assert_eq!(channel.path, ConnectPath::L2cap);
            assert_eq!(channel.id, 42);
            assert_eq!(*tx_gen, 2);
        }
        other => panic!("expected Connected(L2cap), got {other:?}"),
    }
    assert!(
        entry.l2cap_channel.is_none(),
        "l2cap_channel should be taken into StartDataPipe"
    );
    assert!(
        actions.iter().any(|a| matches!(
            a,
            PeerAction::StartDataPipe {
                path: ConnectPath::L2cap,
                l2cap_channel: Some(_),
                ..
            }
        )),
        "expected StartDataPipe(L2cap) with channel; got {actions:?}"
    );
}

#[test]
fn open_l2cap_failed_falls_back_to_gatt() {

    let mut reg = Registry::new_for_test_with_policy(L2capPolicy::PreferL2cap);
    let device_id = device("dev-l2cap-4");
    reg.insert_peer({
        let mut e = PeerEntry::new(device_id.clone());
        e.role = ConnectRole::Central;
        e.tx_gen = 1;
        e.phase = PeerPhase::Handshaking {
            since: now(),
            channel: ChannelHandle {
                id: 42,
                path: ConnectPath::Gatt,
            },
        };
        e
    });

    let actions = handle(&mut reg, PeerCommand::OpenL2capFailed {
        device_id: device_id.clone(),
        error: "no PSM".into(),
    });

    let entry = reg.peer(&device_id).unwrap();
    match &entry.phase {
        PeerPhase::Connected {
            channel, tx_gen, ..
        } => {
            assert_eq!(channel.path, ConnectPath::Gatt);
            assert_eq!(*tx_gen, 2);
        }
        other => panic!("expected Connected(Gatt), got {other:?}"),
    }
    assert!(entry.l2cap_channel.is_none());
    assert!(
        actions.iter().any(|a| matches!(
            a,
            PeerAction::StartDataPipe {
                path: ConnectPath::Gatt,
                ..
            }
        )),
        "expected StartDataPipe(Gatt); got {actions:?}"
    );
    assert!(
        actions.iter().any(|a| matches!(
            a,
            PeerAction::EmitMetric(s) if s.contains("l2cap_fallback_to_gatt")
        )),
        "expected l2cap_fallback_to_gatt metric; got {actions:?}"
    );
}

#[test]
fn inbound_l2cap_channel_creates_peripheral_entry_with_l2cap_path() {

    let mut reg = Registry::new_for_test_with_policy(L2capPolicy::PreferL2cap);
    let device_id = device("dev-l2cap-inbound");
    let ch_a = L2capChannel { id: 8192 };
    let actions = handle(&mut reg, PeerCommand::InboundL2capChannel {
        device_id: device_id.clone(),
        channel: ch_a,
    });

    let entry = reg.peer(&device_id).unwrap();
    assert_eq!(entry.role, ConnectRole::Peripheral);
    assert_eq!(entry.tx_gen, 1);
    assert!(
        entry.l2cap_channel.is_none(),
        "l2cap_channel should be taken into StartDataPipe"
    );
    match &entry.phase {
        PeerPhase::Connected {
            channel, tx_gen, ..
        } => {
            assert_eq!(channel.path, ConnectPath::L2cap);
            assert_eq!(*tx_gen, 1);
        }
        other => panic!("expected Connected(L2cap), got {other:?}"),
    }
    assert!(
        actions.iter().any(|a| matches!(
            a,
            PeerAction::StartDataPipe {
                role: ConnectRole::Peripheral,
                path: ConnectPath::L2cap,
                l2cap_channel: Some(_),
                device_id: d,
                ..
            } if *d == device_id
        )),
        "expected StartDataPipe(L2cap, Peripheral) with channel; got {actions:?}"
    );
}

#[test]
fn send_datagram_drains_pending_before_new_data() {

    let mut reg = Registry::new_for_test();
    let device_id = device("dev-ordering");

    let (outbound_tx, mut outbound_rx) = channel::<PendingSend>(8);
    let (inbound_tx, _inbound_rx) = channel::<Vec<u8>>(8);

    reg.insert_peer({
        let mut e = PeerEntry::new(device_id.clone());
        e.tx_gen = 5;
        e.phase = PeerPhase::Connected {
            since: now(),
            channel: ChannelHandle {
                id: 1,
                path: ConnectPath::Gatt,
            },
            tx_gen: 5,
            upgrading: false,
        };
        let swap_tx = SwapSender { id: 1 };
        e.pipe = Some(PipeHandles {
            outbound_tx,
            inbound_tx,
            swap_tx,
        });
        e.pending_sends.push_back(PendingSend {
            tx_gen: 5,
            datagram: b"old".to_vec(),
            waker: noop_waker(),
        });
        e
    });

    let actions = handle(&mut reg, PeerCommand::SendDatagram {
        device_id: device_id.clone(),
        tx_gen: 5,
        datagram: b"new".to_vec(),
        waker: noop_waker(),
    });

    assert!(
        actions
            .iter()
            .any(|a| matches!(a, PeerAction::AckSend { result: Ok(()), .. })),
        "expected AckSend(Ok) for new datagram; got {actions:?}"
    );

    let first = outbound_rx.try_recv().expect("first item");
    let second = outbound_rx.try_recv().expect("second item");
    assert_eq!(
        &first.datagram[..],
        b"old",
        "old (pre-buffered) must arrive first"
    );
    assert_eq!(
        &second.datagram[..],
        b"new",
        "new datagram must arrive second"
    );
    assert_eq!(reg.peer(&device_id).unwrap().pending_sends.len(), 0);
}

#[test]
fn inbound_l2cap_channel_dropped_when_gatt_pipe_exists() {

    let mut reg = Registry::new_for_test_with_policy(L2capPolicy::PreferL2cap);
    let device_id = device("dev-l2cap-dup");

    let (outbound_tx, _outbound_rx) = channel::<PendingSend>(4);
    let (inbound_tx, _inbound_rx) = channel::<Vec<u8>>(4);

    reg.insert_peer({
        let mut e = PeerEntry::new(device_id.clone());
        e.tx_gen = 3;
        e.phase = PeerPhase::Connected {
            since: now(),
            channel: ChannelHandle {
                id: 1,
                path: ConnectPath::Gatt,
            },
            tx_gen: 3,
            upgrading: false,
        };
        let swap_tx = SwapSender { id: 1 };
        e.pipe = Some(PipeHandles {
            outbound_tx,
            inbound_tx,
            swap_tx,
        });
        e
    });

    let ch = L2capChannel { id: 8192 };
    let actions = handle(&mut reg, PeerCommand::InboundL2capChannel {
        device_id: device_id.clone(),
        channel: ch,
    });

    assert!(
        actions.iter().any(|a| matches!(
            a,
            PeerAction::EmitMetric(s) if s == "l2cap_late_accept_after_gatt"
        )),
        "expected l2cap_late_accept_after_gatt metric; got {actions:?}"
    );
    match &reg.peer(&device_id).unwrap().phase {
        PeerPhase::Connected {
            channel, tx_gen, ..
        } => {
            assert_eq!(channel.path, ConnectPath::Gatt, "path unchanged");
            assert_eq!(*tx_gen, 3, "tx_gen unchanged");
        }
        other => panic!("expected Connected(Gatt) unchanged, got {other:?}"),
    }
}

#[test]
fn open_l2cap_succeeded_moves_handshaking_to_connected_l2cap() {
    let mut reg = Registry::new_for_test_with_policy(L2capPolicy::PreferL2cap);
    let device_id = device("dev-l2-ok");
    reg.insert_peer({
        let mut e = PeerEntry::new(device_id.clone());
        e.phase = PeerPhase::Handshaking {
            since: now(),
            channel: ChannelHandle {
                id: 1,
                path: ConnectPath::Gatt,
            },
        };
        e
    });
    let chan = L2capChannel { id: 1024 };
    let actions = handle(&mut reg, PeerCommand::OpenL2capSucceeded {
        device_id: device_id.clone(),
        channel: chan,
    });
    assert!(actions.iter().any(|a| matches!(
        a,
        PeerAction::StartDataPipe {
            path: ConnectPath::L2cap,
            ..
        }
    )));
    match &reg.peer(&device_id).unwrap().phase {
        PeerPhase::Connected { channel, .. } => {
            assert_eq!(channel.path, ConnectPath::L2cap);
        }
        other => panic!("expected Connected L2cap, got {other:?}"),
    }
}

#[test]
fn open_l2cap_failed_falls_back_to_gatt_simple() {
    let mut reg = Registry::new_for_test_with_policy(L2capPolicy::PreferL2cap);
    let device_id = device("dev-l2-fail");
    reg.insert_peer({
        let mut e = PeerEntry::new(device_id.clone());
        e.phase = PeerPhase::Handshaking {
            since: now(),
            channel: ChannelHandle {
                id: 1,
                path: ConnectPath::Gatt,
            },
        };
        e
    });
    let actions = handle(&mut reg, PeerCommand::OpenL2capFailed {
        device_id: device_id.clone(),
        error: "no l2cap".into(),
    });
    assert!(actions.iter().any(|a| matches!(
        a,
        PeerAction::StartDataPipe {
            path: ConnectPath::Gatt,
            ..
        }
    )));
    assert!(
        actions
            .iter()
            .any(|a| matches!(a, PeerAction::EmitMetric(s) if s.contains("l2cap_fallback")))
    );
    match &reg.peer(&device_id).unwrap().phase {
        PeerPhase::Connected { channel, .. } => {
            assert_eq!(channel.path, ConnectPath::Gatt);
        }
        other => panic!("expected Connected Gatt, got {other:?}"),
    }
}

#[test]
fn inbound_fragment_reconstructs_dead_peer_as_peripheral() {
    let mut reg = Registry::new_for_test();
    let device_id = device("dev-resurrect");
    reg.insert_peer({
        let mut e = PeerEntry::new(device_id.clone());
        e.phase = PeerPhase::Dead {
            reason: DeadReason::MaxRetries,
            at: now(),
        };
        e
    });
    let actions = handle(&mut reg, PeerCommand::InboundGattFragment {
        device_id: device_id.clone(),
        source: FragmentSource::PeripheralReceivedC2p,
        bytes: b"hello".to_vec(),
    });
    assert!(
        actions
            .iter()
            .any(|a| matches!(a, PeerAction::StartDataPipe { .. }))
    );
    let entry = reg.peer(&device_id).unwrap();
    assert!(matches!(entry.phase, PeerPhase::Connected { .. }));
    assert_eq!(entry.role, ConnectRole::Peripheral);
    assert_eq!(entry.rx_backlog.len(), 1);
}

#[test]
fn disconnect_acks_all_pending_sends_with_broken_pipe() {
    let mut reg = Registry::new_for_test();
    let device_id = device("dev-drain-ack");
    reg.insert_peer({
        let mut e = PeerEntry::new(device_id.clone());
        e.tx_gen = 1;
        e.phase = PeerPhase::Connected {
            since: now(),
            channel: ChannelHandle {
                id: 1,
                path: ConnectPath::Gatt,
            },
            tx_gen: 1,
            upgrading: false,
        };
        for i in 0..3u64 {
            e.pending_sends
                .push_back(PendingSend {
                    tx_gen: 1,
                    datagram: vec![i as u8],
                    waker: noop_waker(),
                });
        }
        e
    });
    let actions = handle(&mut reg, PeerCommand::CentralDisconnected {
        device_id: device_id.clone(),
        cause: DisconnectCause::RemoteClose,
    });
    let broken_pipe_count = actions
        .iter()
        .filter(|a| {
            matches!(
                a,
                PeerAction::AckSend {
                    result: Err(ErrorKind::BrokenPipe),
                    ..
                }
            )
        })
        .count();
    assert_eq!(
        broken_pipe_count, 3,
        "all 3 pending sends acked with BrokenPipe"
    );
    assert!(reg.peer(&device_id).unwrap().pending_sends.is_empty());
}

#[test]
fn connect_succeeded_emits_read_version() {
    let mut reg = Registry::new_for_test();
    let device_id = device("dev-readver");
    reg.insert_peer({
        let mut e = PeerEntry::new(device_id.clone());
        e.phase = PeerPhase::Connecting {
            attempt: 0,
            started: now(),
            path: ConnectPath::Gatt,
        };
        e
    });
    let actions = handle(&mut reg, PeerCommand::ConnectSucceeded {
        device_id: device_id.clone(),
        channel: ChannelHandle {
            id: 1,
            path: ConnectPath::Gatt,
        },
    });
    assert!(
        actions.iter().any(|a| matches!(
            a,
            PeerAction::ReadVersion { device_id: d } if *d == device_id
        )),
        "expected ReadVersion; got {actions:?}"
    );
}

#[test]
fn protocol_version_mismatch_from_connected_dead_and_closes_channel() {
    let mut reg = Registry::new_for_test();
    let device_id = device("dev-pv");
    let channel = ChannelHandle {
        id: 7,
        path: ConnectPath::Gatt,
    };
    reg.insert_peer({
        let mut e = PeerEntry::new(device_id.clone());
        e.phase = PeerPhase::Connected {
            since: now(),
            channel,
            tx_gen: 1,
            upgrading: false,
        };
        e
    });
    let actions = handle(&mut reg, PeerCommand::ProtocolVersionMismatch {
        device_id: device_id.clone(),
        got: 7,
        want: 1,
    });
    assert!(actions.iter().any(|a| matches!(
        a,
        PeerAction::CloseChannel { device_id: d, .. } if *d == device_id
    )));
    match &reg.peer(&device_id).unwrap().phase {
        PeerPhase::Dead {
            reason: DeadReason::ProtocolMismatch { got: 7, want: 1 },
            ..
        } => {}
        other => panic!("wrong phase: {other:?}"),
    }
}

#[test]
fn protocol_version_mismatch_is_noop_for_unknown_peer() {
    let mut reg = Registry::new_for_test();
    let actions = handle(&mut reg, PeerCommand::ProtocolVersionMismatch {
        device_id: device("dev-unknown"),
        got: 9,
        want: 1,
    });
    assert!(actions.is_empty());
}

#[test]
fn connected_to_draining_emits_put_peer_store_when_prefix_known() {

    let mut reg = Registry::new_for_test();
    let device_id = device("dev-store-put");
    let prefix: KeyPrefix = [0x77; 12];
    reg.insert_peer({
        let mut e = PeerEntry::new(device_id.clone());
        e.prefix = Some(prefix);
        e.phase = PeerPhase::Connected {
            since: now(),
            channel: ChannelHandle {
                id: 1,
                path: ConnectPath::Gatt,
            },
            tx_gen: 1,
            upgrading: false,
        };
        e
    });
    let actions = handle(&mut reg, PeerCommand::CentralDisconnected {
        device_id: device_id.clone(),
        cause: DisconnectCause::RemoteClose,
    });
    let put = actions.iter().find_map(|a| match a {
        PeerAction::PutPeerStore {
            prefix: p,
            snapshot,
        } => Some((*p, snapshot)),
        _ => None,
    });
    let (put_prefix, snapshot) = put.expect("expected PutPeerStore");
    assert_eq!(put_prefix, prefix);
    assert_eq!(snapshot.last_device_id, device_id.as_str());
}

#[test]
fn draining_from_handshaking_does_not_emit_put_peer_store() {

    let mut reg = Registry::new_for_test();
    let device_id = device("dev-store-handshake-drain");
    let prefix: KeyPrefix = [0x78; 12];
    reg.insert_peer({
        let mut e = PeerEntry::new(device_id.clone());
        e.prefix = Some(prefix);
        e.phase = PeerPhase::Handshaking {
            since: now(),
            channel: ChannelHandle {
                id: 1,
                path: ConnectPath::Gatt,
            },
        };
        e
    });
    let actions = handle(&mut reg, PeerCommand::CentralDisconnected {
        device_id,
        cause: DisconnectCause::RemoteClose,
    });
    assert!(
        !actions
            .iter()
            .any(|a| matches!(a, PeerAction::PutPeerStore { .. })),
        "Handshaking peers have not yet proved themselves — do not persist them; got {actions:?}"
    );
}

#[test]
fn connected_to_draining_skips_put_when_prefix_unknown() {

    let mut reg = Registry::new_for_test();
    let device_id = device("dev-store-no-prefix");
    reg.insert_peer({
        let mut e = PeerEntry::new(device_id.clone());
        e.prefix = None;
        e.phase = PeerPhase::Connected {
            since: now(),
            channel: ChannelHandle {
                id: 1,
                path: ConnectPath::Gatt,
            },
            tx_gen: 1,
            upgrading: false,
        };
        e
    });
    let actions = handle(&mut reg, PeerCommand::CentralDisconnected {
        device_id,
        cause: DisconnectCause::RemoteClose,
    });
    assert!(
        !actions
            .iter()
            .any(|a| matches!(a, PeerAction::PutPeerStore { .. })),
        "prefix-less peers are not persisted; got {actions:?}"
    );
}

#[test]
fn max_retries_emits_forget_peer_store() {
    let mut reg = Registry::new_for_test();
    let device_id = device("dev-forget");
    let prefix: KeyPrefix = [0x79; 12];
    reg.insert_peer({
        let mut e = PeerEntry::new(device_id.clone());
        e.prefix = Some(prefix);
        e.consecutive_failures = 14;
        e.phase = PeerPhase::Connecting {
            attempt: 14,
            started: now(),
            path: ConnectPath::Gatt,
        };
        e
    });
    let actions = handle(&mut reg, PeerCommand::ConnectFailed {
        device_id: device_id.clone(),
        error: "final boom".into(),
    });
    assert!(matches!(
        reg.peer(&device_id).unwrap().phase,
        PeerPhase::Dead {
            reason: DeadReason::MaxRetries,
            ..
        }
    ));
    let forget = actions.iter().find_map(|a| match a {
        PeerAction::ForgetPeerStore { prefix: p } => Some(*p),
        _ => None,
    });
    assert_eq!(
        forget,
        Some(prefix),
        "expected ForgetPeerStore; {actions:?}"
    );
}

#[test]
fn advertised_records_prefix_on_peer_entry() {
    let mut reg = Registry::new_for_test();
    let dev = BleDevice {
        id: device("dev-prefix"),
        name: None,
        rssi: None,
        services: vec![],
    };
    let prefix: KeyPrefix = [0xAB; 12];
    handle(&mut reg, PeerCommand::Advertised {
        prefix,
        device: copy(&dev),
        rssi: None,
    });
    assert_eq!(reg.peer(&dev.id).unwrap().prefix, Some(prefix));
}

#[test]
fn verified_endpoint_stamps_all_matching_prefix_entries() {

    let mut reg = Registry::new_for_test();
    let endpoint = endpoint([7u8; 32]);
    let prefix = prefix_from_endpoint(&endpoint);

    // Two entries, same prefix (central view + peripheral view).
    let dev_c = device("central-view");
    let dev_p = device("peripheral-view");
    for did in [&dev_c, &dev_p] {
        reg.insert_peer(PeerEntry::new(did.clone()));
        edit(&mut reg, did, |e| {
            e.prefix = Some(prefix);
        });
    }

    let _actions = handle(&mut reg, PeerCommand::VerifiedEndpoint {
        endpoint_id: endpoint,
    });

    assert_eq!(reg.verified_prefix(&prefix), Some(endpoint));
    assert_eq!(peer(&reg, &dev_c).verified_endpoint, Some(endpoint));
    assert_eq!(peer(&reg, &dev_p).verified_endpoint, Some(endpoint));
}

#[test]
fn verified_endpoint_ignores_entries_with_different_prefix() {

    let mut reg = Registry::new_for_test();
    let ep_a = endpoint([1u8; 32]);
    let ep_b = endpoint([2u8; 32]);

    let dev = device("peer-b");
    reg.insert_peer(PeerEntry::new(dev.clone()));
    edit(&mut reg, &dev, |e| e.prefix = Some(prefix_from_endpoint(&ep_b)));

    let _ = handle(&mut reg, PeerCommand::VerifiedEndpoint { endpoint_id: ep_a });

    assert!(
        peer(&reg, &dev).verified_endpoint.is_none(),
        "entry for different prefix must not be stamped"
    );
}

#[test]
fn advertised_suppressed_when_verified_peer_already_connected() {

    let mut reg = Registry::new_for_test();
    let endpoint = endpoint([9u8; 32]);
    let prefix = prefix_from_endpoint(&endpoint);

    // Existing verified-and-Connected entry for this prefix.
    let alive_dev = device("alive-central");
    reg.insert_peer(PeerEntry::new(alive_dev.clone()));
    edit(&mut reg, &alive_dev, |alive| {
        alive.prefix = Some(prefix);
        alive.verified_endpoint = Some(endpoint);
        alive.phase = PeerPhase::Connected {
            since: now(),
            channel: ChannelHandle {
                id: 1,
                path: ConnectPath::Gatt,
            },
            tx_gen: 1,
            upgrading: false,
        };
    });

    // Seed a *different* BleDevice.id for the same peer with a pending send
    // so handle_advertised would normally transition Unknown → Connecting and
    // emit StartConnect. The guard must suppress that.
    let new_dev = device("new-mac");
    reg.insert_peer(PeerEntry::new(new_dev.clone()));
    edit(&mut reg, &new_dev, |e| {
        e.pending_sends.push_back(PendingSend {
            tx_gen: 0,
            datagram: b"x".to_vec(),
            waker: noop_waker(),
        })
    });

    let actions = handle(&mut reg, PeerCommand::Advertised {
        prefix,
        device: BleDevice {
            id: new_dev.clone(),
            name: None,
            rssi: None,
            services: vec![],
        },
        rssi: None,
    });

    assert!(
        !actions
            .iter()
            .any(|a| matches!(a, PeerAction::StartConnect { .. })),
        "must not emit StartConnect when a verified live peer already exists; got {actions:?}",
    );
    assert!(
        matches!(
            peer(&reg, &new_dev).phase,
            PeerPhase::Discovered { .. } | PeerPhase::Unknown,
        ),
        "duplicate entry should stay pre-Connecting; got {:?}",
        peer(&reg, &new_dev).phase,
    );
}

#[test]
fn advertised_still_dials_unverified_peer() {

    let mut reg = Registry::new_for_test();
    let endpoint = endpoint([8u8; 32]);
    let prefix = prefix_from_endpoint(&endpoint);
    let dev_id = device("fresh");

    let _ = handle(&mut reg, PeerCommand::Advertised {
        prefix,
        device: BleDevice {
            id: dev_id.clone(),
            name: None,
            rssi: None,
            services: vec![],
        },
        rssi: None,
    });

    // Pre-existing behaviour: a fresh advertisement with no pending_sends
    // transitions Unknown → Discovered. Dedup guard must not interfere.
    assert!(matches!(
        peer(&reg, &dev_id).phase,
        PeerPhase::Discovered { .. },
    ));
}

#[test]
fn lower_prefix_side_enters_pending_dial() {

    // Seed [0xFF;32] yields a lower prefix than [0x01;32] for Ed25519.
    let my_ep = endpoint([0xFFu8; 32]);
    let mut reg = Registry::new_for_test_with_endpoint(my_ep);

    let peer_ep = endpoint([0x01u8; 32]);
    let peer_prefix = prefix_from_endpoint(&peer_ep);
    let peer_dev = device("peer-high");

    reg.insert_peer(PeerEntry::new(peer_dev.clone()));
    edit(&mut reg, &peer_dev, |e| {
        e.pending_sends.push_back(PendingSend {
            tx_gen: 0,
            datagram: b"x".to_vec(),
            waker: noop_waker(),
        })
    });

    let my_prefix = prefix_from_endpoint(&my_ep);
    assert!(
        my_prefix < peer_prefix,
        "test setup invariant violated: my_prefix ({my_prefix:?}) \
         must be < peer_prefix ({peer_prefix:?})",
    );

    let actions = handle(&mut reg, PeerCommand::Advertised {
        prefix: peer_prefix,
        device: BleDevice {
            id: peer_dev.clone(),
            name: None,
            rssi: None,
            services: vec![],
        },
        rssi: None,
    });

    assert!(
        !actions
            .iter()
            .any(|a| matches!(a, PeerAction::StartConnect { .. })),
        "lower-prefix side must not dial immediately; got {actions:?}",
    );
    assert!(
        matches!(peer(&reg, &peer_dev).phase, PeerPhase::PendingDial { .. }),
        "lower side must enter PendingDial; got {:?}",
        peer(&reg, &peer_dev).phase,
    );
}

#[test]
fn higher_prefix_side_dials_immediately_on_pending_send() {

    // Seed [0x01;32] yields a higher prefix than [0xFF;32] for Ed25519.
    let my_ep = endpoint([0x01u8; 32]);
    let mut reg = Registry::new_for_test_with_endpoint(my_ep);

    let peer_ep = endpoint([0xFFu8; 32]);
    let peer_prefix = prefix_from_endpoint(&peer_ep);
    let peer_dev = device("peer-low");

    reg.insert_peer(PeerEntry::new(peer_dev.clone()));
    edit(&mut reg, &peer_dev, |e| {
        e.pending_sends.push_back(PendingSend {
            tx_gen: 0,
            datagram: b"x".to_vec(),
            waker: noop_waker(),
        })
    });

    let my_prefix = prefix_from_endpoint(&my_ep);
    assert!(
        my_prefix > peer_prefix,
        "test setup invariant violated: my_prefix ({my_prefix:?}) \
         must be > peer_prefix ({peer_prefix:?})",
    );

    let actions = handle(&mut reg, PeerCommand::Advertised {
        prefix: peer_prefix,
        device: BleDevice {
            id: peer_dev.clone(),
            name: None,
            rssi: None,
            services: vec![],
        },
        rssi: None,
    });

    assert!(
        actions
            .iter()
            .any(|a| matches!(a, PeerAction::StartConnect { .. })),
        "higher-prefix side must dial immediately with a pending send; got {actions:?}",
    );
    assert!(
        matches!(peer(&reg, &peer_dev).phase, PeerPhase::Connecting { .. }),
        "higher side must transition to Connecting; got {:?}",
        peer(&reg, &peer_dev).phase,
    );
}

#[test]
fn pending_dial_expires_into_connecting_on_tick() {

    // [0xFF;32] yields a lower prefix than [0x01;32] for Ed25519 (same as
    // lower_prefix_side_enters_pending_dial).
    let my_ep = endpoint([0xFFu8; 32]);
    let mut reg = Registry::new_for_test_with_endpoint(my_ep);
    let peer_ep = endpoint([0x01u8; 32]);
    let peer_prefix = prefix_from_endpoint(&peer_ep);
    let peer_dev = device("peer-high");

    // Invariant guard: Ed25519 may flip ordering. Fix seeds if this fires.
    let my_prefix = prefix_from_endpoint(&my_ep);
    assert!(
        my_prefix < peer_prefix,
        "test invariant: my_prefix must be < peer_prefix",
    );

    reg.insert_peer(PeerEntry::new(peer_dev.clone()));
    edit(&mut reg, &peer_dev, |e| {
        e.pending_sends.push_back(PendingSend {
            tx_gen: 0,
            datagram: b"x".to_vec(),
            waker: noop_waker(),
        })
    });

    let _ = handle(&mut reg, PeerCommand::Advertised {
        prefix: peer_prefix,
        device: BleDevice {
            id: peer_dev.clone(),
            name: None,
            rssi: None,
            services: vec![],
        },
        rssi: None,
    });
    let deadline = match peer(&reg, &peer_dev).phase {
        PeerPhase::PendingDial { deadline, .. } => deadline,
        ref other => panic!("expected PendingDial, got {other:?}"),
    };

    let actions = handle(&mut reg, PeerCommand::Tick(deadline.after(Duration::from_millis(10))));

    assert!(
        actions
            .iter()
            .any(|a| matches!(a, PeerAction::StartConnect { .. })),
        "deadline expiry must emit StartConnect; got {actions:?}",
    );
    assert!(
        matches!(peer(&reg, &peer_dev).phase, PeerPhase::Connecting { .. }),
        "pending-dial must advance to Connecting; got {:?}",
        peer(&reg, &peer_dev).phase,
    );
}

#[test]
fn pending_dial_cancelled_when_verified_endpoint_arrives_for_same_prefix() {

    // [0xFF;32] yields a lower prefix than [0x01;32] for Ed25519.
    let my_ep = endpoint([0xFFu8; 32]);
    let mut reg = Registry::new_for_test_with_endpoint(my_ep);
    let peer_ep = endpoint([0x01u8; 32]);
    let peer_prefix = prefix_from_endpoint(&peer_ep);
    let pending_dev = device("pending-for-peer");

    let my_prefix = prefix_from_endpoint(&my_ep);
    assert!(my_prefix < peer_prefix, "test invariant: my < peer");

    reg.insert_peer(PeerEntry::new(pending_dev.clone()));
    edit(&mut reg, &pending_dev, |e| {
        e.pending_sends.push_back(PendingSend {
            tx_gen: 0,
            datagram: b"x".to_vec(),
            waker: noop_waker(),
        })
    });
    let _ = handle(&mut reg, PeerCommand::Advertised {
        prefix: peer_prefix,
        device: BleDevice {
            id: pending_dev.clone(),
            name: None,
            rssi: None,
            services: vec![],
        },
        rssi: None,
    });
    assert!(matches!(
        peer(&reg, &pending_dev).phase,
        PeerPhase::PendingDial { .. },
    ));

    // A separate PeerEntry (e.g. peripheral-side of the same peer) will
    // ultimately be the one that verified. Create it with the matching prefix
    // so handle_verified_endpoint stamps it (and subsequently the PendingDial
    // entry gets cancelled).
    let periph_dev = device("periph-for-peer");
    reg.insert_peer(PeerEntry::new(periph_dev.clone()));
    edit(&mut reg, &periph_dev, |e| e.prefix = Some(peer_prefix));

    let _ = handle(&mut reg, PeerCommand::VerifiedEndpoint {
        endpoint_id: peer_ep,
    });

    assert!(
        matches!(
            &peer(&reg, &pending_dev).phase,
            PeerPhase::Draining {
                reason: DisconnectReason::DedupLoser,
                ..
            },
        ),
        "pending-dial entry must be drained as DedupLoser; got {:?}",
        peer(&reg, &pending_dev).phase,
    );
}

#[test]
fn dedup_drains_loser_keeping_winner_by_endpoint_tiebreaker() {

    let my_ep = endpoint([0x80u8; 32]);
    let peer_ep = endpoint([0xFFu8; 32]);
    let peer_prefix = prefix_from_endpoint(&peer_ep);

    assert!(
        my_ep.as_bytes() > peer_ep.as_bytes(),
        "test invariant: my_endpoint must be > peer_endpoint bytewise",
    );

    let mut reg = Registry::new_for_test_with_endpoint(my_ep);

    let dev_c = device("central-side");
    let dev_p = device("peripheral-side");
    for (did, role) in [
        (&dev_c, ConnectRole::Central),
        (&dev_p, ConnectRole::Peripheral),
    ] {
        reg.insert_peer(PeerEntry::new(did.clone()));
        edit(&mut reg, did, |e| {
            e.prefix = Some(peer_prefix);
            e.role = role;
            e.phase = PeerPhase::Connected {
                since: now(),
                channel: ChannelHandle {
                    id: 1,
                    path: ConnectPath::Gatt,
                },
                tx_gen: 1,
                upgrading: false,
            };
        });
    }

    let _ = handle(&mut reg, PeerCommand::VerifiedEndpoint {
        endpoint_id: peer_ep,
    });

    assert!(
        matches!(&peer(&reg, &dev_c).phase, PeerPhase::Connected { .. }),
        "HIGH side: central entry must survive; got {:?}",
        peer(&reg, &dev_c).phase,
    );
    assert!(
        matches!(
            &peer(&reg, &dev_p).phase,
            PeerPhase::Draining {
                reason: DisconnectReason::DedupLoser,
                ..
            },
        ),
        "HIGH side: peripheral entry must drain as DedupLoser; got {:?}",
        peer(&reg, &dev_p).phase,
    );
}

#[test]
fn dedup_lower_side_drains_own_central_keeps_peripheral() {

    let my_ep = endpoint([0xFFu8; 32]);
    let peer_ep = endpoint([0x80u8; 32]);
    let peer_prefix = prefix_from_endpoint(&peer_ep);

    assert!(
        my_ep.as_bytes() < peer_ep.as_bytes(),
        "test invariant: my_endpoint must be < peer_endpoint bytewise",
    );

    let mut reg = Registry::new_for_test_with_endpoint(my_ep);
    let dev_c = device("my-central");
    let dev_p = device("my-peripheral");
    for (did, role) in [
        (&dev_c, ConnectRole::Central),
        (&dev_p, ConnectRole::Peripheral),
    ] {
        reg.insert_peer(PeerEntry::new(did.clone()));
        edit(&mut reg, did, |e| {
            e.prefix = Some(peer_prefix);
            e.role = role;
            e.phase = PeerPhase::Connected {
                since: now(),
                channel: ChannelHandle {
                    id: 1,
                    path: ConnectPath::Gatt,
                },
                tx_gen: 1,
                upgrading: false,
            };
        });
    }

    let _ = handle(&mut reg, PeerCommand::VerifiedEndpoint {
        endpoint_id: peer_ep,
    });

    assert!(
        matches!(&peer(&reg, &dev_p).phase, PeerPhase::Connected { .. }),
        "LOW side: peripheral entry must survive; got {:?}",
        peer(&reg, &dev_p).phase,
    );
    assert!(
        matches!(
            &peer(&reg, &dev_c).phase,
            PeerPhase::Draining {
                reason: DisconnectReason::DedupLoser,
                ..
            },
        ),
        "LOW side: central entry must drain as DedupLoser; got {:?}",
        peer(&reg, &dev_c).phase,
    );
}

#[test]
fn upgrade_to_l2cap_emitted_on_winner_after_verified() {

    let my_ep = endpoint([0x80u8; 32]);
    let peer_ep = endpoint([0xFFu8; 32]);
    // Invariant guard: Ed25519 pubkey byte ordering isn't guaranteed to
    // follow seed byte ordering; make the test fail loud if key derivation
    // changes.
    assert!(
        my_ep.as_bytes() > peer_ep.as_bytes(),
        "test presumes HIGH>LOW on derived pubkeys"
    );
    let peer_prefix = prefix_from_endpoint(&peer_ep);

    let mut reg =
        Registry::new_for_test_with_policy_and_endpoint(L2capPolicy::PreferL2cap, my_ep);
    let dev = device("peer");
    reg.insert_peer(PeerEntry::new(dev.clone()));
    {
        edit(&mut reg, &dev, |e| {
            e.prefix = Some(peer_prefix);
            e.role = ConnectRole::Central;
            e.phase = PeerPhase::Connected {
                since: now(),
                channel: ChannelHandle {
                    id: 1,
                    path: ConnectPath::Gatt,
                },
                tx_gen: 1,
                upgrading: false,
            };
        });
    }

    let actions = handle(&mut reg, PeerCommand::VerifiedEndpoint {
        endpoint_id: peer_ep,
    });

    assert!(
        actions.iter().any(
            |a| matches!(a, PeerAction::UpgradeToL2cap { device_id } if device_id == &dev)
        ),
        "winner must get UpgradeToL2cap; got {actions:?}"
    );
    match &peer(&reg, &dev).phase {
        PeerPhase::Connected { upgrading, .. } => assert!(*upgrading),
        other => panic!("expected Connected{{upgrading:true}}, got {other:?}"),
    }
}

#[test]
fn upgrade_to_l2cap_not_emitted_when_policy_disabled() {

    let my_ep = endpoint([0x80u8; 32]);
    let peer_ep = endpoint([0xFFu8; 32]);
    assert!(my_ep.as_bytes() > peer_ep.as_bytes());
    let peer_prefix = prefix_from_endpoint(&peer_ep);

    let mut reg = Registry::new_for_test_with_policy_and_endpoint(L2capPolicy::Disabled, my_ep);
    let dev = device("peer");
    reg.insert_peer(PeerEntry::new(dev.clone()));
    {
        edit(&mut reg, &dev, |e| {
            e.prefix = Some(peer_prefix);
            e.role = ConnectRole::Central;
            e.phase = PeerPhase::Connected {
                since: now(),
                channel: ChannelHandle {
                    id: 1,
                    path: ConnectPath::Gatt,
                },
                tx_gen: 1,
                upgrading: false,
            };
        });
    }

    let actions = handle(&mut reg, PeerCommand::VerifiedEndpoint {
        endpoint_id: peer_ep,
    });
    assert!(
        !actions
            .iter()
            .any(|a| matches!(a, PeerAction::UpgradeToL2cap { .. }))
    );
    match &peer(&reg, &dev).phase {
        PeerPhase::Connected { upgrading, .. } => assert!(!*upgrading),
        other => panic!("expected Connected{{upgrading:false}}, got {other:?}"),
    }
}

#[test]
fn open_l2cap_succeeded_while_upgrading_emits_swap_pipe() {

    let mut reg = Registry::new_for_test_with_policy(L2capPolicy::PreferL2cap);
    let device_id = device("dev-upgrade-ok");
    let (outbound_tx, _) = channel(1);
    let (inbound_tx, _) = channel(1);
    let swap_tx = SwapSender { id: 1 };
    reg.insert_peer({
        let mut e = PeerEntry::new(device_id.clone());
        e.role = ConnectRole::Central;
        e.tx_gen = 2;
        e.phase = PeerPhase::Connected {
            since: now(),
            channel: ChannelHandle {
                id: 2,
                path: ConnectPath::Gatt,
            },
            tx_gen: 2,
            upgrading: true,
        };
        e.pipe = Some(PipeHandles {
            outbound_tx,
            inbound_tx,
            swap_tx,
        });
        e
    });

    let l2cap_chan = L2capChannel { id: 1024 };
    let actions = handle(&mut reg, PeerCommand::OpenL2capSucceeded {
        device_id: device_id.clone(),
        channel: l2cap_chan,
    });

    assert!(
        actions.iter().any(|a| matches!(a, PeerAction::SwapPipeToL2cap { device_id: did, .. } if *did == device_id)),
        "expected SwapPipeToL2cap; got {actions:?}"
    );
    assert!(
        !actions
            .iter()
            .any(|a| matches!(a, PeerAction::StartDataPipe { .. })),
        "should NOT emit StartDataPipe for upgrade path; got {actions:?}"
    );
    let entry = reg.peer(&device_id).unwrap();
    match &entry.phase {
        PeerPhase::Connected { upgrading, .. } => assert!(!*upgrading),
        other => panic!("expected Connected, got {other:?}"),
    }
}

#[test]
fn open_l2cap_succeeded_without_pipe_handles_clears_upgrading_and_marks_failed() {

    let mut reg = Registry::new_for_test_with_policy(L2capPolicy::PreferL2cap);
    let device_id = device("dev-upgrade-ok-nopipe");
    reg.insert_peer({
        let mut e = PeerEntry::new(device_id.clone());
        e.role = ConnectRole::Central;
        e.tx_gen = 2;
        e.phase = PeerPhase::Connected {
            since: now(),
            channel: ChannelHandle {
                id: 2,
                path: ConnectPath::Gatt,
            },
            tx_gen: 2,
            upgrading: true,
        };
        e.pipe = None;
        e
    });

    let l2cap_chan = L2capChannel { id: 1024 };
    let actions = handle(&mut reg, PeerCommand::OpenL2capSucceeded {
        device_id: device_id.clone(),
        channel: l2cap_chan,
    });

    assert!(
        !actions
            .iter()
            .any(|a| matches!(a, PeerAction::SwapPipeToL2cap { .. })),
        "should NOT emit SwapPipeToL2cap when pipe handles are absent; got {actions:?}"
    );
    let entry = reg.peer(&device_id).unwrap();
    assert!(
        entry.l2cap_upgrade_failed,
        "l2cap_upgrade_failed should be set so the peer is not stuck upgrading"
    );
    match &entry.phase {
        PeerPhase::Connected { upgrading, .. } => assert!(!*upgrading),
        other => panic!("expected Connected, got {other:?}"),
    }
}

#[test]
fn open_l2cap_failed_while_upgrading_marks_failed_and_clears_upgrading() {

    let mut reg = Registry::new_for_test_with_policy(L2capPolicy::PreferL2cap);
    let device_id = device("dev-upgrade-fail");
    reg.insert_peer({
        let mut e = PeerEntry::new(device_id.clone());
        e.role = ConnectRole::Central;
        e.tx_gen = 2;
        e.phase = PeerPhase::Connected {
            since: now(),
            channel: ChannelHandle {
                id: 2,
                path: ConnectPath::Gatt,
            },
            tx_gen: 2,
            upgrading: true,
        };
        e
    });

    let actions = handle(&mut reg, PeerCommand::OpenL2capFailed {
        device_id: device_id.clone(),
        error: "upgrade timed out".into(),
    });

    assert!(
        !actions
            .iter()
            .any(|a| matches!(a, PeerAction::StartDataPipe { .. })),
        "should NOT emit StartDataPipe for upgrade-fail path; got {actions:?}"
    );
    let entry = reg.peer(&device_id).unwrap();
    assert!(
        entry.l2cap_upgrade_failed,
        "l2cap_upgrade_failed should be set"
    );
    match &entry.phase {
        PeerPhase::Connected { upgrading, .. } => assert!(!*upgrading),
        other => panic!("expected Connected, got {other:?}"),
    }
}

#[test]
fn l2cap_handover_timeout_reverts_and_marks_failed() {

    let my_ep = endpoint([0xFFu8; 32]);
    let mut reg = Registry::new(L2capPolicy::PreferL2cap, my_ep);
    let dev = device("peer");
    reg.insert_peer(PeerEntry::new(dev.clone()));
    {
        edit(&mut reg, &dev, |e| {
            e.role = ConnectRole::Central;
            e.phase = PeerPhase::Connected {
                since: now(),
                channel: ChannelHandle {
                    id: 1,
                    path: ConnectPath::Gatt,
                },
                tx_gen: 1,
                upgrading: true,
            };
        });
    }
    let actions = handle(&mut reg, PeerCommand::L2capHandoverTimeout {
        device_id: dev.clone(),
    });

    assert!(
        actions.iter().any(
            |a| matches!(a, PeerAction::RevertToGattPipe { device_id, .. } if device_id == &dev)
        )
    );
    let e = &peer(&reg, &dev);
    assert!(e.l2cap_upgrade_failed);
    match &e.phase {
        PeerPhase::Connected { upgrading, .. } => assert!(!*upgrading),
        other => panic!("expected Connected, got {other:?}"),
    }
}

fn over_gatt(upgrading: bool) -> PeerPhase {
    PeerPhase::Connected {
        since: now(),
        channel: ChannelHandle {
            id: 1,
            path: ConnectPath::Gatt,
        },
        tx_gen: 1,
        upgrading,
    }
}

#[test]
fn failed_upgrades_are_not_tried_again() {
    let peer_ep = endpoint([0xFFu8; 32]);
    let mut reg = Registry::new(L2capPolicy::PreferL2cap, endpoint([0x80u8; 32]));
    let dev = device("peer");
    reg.insert_peer(PeerEntry::new(dev.clone()));
    edit(&mut reg, &dev, |e| {
        e.prefix = Some(prefix_from_endpoint(&peer_ep));
        e.phase = over_gatt(true);
    });
    handle(&mut reg, PeerCommand::OpenL2capFailed {
        device_id: dev.clone(),
        error: "no".into(),
    });
    let actions = handle(&mut reg, PeerCommand::VerifiedEndpoint {
        endpoint_id: peer_ep,
    });
    assert!(actions.is_empty(), "{actions:?}");
    assert!(matches!(
        peer(&reg, &dev).phase,
        PeerPhase::Connected { upgrading: false, .. }
    ));
}

#[test]
fn links_that_lose_are_remembered_and_forgotten_ones_are_not() {
    let peer_ep = endpoint([0xFFu8; 32]);
    let prefix = prefix_from_endpoint(&peer_ep);
    let mut reg = Registry::new(L2capPolicy::Disabled, endpoint([0x80u8; 32]));
    for (name, role) in [
        ("won", ConnectRole::Central),
        ("lost", ConnectRole::Peripheral),
    ] {
        let dev = device(name);
        reg.insert_peer(PeerEntry::new(dev.clone()));
        edit(&mut reg, &dev, |e| {
            e.prefix = Some(prefix);
            e.role = role;
            e.phase = over_gatt(false);
        });
    }
    let actions = handle(&mut reg, PeerCommand::VerifiedEndpoint {
        endpoint_id: peer_ep,
    });
    assert_eq!(actions.len(), 1);
    assert!(matches!(
        &actions[0],
        PeerAction::PutPeerStore { prefix: p, snapshot }
            if *p == prefix
                && snapshot.last_device_id == "lost"
                && snapshot.endpoint_id == Some(peer_ep)
                && snapshot.last_seen == SystemTime { nanos: 7 * SECOND }
    ));
    let actions = handle(&mut reg, PeerCommand::Forget {
        device_id: device("won"),
    });
    assert!(!actions
        .iter()
        .any(|a| matches!(a, PeerAction::PutPeerStore { .. })));
}

fn with_pipe(reg: &mut Registry, dev: &DeviceId, capacity: usize) -> PipeEnds {
    let (outbound_tx, outbound_rx) = channel::<PendingSend>(capacity);
    let (inbound_tx, inbound_rx) = channel::<Vec<u8>>(capacity);
    reg.insert_peer(PeerEntry::new(dev.clone()));
    edit(reg, dev, |e| {
        e.tx_gen = 1;
        e.phase = over_gatt(false);
        e.pipe = Some(PipeHandles {
            outbound_tx,
            inbound_tx,
            swap_tx: SwapSender { id: 1 },
        });
    });
    PipeEnds {
        outbound: outbound_rx,
        inbound: inbound_rx,
    }
}

struct PipeEnds {
    outbound: tokio::sync::mpsc::Receiver<PendingSend>,
    inbound: tokio::sync::mpsc::Receiver<Vec<u8>>,
}

fn send(reg: &mut Registry, dev: &DeviceId, byte: u8) -> Vec<PeerAction> {
    handle(
        reg,
        PeerCommand::SendDatagram {
            device_id: dev.clone(),
            tx_gen: 1,
            datagram: vec![byte],
            waker: WakerId {
                id: u64::from(byte),
            },
        },
    )
}

fn ack_of(actions: &[PeerAction]) -> Result<(), ErrorKind> {
    match actions {
        [PeerAction::AckSend { result, .. }] => match result {
            Ok(()) => Ok(()),
            Err(e) => Err(*e),
        },
        other => panic!("expected one acknowledgement, got {other:?}"),
    }
}

#[test]
fn a_live_pipe_is_offered_every_send() {
    let mut reg = Registry::new(L2capPolicy::Disabled, endpoint([0x80u8; 32]));
    let dev = device("busy");
    let mut ends = with_pipe(&mut reg, &dev, 1);
    assert_eq!(ack_of(&send(&mut reg, &dev, 1)), Ok(()));
    assert!(
        ack_of(&send(&mut reg, &dev, 2)).is_err(),
        "a full pipe refuses"
    );
    assert_eq!(ends.outbound.try_recv().unwrap().datagram, [1]);
    assert!(ends.outbound.try_recv().is_err());
    assert_eq!(ack_of(&send(&mut reg, &dev, 3)), Ok(()));
    assert_eq!(ends.outbound.try_recv().unwrap().datagram, [3]);
    assert!(peer(&reg, &dev).closed_tx.is_none());
    assert!(ends.inbound.try_recv().is_err());
}

#[test]
fn a_pipe_found_closed_is_kept_as_a_record() {
    let mut reg = Registry::new(L2capPolicy::Disabled, endpoint([0x80u8; 32]));
    let dev = device("gone");
    drop(with_pipe(&mut reg, &dev, 1));
    assert_eq!(ack_of(&send(&mut reg, &dev, 4)), Ok(()));
    let entry = peer(&reg, &dev);
    assert!(entry.pipe.is_none());
    assert!(entry.closed_tx.as_ref().is_some_and(|tx| tx.is_closed()));
    assert_eq!(entry.pending_sends.len(), 1);
}

#[test]
fn a_second_tick_at_the_same_instant_does_nothing() {
    let mut reg = Registry::new(L2capPolicy::Disabled, endpoint([0x80u8; 32]));
    for (name, phase) in [
        (
            "due",
            PeerPhase::Reconnecting {
                attempt: 2,
                next_at: before(1),
                reason: DisconnectReason::LinkLoss,
            },
        ),
        (
            "stuck",
            PeerPhase::Draining {
                since: before(1_000),
                reason: DisconnectReason::LinkLoss,
            },
        ),
        (
            "old",
            PeerPhase::Dead {
                reason: DeadReason::Forgotten,
                at: before(50_000),
            },
        ),
    ] {
        reg.insert_peer(PeerEntry::new(device(name)));
        edit(&mut reg, &device(name), |e| e.phase = phase);
    }
    let first = handle(&mut reg, PeerCommand::Tick(now()));
    assert!(matches!(
        first.as_slice(),
        [PeerAction::StartConnect { device_id, attempt: 2 }] if *device_id == device("due")
    ));
    assert!(reg.peer(&device("old")).is_none());
    let seen = |reg: &Registry| {
        ["due", "stuck", "old"]
            .map(|name| format!("{:?}", reg.peer(&device(name)).map(|e| e.phase)))
    };
    let after = seen(&reg);
    assert!(handle(&mut reg, PeerCommand::Tick(now())).is_empty());
    assert_eq!(seen(&reg), after);
}

#[test]
fn a_second_proof_of_the_same_key_does_nothing() {
    let peer_ep = endpoint([0xFFu8; 32]);
    let prefix = prefix_from_endpoint(&peer_ep);
    let mut reg = Registry::new(L2capPolicy::PreferL2cap, endpoint([0x80u8; 32]));
    for (name, role) in [
        ("won", ConnectRole::Central),
        ("lost", ConnectRole::Peripheral),
    ] {
        let dev = device(name);
        reg.insert_peer(PeerEntry::new(dev.clone()));
        edit(&mut reg, &dev, |e| {
            e.prefix = Some(prefix);
            e.role = role;
            e.phase = over_gatt(false);
        });
    }
    let verified = || PeerCommand::VerifiedEndpoint {
        endpoint_id: peer_ep,
    };
    let first = handle(&mut reg, verified());
    assert!(matches!(
        first.as_slice(),
        [PeerAction::PutPeerStore { .. }, PeerAction::UpgradeToL2cap { device_id }]
            if *device_id == device("won")
    ));
    let seen = |reg: &Registry| {
        ["won", "lost"].map(|name| {
            let e = peer(reg, &device(name));
            format!("{:?} {:?} {:?}", e.phase, e.verified_endpoint, e.verified_at)
        })
    };
    let after = seen(&reg);
    assert!(handle(&mut reg, verified()).is_empty());
    assert_eq!(seen(&reg), after);
}

#[test]
fn pipes_and_dials_are_counted_by_generation_and_phase() {
    let mut reg = Registry::new(L2capPolicy::Disabled, endpoint([0x80u8; 32]));
    let dev = device("counted");
    reg.insert_peer(PeerEntry::new(dev.clone()));
    edit(&mut reg, &dev, |e| {
        e.phase = PeerPhase::Discovered { since: now() };
    });
    let dials = |actions: &[PeerAction]| {
        actions
            .iter()
            .filter(|a| matches!(a, PeerAction::StartConnect { .. }))
            .count()
    };
    let pipes = |actions: &[PeerAction]| {
        actions
            .iter()
            .filter(|a| matches!(a, PeerAction::StartDataPipe { .. }))
            .count()
    };
    let actions = send(&mut reg, &dev, 1);
    assert_eq!((dials(&actions), pipes(&actions)), (1, 0));
    assert!(matches!(
        peer(&reg, &dev).phase,
        PeerPhase::Connecting { attempt: 0, .. }
    ));
    assert_eq!(dials(&send(&mut reg, &dev, 2)), 0);
    let actions = handle(
        &mut reg,
        PeerCommand::ConnectSucceeded {
            device_id: dev.clone(),
            channel: ChannelHandle {
                id: 5,
                path: ConnectPath::Gatt,
            },
        },
    );
    assert_eq!((dials(&actions), pipes(&actions)), (0, 1));
    assert_eq!(peer(&reg, &dev).tx_gen, 1);
}

#[test]
fn only_what_a_command_needs_has_to_fit() {
    let mut reg = Registry::new(L2capPolicy::Disabled, endpoint([0x80u8; 32]));
    let dev = device("spent");
    reg.insert_peer(PeerEntry::new(dev.clone()));
    edit(&mut reg, &dev, |e| {
        e.tx_gen = u64::MAX;
        e.consecutive_failures = u32::MAX;
        e.phase = PeerPhase::Connecting {
            attempt: 3,
            started: now(),
            path: ConnectPath::Gatt,
        };
    });
    let clock = |nanos: u64| Clock {
        now: Instant::from_nanos(nanos),
        wall: SystemTime { nanos: 0 },
    };
    let succeeded = PeerCommand::ConnectSucceeded {
        device_id: dev.clone(),
        channel: ChannelHandle {
            id: 1,
            path: ConnectPath::Gatt,
        },
    };
    let failed = PeerCommand::ConnectFailed {
        device_id: dev.clone(),
        error: "no".into(),
    };
    let forget = PeerCommand::Forget {
        device_id: dev.clone(),
    };
    assert!(!reg.can_handle(&succeeded, clock(0)));
    assert!(!reg.can_handle(&failed, clock(0)));
    assert!(reg.can_handle(&forget, clock(u64::MAX)));
    assert!(reg.can_handle(&PeerCommand::Tick(now()), clock(u64::MAX)));

    edit(&mut reg, &dev, |e| {
        e.tx_gen = u64::MAX - 1;
        e.consecutive_failures = 0;
        e.phase = PeerPhase::Connecting {
            attempt: 3,
            started: now(),
            path: ConnectPath::Gatt,
        };
    });
    assert!(reg.can_handle(&succeeded, clock(u64::MAX)));
    // The fourth retry waits eight seconds.
    assert!(reg.can_handle(&failed, clock(u64::MAX - 8 * SECOND)));
    assert!(!reg.can_handle(&failed, clock(u64::MAX - 8 * SECOND + 1)));
}
