use iroh_ble_transport::dedup::{pending_dial_deadline, should_win};
use iroh_ble_transport::driver::IncomingPacket;
use iroh_ble_transport::hook::{
    after_handshake, conclude_handshake, connection_token, hook_commands, ConnectionPath,
    HookEvent, REJECT_CODE, REJECT_REASON,
};
use iroh_ble_transport::keys::{endpoint_of_secret, prefix_from_endpoint};
use iroh_ble_transport::lifecycle::{reconnect_backoff, TICK_INTERVAL};
use iroh_ble_transport::peer::{
    ChannelHandle, ConnectPath, ConnectRole, DeviceId, EndpointId, ErrorKind, PeerCommand,
    PeerEntry, PeerPhase, WakerId,
};
use iroh_ble_transport::receive::{BleEndpoint, ChannelPoll, RecvBatch, RecvStep, Received};
use iroh_ble_transport::registry::{Registry, SnapshotMaps};
use iroh_ble_transport::routing::{parse_token_addr, token_custom_addr, CustomAddr};
use iroh_ble_transport::routing_v2::{Direction, PromoteOutcome, Routing, StableConnId};
use iroh_ble_transport::table::Table;
use iroh_ble_transport::time::{Clock, Duration, Instant, SystemTime};
use iroh_ble_transport::transport::{
    resolve_send_target, snapshot_peers, BlePeerPhase, BleSender, L2capPolicy, SendPoll,
};
use tokio::sync::mpsc::channel;

fn now() -> Instant {
    Instant::from_nanos(1_000_000_000_000)
}

fn dev(s: &str) -> DeviceId {
    DeviceId::new(s)
}

fn waker(id: u64) -> WakerId {
    WakerId { id }
}

fn open_pipe(routing: &mut Routing, name: &str) -> CustomAddr {
    let id = routing.register_pipe(dev(name), Direction::Outbound, now());
    token_custom_addr(id.as_u64())
}

#[test]
fn inbox_capacity_drain_wakes_every_parked_sender() {
    let mut routing = Routing::new();
    let addr = open_pipe(&mut routing, "d");
    let snapshot = SnapshotMaps::new();
    let (tx, mut rx) = channel::<PeerCommand>(1);
    let mut sender = BleSender::new(tx);

    assert!(matches!(
        sender.poll_send(&routing, &snapshot, &addr, b"fills", waker(0)),
        SendPoll::Ready(Ok(()))
    ));
    for id in 1..=3 {
        assert!(matches!(
            sender.poll_send(&routing, &snapshot, &addr, b"waits", waker(id)),
            SendPoll::Pending
        ));
    }
    assert!(rx.try_recv().is_ok());
    let to_wake = sender.take_parked();
    assert_eq!(to_wake, [waker(1), waker(2), waker(3)]);
    assert!(sender.take_parked().is_empty(), "drain must clear the list");
    assert_eq!(sender.tx_bytes(), 5);
}

#[test]
fn sends_carry_the_generation_of_the_snapshot() {
    let mut routing = Routing::new();
    let addr = open_pipe(&mut routing, "d");
    let mut reg = Registry::new_for_test();
    let mut entry = PeerEntry::new(dev("d"));
    entry.tx_gen = 7;
    reg.insert_peer(entry);
    let (tx, mut rx) = channel::<PeerCommand>(4);
    let mut sender = BleSender::new(tx);
    sender.poll_send(&routing, &reg.snapshot(), &addr, b"x", waker(1));
    assert!(matches!(
        rx.try_recv().unwrap(),
        PeerCommand::SendDatagram { tx_gen: 7, datagram, device_id, .. }
            if datagram == b"x" && device_id == dev("d")
    ));
}

#[test]
fn sends_to_a_closed_registry_are_refused() {
    let mut routing = Routing::new();
    let addr = open_pipe(&mut routing, "d");
    let (tx, rx) = channel::<PeerCommand>(1);
    drop(rx);
    let mut sender = BleSender::new(tx);
    match sender.poll_send(&routing, &SnapshotMaps::new(), &addr, b"x", waker(1)) {
        SendPoll::Ready(Err(e)) => {
            assert_eq!(e.kind, ErrorKind::BrokenPipe);
            assert_eq!(e.message, "transport shut down");
        }
        other => panic!("expected an error, got {other:?}"),
    }
    assert_eq!(sender.tx_bytes(), 0);
}

#[test]
fn send_targets_are_pipes_or_reserved_devices() {
    let mut routing = Routing::new();
    let addr = open_pipe(&mut routing, "piped");
    assert_eq!(resolve_send_target(&routing, &addr).unwrap(), dev("piped"));

    let unknown = resolve_send_target(&routing, &token_custom_addr(99)).unwrap_err();
    assert_eq!(unknown.kind, ErrorKind::NotFound);
    assert_eq!(unknown.message, "unknown BLE stable-conn token");

    let ep = endpoint_of_secret(&[4; 32]);
    let prefix = prefix_from_endpoint(&ep);
    let id = routing.reserve_outbound(ep);
    let reserved = token_custom_addr(id.as_u64());
    assert_eq!(
        resolve_send_target(&routing, &reserved).unwrap_err().message,
        "BLE peer reservation has no live scan hint"
    );
    routing.note_scan_hint(prefix, dev("nearby"));
    assert_eq!(resolve_send_target(&routing, &reserved).unwrap(), dev("nearby"));
}

fn packet(id: u64, data: &[u8]) -> IncomingPacket {
    IncomingPacket {
        device_id: dev("d"),
        stable_conn_id: StableConnId::for_test(id),
        data: data.to_vec(),
    }
}

#[test]
fn datagrams_are_delivered_under_the_address_of_their_pipe() {
    let mut endpoint = BleEndpoint::new();
    let mut batch = RecvBatch::begin(2, 3, 4);
    assert_eq!(batch.capacity, 2);
    match endpoint.receive(&mut batch, &packet(5, b"abc"), 10) {
        Received::Delivered { slot, source } => {
            assert_eq!(slot, 0);
            assert_eq!(parse_token_addr(&source).unwrap(), 5);
        }
        other => panic!("expected delivery, got {other:?}"),
    }
    assert!(matches!(
        endpoint.receive(&mut batch, &packet(5, b""), 10),
        Received::Dropped
    ));
    assert!(matches!(
        endpoint.receive(&mut batch, &packet(5, b"abcd"), 3),
        Received::Dropped
    ));
    assert_eq!(endpoint.empty_frames, 1);
    assert_eq!(endpoint.rx_bytes, 3);
    assert!(!batch.is_full());
    endpoint.receive(&mut batch, &packet(5, b"x"), 3);
    assert!(batch.is_full());
}

#[test]
fn receiving_stops_when_the_channel_is_empty_or_closed() {
    let mut batch = RecvBatch::begin(1, 1, 1);
    assert!(matches!(
        batch.on_poll(ChannelPoll::Pending, 9, true),
        RecvStep::Park
    ));
    assert!(matches!(
        batch.on_poll(ChannelPoll::Closed, 9, true),
        RecvStep::Return(Err(e)) if e.message == "BLE transport channel closed"
    ));
    let mut batch = RecvBatch {
        capacity: 2,
        filled: 1,
    };
    assert!(matches!(
        batch.on_poll(ChannelPoll::Pending, 9, true),
        RecvStep::Return(Ok(1))
    ));
    assert!(matches!(
        batch.on_poll(ChannelPoll::Datagram { len: 0 }, 9, false),
        RecvStep::Deliver { slot: 1 }
    ));
}

#[test]
fn shown_peers_leave_out_unknown_and_dead() {
    let mut reg = Registry::new_for_test();
    reg.insert_peer(PeerEntry::new(dev("unknown")));
    let mut live = PeerEntry::new(dev("live"));
    live.consecutive_failures = 2;
    live.phase = PeerPhase::Connected {
        since: now(),
        channel: ChannelHandle {
            id: 1,
            path: ConnectPath::L2cap,
        },
        tx_gen: 1,
        upgrading: false,
    };
    reg.insert_peer(live);
    let shown = snapshot_peers(&reg.snapshot());
    assert_eq!(shown.len(), 1);
    assert_eq!(shown[0].device_id, dev("live"));
    assert_eq!(shown[0].phase, BlePeerPhase::Connected);
    assert_eq!(shown[0].consecutive_failures, 2);
    assert_eq!(shown[0].connect_path, Some(ConnectPath::L2cap));
    assert_eq!(L2capPolicy::default(), L2capPolicy::PreferL2cap);
}

fn path(closed: bool, custom: Option<CustomAddr>) -> ConnectionPath {
    ConnectionPath { closed, custom }
}

#[test]
fn first_open_path_of_the_transport_gives_the_token() {
    let other = CustomAddr {
        id: 1,
        data: vec![0; 8],
    };
    let paths = [
        path(false, None),
        path(false, Some(other)),
        path(true, Some(token_custom_addr(3))),
        path(false, Some(token_custom_addr(4))),
        path(false, Some(token_custom_addr(5))),
    ];
    assert_eq!(connection_token(&paths), Some(4));
    assert_eq!(connection_token(&paths[..3]), None);
}

#[test]
fn rejected_handshakes_evict_nobody() {
    let routing = Routing::new();
    let remote = endpoint_of_secret(&[1; 32]);
    let verdict = after_handshake(&routing, remote, Some((3, PromoteOutcome::Rejected)));
    assert!(verdict.reject);
    assert!(verdict.watch.is_none());
    assert_eq!(&REJECT_REASON, b"ble_conflict");
    assert_eq!(REJECT_CODE, 0);
    assert_eq!(hook_commands(verdict.event).len(), 1);
}

#[test]
fn accepted_handshakes_stall_the_evicted_pipes() {
    let mut routing = Routing::new();
    let old = routing.register_pipe(dev("old"), Direction::Outbound, now());
    let remote = endpoint_of_secret(&[1; 32]);
    let verdict = after_handshake(
        &routing,
        remote,
        Some((
            9,
            PromoteOutcome::Accepted {
                evicted: vec![old, StableConnId::for_test(77)],
            },
        )),
    );
    assert!(!verdict.reject);
    assert_eq!(verdict.watch, Some(StableConnId::for_test(9)));
    let commands = hook_commands(verdict.event);
    assert!(matches!(
        commands.as_slice(),
        [PeerCommand::VerifiedEndpoint { endpoint_id }, PeerCommand::Stalled { device_id }]
            if *endpoint_id == remote && *device_id == dev("old")
    ));
    let closed = HookEvent::ConnectionClosed {
        endpoint_id: remote,
        stable_id: old,
    };
    assert!(hook_commands(closed).is_empty());
}

#[test]
fn a_handshake_promotes_the_pipe_that_it_ran_over() {
    let mut routing = Routing::new();
    let old = routing.register_pipe(dev("old"), Direction::Outbound, now());
    let new = routing.register_pipe(dev("new"), Direction::Inbound, now());
    let mine = endpoint_of_secret(&[1; 32]);
    let remote = endpoint_of_secret(&[2; 32]);
    let over = |ids: &[StableConnId]| -> Vec<ConnectionPath> {
        ids.iter()
            .map(|id| ConnectionPath {
                closed: false,
                custom: Some(token_custom_addr(id.as_u64())),
            })
            .collect()
    };

    let verdict = conclude_handshake(&mut routing, &over(&[old]), &mine, remote, now());
    assert_eq!(routing.routable_pipe_for(&remote), Some(old));
    assert_eq!(verdict.watch, Some(old));
    assert_eq!(hook_commands(verdict.event).len(), 1);

    let verdict = conclude_handshake(&mut routing, &over(&[new, old]), &mine, remote, now());
    assert_eq!(routing.routable_pipe_for(&remote), Some(new));
    assert_eq!(verdict.watch, Some(new));
    assert!(!verdict.reject);
    match verdict.event {
        HookEvent::VerifiedEndpoint {
            endpoint_id,
            token,
            evicted_devices,
        } => {
            assert_eq!(endpoint_id, remote);
            assert_eq!(token, Some(new.as_u64()));
            assert_eq!(evicted_devices, [dev("old")]);
        }
        other => panic!("expected VerifiedEndpoint, got {other:?}"),
    }

    let verdict = conclude_handshake(&mut routing, &[], &mine, remote, now());
    assert_eq!(routing.routable_pipe_for(&remote), Some(new));
    assert!(verdict.watch.is_none());
    assert!(matches!(
        verdict.event,
        HookEvent::VerifiedEndpoint { token: None, .. }
    ));
}

#[test]
fn both_sides_keep_the_link_of_the_higher_key() {
    let low = EndpointId::from_bytes([1; 32]);
    let high = EndpointId::from_bytes([2; 32]);
    assert!(should_win(ConnectRole::Central, &high, &low));
    assert!(!should_win(ConnectRole::Peripheral, &high, &low));
    assert!(should_win(ConnectRole::Peripheral, &low, &high));
    assert!(!should_win(ConnectRole::Central, &low, &high));
    assert!(!should_win(ConnectRole::Central, &low, &low));
}

#[test]
fn deferred_dials_fall_into_the_fairness_window() {
    let zero = pending_dial_deadline(now(), [0; 12]);
    assert_eq!(zero.nanos - now().nanos, 1_500_000_000);
    let mut prefix = [0; 12];
    prefix[0] = 7;
    prefix[8] = 1;
    assert_eq!(
        pending_dial_deadline(now(), prefix).nanos - zero.nanos,
        8
    );
    let mut swapped = prefix;
    swapped[0] = 1;
    swapped[8] = 7;
    assert_eq!(
        pending_dial_deadline(now(), swapped),
        pending_dial_deadline(now(), prefix)
    );
    for b in 0..=255u8 {
        let d = pending_dial_deadline(now(), [b; 12]).nanos - now().nanos;
        assert!((1_500_000_000..2_500_000_000).contains(&d));
    }
}

#[test]
fn backoff_doubles_up_to_thirty_seconds() {
    let millis: Vec<u64> = (0..8)
        .map(|attempt| reconnect_backoff(attempt).nanos / 1_000_000)
        .collect();
    assert_eq!(millis, [500, 1000, 2000, 4000, 8000, 16000, 30000, 30000]);
    assert_eq!(reconnect_backoff(u32::MAX), Duration::from_secs(30));
}

#[test]
fn ticks_come_four_times_a_second() {
    assert_eq!(TICK_INTERVAL, Duration::from_millis(250).nanos);
}

#[test]
fn spans_do_not_go_below_zero() {
    let later = now().after(Duration::from_nanos(5));
    assert_eq!(later.saturating_duration_since(now()).nanos, 5);
    assert_eq!(now().saturating_duration_since(later).nanos, 0);
}

#[test]
fn tables_keep_the_order_of_their_keys() {
    let mut t: Table<u64, StableConnId> = Table::new();
    assert!(t.insert(5, StableConnId::for_test(1)).is_none());
    assert!(t.insert(3, StableConnId::for_test(2)).is_none());
    assert_eq!(
        t.insert(5, StableConnId::for_test(9)),
        Some(StableConnId::for_test(1))
    );
    assert_eq!(t.len(), 2);
    assert_eq!(*t.at(0).0, 5);
    assert_eq!(t.get(&5).unwrap().as_u64(), 9);
    assert!(t.contains_key(&3));
    assert_eq!(t.remove(&3), Some(StableConnId::for_test(2)));
    assert!(t.get(&3).is_none());
}

#[test]
fn one_live_link_is_left_after_verification() {
    let me = endpoint_of_secret(&[0x80; 32]);
    let them = endpoint_of_secret(&[0xff; 32]);
    let mut reg = Registry::new_for_test_with_endpoint(me);
    for (name, role) in [("c", ConnectRole::Central), ("p", ConnectRole::Peripheral)] {
        let mut e = PeerEntry::new(dev(name));
        e.prefix = Some(prefix_from_endpoint(&them));
        e.role = role;
        e.phase = PeerPhase::Connected {
            since: now(),
            channel: ChannelHandle {
                id: 1,
                path: ConnectPath::Gatt,
            },
            tx_gen: 1,
            upgrading: false,
        };
        reg.insert_peer(e);
    }
    reg.handle(
        PeerCommand::VerifiedEndpoint { endpoint_id: them },
        Clock {
            now: now(),
            wall: SystemTime { nanos: 0 },
        },
    );
    let live = reg
        .peer_iter_for_test()
        .iter()
        .filter(|p| matches!(p.phase, PeerPhase::Connected { .. }))
        .count();
    assert_eq!(live, 1);
}

#[test]
fn generations_survive_a_reconnect() {
    let clock = Clock {
        now: now(),
        wall: SystemTime { nanos: 0 },
    };
    let mut reg = Registry::new_for_test();
    let mut e = PeerEntry::new(dev("d"));
    e.tx_gen = 4;
    e.phase = PeerPhase::Connecting {
        attempt: 0,
        started: now(),
        path: ConnectPath::Gatt,
    };
    reg.insert_peer(e);
    reg.handle(
        PeerCommand::ConnectSucceeded {
            device_id: dev("d"),
            channel: ChannelHandle {
                id: 1,
                path: ConnectPath::Gatt,
            },
        },
        clock,
    );
    assert_eq!(reg.peer(&dev("d")).unwrap().tx_gen, 5);
}

#[test]
fn fragments_without_a_pipe_are_bounded() {
    let clock = Clock {
        now: now(),
        wall: SystemTime { nanos: 0 },
    };
    let mut reg = Registry::new_for_test();
    for _ in 0..40 {
        reg.handle(
            PeerCommand::InboundGattFragment {
                device_id: dev("d"),
                source: iroh_ble_transport::peer::FragmentSource::PeripheralReceivedC2p,
                bytes: vec![1],
            },
            clock,
        );
    }
    assert_eq!(reg.peer(&dev("d")).unwrap().rx_backlog.len(), 16);
}
