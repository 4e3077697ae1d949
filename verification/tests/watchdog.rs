use std::collections::HashSet;

use iroh_ble_transport::keys::endpoint_of_secret;
use iroh_ble_transport::peer::{DeviceId, EndpointId, PeerCommand, PeerSnapshot, KEY_PREFIX_LEN};
use iroh_ble_transport::pipe_watchdog::{
    due_endpoints, teardown_command, tick, DEFAULT_GRACE_PERIOD, DEFAULT_POLL_INTERVAL,
};
use iroh_ble_transport::routing_v2::{Dialer, Direction, Routing};
use iroh_ble_transport::store::InMemoryPeerStore;
use iroh_ble_transport::time::{Duration, Instant, SystemTime};

const SECOND: u64 = 1_000_000_000;

fn now() -> Instant {
    Instant::from_nanos(50 * SECOND)
}

fn much_later() -> Instant {
    Instant::from_nanos(3650 * SECOND)
}

fn test_endpoint(seed: u8) -> EndpointId {
    endpoint_of_secret(&[seed; 32])
}

fn dev(s: &str) -> DeviceId {
    DeviceId::new(s)
}

fn stalled(commands: Vec<PeerCommand>) -> HashSet<DeviceId> {
    commands
        .into_iter()
        .map(|command| match command {
            PeerCommand::Stalled { device_id } => device_id,
            other => panic!("unexpected command {other:?}"),
        })
        .collect()
}

fn run(routing: &mut Routing, active: &[EndpointId], now: Instant) -> HashSet<DeviceId> {
    let torn = tick(routing, active, Duration::from_secs(10), now);
    stalled(torn.into_iter().map(teardown_command).collect())
}

#[test]
fn tick_is_noop_when_endpoint_is_active() {
    let mut routing = Routing::new();
    let ep = test_endpoint(1);
    let id = routing.register_pipe(dev("mac"), Direction::Outbound, now());
    routing.insert_routable(ep, id, Dialer::Low, now());

    let stalled = run(&mut routing, &[ep], much_later());

    assert_eq!(routing.routable_len(), 1, "active path means no eviction");
    assert!(stalled.is_empty(), "no teardown for active endpoint");
}

#[test]
fn tick_evicts_and_stalls_when_endpoint_has_no_active_path() {
    let mut routing = Routing::new();
    let ep = test_endpoint(2);
    let id = routing.register_pipe(dev("mac-b"), Direction::Outbound, now());
    routing.insert_routable(ep, id, Dialer::High, now());

    let stalled = run(&mut routing, &[], much_later());

    assert_eq!(routing.routable_len(), 0, "routable entry evicted");
    assert_eq!(stalled, HashSet::from([dev("mac-b")]));
}

#[test]
fn tick_respects_grace_period_for_fresh_promotion() {
    let mut routing = Routing::new();
    let ep = test_endpoint(3);
    let id = routing.register_pipe(dev("mac-c"), Direction::Outbound, now());
    routing.insert_routable(ep, id, Dialer::Low, now());

    let stalled = run(&mut routing, &[], now());

    assert_eq!(
        routing.routable_len(),
        1,
        "entry inside grace window must not be evicted"
    );
    assert!(stalled.is_empty());
}

#[test]
fn tick_handles_empty_routable_pool() {
    let mut routing = Routing::new();
    assert!(run(&mut routing, &[], now()).is_empty());
}

#[test]
fn tick_tears_down_multiple_dead_endpoints_in_one_pass() {
    let mut routing = Routing::new();
    let ep_a = test_endpoint(4);
    let ep_b = test_endpoint(5);
    let ep_c = test_endpoint(6);
    let ia = routing.register_pipe(dev("a"), Direction::Outbound, now());
    let ib = routing.register_pipe(dev("b"), Direction::Inbound, now());
    let ic = routing.register_pipe(dev("c"), Direction::Outbound, now());
    routing.insert_routable(ep_a, ia, Dialer::Low, now());
    routing.insert_routable(ep_b, ib, Dialer::High, now());
    routing.insert_routable(ep_c, ic, Dialer::Low, now());

    let stalled = run(&mut routing, &[ep_b], much_later());

    assert_eq!(routing.routable_len(), 1);
    assert_eq!(routing.routable_pipe_for(&ep_b), Some(ib));
    assert!(stalled.contains(&dev("a")));
    assert!(stalled.contains(&dev("c")));
    assert!(!stalled.contains(&dev("b")));
}

#[test]
fn tick_skips_routable_with_missing_pipe() {
    let mut routing = Routing::new();
    let ep = test_endpoint(7);
    let id = routing.register_pipe(dev("ghost"), Direction::Outbound, now());
    routing.insert_routable(ep, id, Dialer::Low, now());
    routing.evict_pipe(id);

    assert!(run(&mut routing, &[], much_later()).is_empty());
}

#[test]
fn only_endpoints_past_their_grace_are_asked_about() {
    let mut routing = Routing::new();
    let old = test_endpoint(8);
    let fresh = test_endpoint(9);
    let io = routing.register_pipe(dev("o"), Direction::Outbound, now());
    let i_f = routing.register_pipe(dev("f"), Direction::Outbound, now());
    routing.insert_routable(old, io, Dialer::Low, now());
    routing.insert_routable(fresh, i_f, Dialer::Low, Instant::from_nanos(60 * SECOND));
    let due = due_endpoints(
        &routing,
        Duration::from_secs(10),
        Instant::from_nanos(60 * SECOND),
    );
    assert_eq!(due, [old]);
    assert_eq!(DEFAULT_POLL_INTERVAL, 5 * SECOND);
    assert_eq!(DEFAULT_GRACE_PERIOD, 10 * SECOND);
}

fn sample() -> PeerSnapshot {
    PeerSnapshot {
        endpoint_id: Some(EndpointId::from_bytes([1u8; 32])),
        last_device_id: "test-device".to_string(),
        last_seen: SystemTime { nanos: 0 },
    }
}

#[test]
fn in_memory_roundtrip() {
    let mut store = InMemoryPeerStore::new();
    let prefix = [7u8; KEY_PREFIX_LEN];
    store.put(prefix, sample());
    assert!(store.get(&prefix).is_some());
    assert_eq!(store.list().len(), 1);
    store.forget(&prefix);
    assert!(store.get(&prefix).is_none());
}

#[test]
fn stores_keep_the_last_write() {
    let mut store = InMemoryPeerStore::new();
    store.put([1; 12], sample());
    store.put(
        [1; 12],
        PeerSnapshot {
            last_device_id: "other".to_string(),
            ..sample()
        },
    );
    store.put([2; 12], sample());
    assert_eq!(store.list().len(), 2);
    assert_eq!(store.get(&[1; 12]).unwrap().last_device_id, "other");
    assert_eq!(store.get(&[2; 12]).unwrap().last_device_id, "test-device");
}
