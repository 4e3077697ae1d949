use iroh_ble_transport::keys::{endpoint_of_secret, prefix_from_endpoint};
use iroh_ble_transport::peer::{DeviceId, EndpointId, KeyPrefix, WakerId};
use iroh_ble_transport::resolve::{EndpointResolveStream, ResolvePoll, ResolveSource};
use iroh_ble_transport::routing::{parse_token_addr, DiscoveryUpdate, TransportRouting};
use iroh_ble_transport::routing_v2::{Dialer, Direction, PromoteOutcome, Routing, StableConnId};
use iroh_ble_transport::time::Instant;

fn now() -> Instant {
    Instant::from_nanos(5_000_000_000)
}

fn dev(s: &str) -> DeviceId {
    DeviceId::new(s)
}

#[test]
fn mint_is_monotonic_and_nonzero() {
    let mut r = Routing::new();
    let a = r.register_pipe(dev("a"), Direction::Outbound, now());
    let b = r.register_pipe(dev("b"), Direction::Inbound, now());
    let c = r.register_pipe(dev("c"), Direction::Outbound, now());
    assert_ne!(a.as_u64(), 0, "id 0 reserved as sentinel");
    assert!(a.as_u64() < b.as_u64());
    assert!(b.as_u64() < c.as_u64());
}

#[test]
fn register_and_evict_balances_snapshot() {
    let mut r = Routing::new();
    assert_eq!(r.snapshot().pipes, 0);

    let id1 = r.register_pipe(dev("one"), Direction::Outbound, now());
    let id2 = r.register_pipe(dev("two"), Direction::Inbound, now());
    assert_eq!(r.snapshot().pipes, 2);

    r.evict_pipe(id1);
    assert_eq!(r.snapshot().pipes, 1);

    r.evict_pipe(id2);
    assert_eq!(r.snapshot().pipes, 0);
}

#[test]
fn evict_is_idempotent_for_unknown_id() {
    let mut r = Routing::new();
    let id = r.register_pipe(dev("peer"), Direction::Outbound, now());
    r.evict_pipe(id);
    r.evict_pipe(id); // no panic, no underflow
    assert_eq!(r.snapshot().pipes, 0);
}

#[test]
fn stable_conn_ids_are_not_reused_after_evict() {
    let mut r = Routing::new();
    let first = r.register_pipe(dev("peer"), Direction::Outbound, now());
    r.evict_pipe(first);
    let second = r.register_pipe(dev("peer"), Direction::Outbound, now());
    assert_ne!(first, second, "StableConnId must not recycle");
    assert!(second.as_u64() > first.as_u64());
}

#[test]
fn pipes_for_debug_reflects_register_and_evict() {
    let mut r = Routing::new();
    let id1 = r.register_pipe(dev("x"), Direction::Outbound, now());
    let id2 = r.register_pipe(dev("y"), Direction::Inbound, now());

    let mut pipes = r.pipes_for_debug();
    pipes.sort_by_key(|p| p.id.as_u64());
    assert_eq!(pipes.len(), 2);
    assert_eq!(pipes[0].id, id1);
    assert_eq!(pipes[0].direction, Direction::Outbound);
    assert_eq!(pipes[1].id, id2);
    assert_eq!(pipes[1].direction, Direction::Inbound);

    r.evict_pipe(id1);
    let pipes = r.pipes_for_debug();
    assert_eq!(pipes.len(), 1);
    assert_eq!(pipes[0].id, id2);
}

#[test]
fn note_scan_hint_is_idempotent_and_returns_previous() {
    let mut r = Routing::new();
    let prefix: KeyPrefix = [10u8; 12];
    let d1 = dev("mac-aa");
    let d2 = dev("mac-bb");

    assert_eq!(r.note_scan_hint(prefix, d1.clone()), None);
    assert_eq!(r.scan_hint_for_prefix(&prefix).as_ref(), Some(&d1));
    assert_eq!(r.snapshot().scan_hints, 1);

    // Same device — no-op, returns the same device as "previous"
    // so callers can detect the unchanged case if they need to.
    assert_eq!(
        r.note_scan_hint(prefix, d1.clone()),
        Some(d1.clone()),
        "re-noting the same device returns it as the previous mapping"
    );
    assert_eq!(r.snapshot().scan_hints, 1);

    // Different device → replace, return old.
    assert_eq!(r.note_scan_hint(prefix, d2.clone()), Some(d1));
    assert_eq!(r.scan_hint_for_prefix(&prefix).as_ref(), Some(&d2));
    assert_eq!(r.snapshot().scan_hints, 1);
}

#[test]
fn forget_scan_hint_is_idempotent() {
    let mut r = Routing::new();
    let prefix: KeyPrefix = [11u8; 12];
    let d = dev("peer");
    r.note_scan_hint(prefix, d);
    assert_eq!(r.snapshot().scan_hints, 1);
    r.forget_scan_hint(&prefix);
    assert_eq!(r.snapshot().scan_hints, 0);
    r.forget_scan_hint(&prefix); // no panic on missing
    assert!(r.scan_hint_for_prefix(&prefix).is_none());
}

#[test]
fn scan_hint_is_independent_from_pipes() {
    // Dial hints and live pipes live in orthogonal state. Recording
    // a hint must not create a pipe entry, and opening a pipe must
    // not create a hint. Keeps the authority model clean: scan_hint is pre-authentication, pipes are
    // post-dial.
    let mut r = Routing::new();
    let prefix: KeyPrefix = [12u8; 12];
    let d = dev("peer-c");

    r.note_scan_hint(prefix, d.clone());
    assert_eq!(r.snapshot().pipes, 0);

    let id = r.register_pipe(dev("mac-of-peer-c"), Direction::Outbound, now());
    // scan_hint count unaffected by pipe registration.
    assert_eq!(r.snapshot().scan_hints, 1);
    r.evict_pipe(id);
    // And pipe eviction doesn't affect scan_hint.
    assert_eq!(r.snapshot().scan_hints, 1);
}

#[test]
fn dialer_compute_is_observer_symmetric() {
    let low = endpoint_of_secret(&[0x01u8; 32]);
    let high = endpoint_of_secret(&[0xFEu8; 32]);
    assert!(low.as_bytes() < high.as_bytes(), "test invariant");

    // Pipe A: low dialed high. Low-side sees Outbound, high-side sees Inbound.
    // Both sides should compute Dialer::Low.
    assert_eq!(
        Dialer::compute(&low, &high, Direction::Outbound),
        Dialer::Low
    );
    assert_eq!(
        Dialer::compute(&high, &low, Direction::Inbound),
        Dialer::Low
    );

    // Pipe B: high dialed low. High-side sees Outbound, low-side sees Inbound.
    // Both sides should compute Dialer::High.
    assert_eq!(
        Dialer::compute(&high, &low, Direction::Outbound),
        Dialer::High
    );
    assert_eq!(
        Dialer::compute(&low, &high, Direction::Inbound),
        Dialer::High
    );
}

fn endpoint_id_with_first_byte(b: u8) -> EndpointId {
    let mut bytes = [0u8; 32];
    bytes[0] = b;
    endpoint_of_secret(&bytes)
}

fn waker(id: u64) -> WakerId {
    WakerId { id }
}

fn extract_token(
    stream: &mut EndpointResolveStream,
    routing: &mut Routing,
    waker: WakerId,
) -> u64 {
    match stream.poll_next(routing, waker) {
        ResolvePoll::Found { addr, .. } => parse_token_addr(&addr).expect("parse"),
        other => panic!("expected an address, got {other:?}"),
    }
}

#[test]
fn ble_address_lookup_resolve_parks_until_scan_hint_lands() {
    let mut routing = Routing::new();
    let endpoint_id = endpoint_id_with_first_byte(0xCD);
    let mut stream = EndpointResolveStream::resolve(endpoint_id);

    match stream.poll_next(&mut routing, waker(1)) {
        ResolvePoll::Pending => {}
        other => panic!("expected Pending before scan_hint, got {other:?}"),
    }
    assert!(routing.take_due().is_empty());

    let prefix = prefix_from_endpoint(&endpoint_id);
    let device = dev("dev-late");
    routing.note_scan_hint(prefix, device.clone());
    assert_eq!(
        routing.take_due(),
        [waker(1)],
        "scan_hint must wake the parked resolver stream"
    );

    let token = extract_token(&mut stream, &mut routing, waker(1));
    let (got_ep, got_prefix) = routing
        .reservation_target(StableConnId::from_raw(token))
        .expect("reservation minted");
    assert_eq!(got_ep, endpoint_id);
    assert_eq!(got_prefix, prefix);

    assert!(matches!(
        stream.poll_next(&mut routing, waker(1)),
        ResolvePoll::Finished
    ));
}

#[test]
fn ble_address_lookup_resolve_returns_routable_pipe_id_when_present() {
    let mut routing = Routing::new();
    let endpoint_id = endpoint_id_with_first_byte(0xBB);
    let pipe_id = routing.register_pipe(dev("mac-bb"), Direction::Outbound, now());
    routing.insert_routable(endpoint_id, pipe_id, Dialer::Low, now());

    let mut stream = EndpointResolveStream::resolve(endpoint_id);
    let token = extract_token(&mut stream, &mut routing, waker(1));
    assert_eq!(
        token,
        pipe_id.as_u64(),
        "resolver yields the routable pipe's StableConnId"
    );
}

#[test]
fn ble_address_lookup_resolve_is_idempotent() {
    let mut routing = Routing::new();
    let endpoint_id = endpoint_id_with_first_byte(0xEE);
    let prefix = prefix_from_endpoint(&endpoint_id);
    routing.note_scan_hint(prefix, dev("mac-ee"));

    let mut s1 = EndpointResolveStream::resolve(endpoint_id);
    let t1 = extract_token(&mut s1, &mut routing, waker(1));

    let mut s2 = EndpointResolveStream::resolve(endpoint_id);
    let t2 = extract_token(&mut s2, &mut routing, waker(2));
    assert_eq!(
        t1, t2,
        "reserve_outbound is idempotent — second resolve returns same id"
    );
}

#[test]
fn concurrent_resolvers_only_wake_on_their_prefix() {
    let mut routing = Routing::new();
    let ep_a = endpoint_id_with_first_byte(0xA0);
    let ep_b = endpoint_id_with_first_byte(0xB0);
    let prefix_a = prefix_from_endpoint(&ep_a);
    let prefix_b = prefix_from_endpoint(&ep_b);

    let mut sa = EndpointResolveStream::resolve(ep_a);
    let mut sb = EndpointResolveStream::resolve(ep_b);

    assert!(matches!(
        sa.poll_next(&mut routing, waker(1)),
        ResolvePoll::Pending
    ));
    assert!(matches!(
        sb.poll_next(&mut routing, waker(2)),
        ResolvePoll::Pending
    ));

    routing.note_scan_hint(prefix_a, dev("dev-a"));
    assert_eq!(
        routing.take_due(),
        [waker(1)],
        "A's waker fires on A's prefix, B's waker must NOT"
    );

    let _ = extract_token(&mut sa, &mut routing, waker(1));
    assert!(matches!(
        sb.poll_next(&mut routing, waker(2)),
        ResolvePoll::Pending
    ));

    routing.note_scan_hint(prefix_b, dev("dev-b"));
    assert_eq!(routing.take_due(), [waker(2)]);
    let _ = extract_token(&mut sb, &mut routing, waker(2));
}

#[test]
fn resolver_stream_drop_before_scan_does_not_break_later_resolves() {
    let mut routing = Routing::new();
    let endpoint_id = endpoint_id_with_first_byte(0xDD);
    let prefix = prefix_from_endpoint(&endpoint_id);

    {
        let mut s = EndpointResolveStream::resolve(endpoint_id);
        assert!(matches!(
            s.poll_next(&mut routing, waker(1)),
            ResolvePoll::Pending
        ));
    }

    routing.note_scan_hint(prefix, dev("late-but-arrived"));

    let mut s2 = EndpointResolveStream::resolve(endpoint_id);
    let _ = extract_token(&mut s2, &mut routing, waker(2));
}

#[test]
fn resolving_prefers_what_is_closest_to_a_pipe() {
    let mut routing = Routing::new();
    let ep = endpoint_id_with_first_byte(0x11);
    let prefix = prefix_from_endpoint(&ep);
    routing.note_scan_hint(prefix, dev("d"));

    let sources = |routing: &mut Routing| {
        let mut s = EndpointResolveStream::resolve(ep);
        match s.poll_next(routing, waker(1)) {
            ResolvePoll::Found { source, .. } => source,
            other => panic!("expected an address, got {other:?}"),
        }
    };
    assert_eq!(sources(&mut routing), ResolveSource::ReservationNew);
    assert_eq!(sources(&mut routing), ResolveSource::ReservationExisting);
    let id = routing.register_pipe(dev("d"), Direction::Outbound, now());
    routing.register_pending(ep, id);
    assert_eq!(sources(&mut routing), ResolveSource::Pending);
    routing.insert_routable(ep, id, Dialer::High, now());
    assert_eq!(sources(&mut routing), ResolveSource::Routable);
}

#[test]
fn discoveries_are_new_unchanged_or_replaced() {
    let mut r = TransportRouting::new();
    assert!(matches!(
        r.note_discovery([1; 12], dev("a")),
        DiscoveryUpdate::New
    ));
    assert!(matches!(
        r.note_discovery([1; 12], dev("a")),
        DiscoveryUpdate::Unchanged
    ));
    match r.note_discovery([1; 12], dev("b")) {
        DiscoveryUpdate::Replaced { previous } => assert_eq!(previous, dev("a")),
        other => panic!("expected Replaced, got {other:?}"),
    }
}

#[test]
fn forgotten_devices_lose_tokens_and_prefixes() {
    let mut r = TransportRouting::new();
    let ep = endpoint_id_with_first_byte(3);
    r.note_discovery(prefix_from_endpoint(&ep), dev("a"));
    r.install_stable_conn_token(7, dev("a"));
    r.install_stable_conn_token(8, dev("b"));
    assert_eq!(r.device_for_endpoint(&ep), Some(dev("a")));
    assert_eq!(r.device_for_token(7), Some(dev("a")));
    r.forget_device(&dev("a"));
    assert_eq!(r.device_for_endpoint(&ep), None);
    assert_eq!(r.device_for_token(7), None);
    assert_eq!(r.device_for_token(8), Some(dev("b")));
    r.uninstall_stable_conn_token(8);
    assert_eq!(r.device_for_token(8), None);
}

fn evicted(outcome: PromoteOutcome) -> Vec<StableConnId> {
    match outcome {
        PromoteOutcome::Accepted { evicted } => evicted,
        PromoteOutcome::Rejected => panic!("a finished handshake is accepted"),
    }
}

#[test]
fn the_last_handshake_takes_the_endpoint_over() {
    let mine = EndpointId { bytes: [1; 32] };
    let remote = EndpointId { bytes: [2; 32] };
    let mut r = Routing::new();
    let dialed = r.register_pipe(dev("dialed"), Direction::Outbound, now());
    let accepted = r.register_pipe(dev("accepted"), Direction::Inbound, now());

    assert!(evicted(r.promote(dialed, &mine, remote, now())).is_empty());
    assert_eq!(r.routable_pipe_for(&remote), Some(dialed));
    assert!(evicted(r.promote(dialed, &mine, remote, now())).is_empty());

    assert_eq!(
        evicted(r.promote(accepted, &mine, remote, now())),
        [dialed]
    );
    assert_eq!(r.routable_pipe_for(&remote), Some(accepted));

    // A pipe that is gone counts as one that was dialed.
    let gone = StableConnId::from_raw(77);
    assert_eq!(evicted(r.promote(gone, &mine, remote, now())), [accepted]);
    assert_eq!(r.routable_pipe_for(&remote), Some(gone));
    assert_eq!(r.snapshot().pipes, 2);
}

#[test]
fn connection_ids_order_as_their_numbers() {
    let low = StableConnId::from_raw(3);
    let high = StableConnId::from_raw(u64::MAX);
    assert_eq!(low.as_u64(), 3);
    assert_eq!(StableConnId::from_raw(low.as_u64()), low);
    assert!(low < high);
    assert!(high > low);
    assert!(low <= StableConnId::from_raw(3));
    assert_eq!(low.cmp(&high), std::cmp::Ordering::Less);
    assert_eq!(low.partial_cmp(&high), Some(std::cmp::Ordering::Less));
}
