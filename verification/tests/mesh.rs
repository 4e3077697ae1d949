use std::collections::{HashMap, VecDeque};

use iroh_ble_transport::channel::PipeHandles;
use iroh_ble_transport::driver::{
    connect_command, version_command, BlewDriver, Driver, DriverEffect,
};
use iroh_ble_transport::keys::{endpoint_of_secret, prefix_from_endpoint};
use iroh_ble_transport::peer::{
    BleDevice, ConnectRole, DeviceId, EndpointId, FragmentSource, KeyPrefix, PeerCommand,
    PendingSend, SwapSender, WakerId, KEY_PREFIX_LEN,
};
use iroh_ble_transport::registry::{PhaseKind, Registry, SnapshotMaps};
use iroh_ble_transport::time::{Clock, Instant, SystemTime};
use iroh_ble_transport::transport::L2capPolicy;
use tokio::sync::mpsc::{channel, Receiver};

struct Worker {
    role: ConnectRole,
    outbound: Receiver<PendingSend>,
    inbound: Receiver<Vec<u8>>,
}

struct Node {
    device_id: DeviceId,
    registry: Registry,
    driver: Driver,
    links: BlewDriver,
    inbox: VecDeque<PeerCommand>,
    pipes: HashMap<DeviceId, Worker>,
    received: Vec<(DeviceId, Vec<u8>)>,
}

impl Node {
    fn new(device_id: DeviceId, endpoint: EndpointId) -> Self {
        Node {
            device_id,
            registry: Registry::new_for_test_with_policy_and_endpoint(
                L2capPolicy::Disabled,
                endpoint,
            ),
            driver: Driver::new(),
            links: BlewDriver::new(),
            inbox: VecDeque::new(),
            pipes: HashMap::new(),
            received: Vec::new(),
        }
    }

    /// Handles one command; says whether there was one.
    fn step(&mut self, clock: Clock) -> bool {
        let Some(command) = self.inbox.pop_front() else {
            return false;
        };
        assert!(self.registry.can_handle(&command, clock));
        let actions = self.registry.handle(command, clock);
        for effect in self.driver.execute_all(actions, clock.now) {
            match effect {
                DriverEffect::Connect { device_id } => {
                    let handle = self.links.connect(&device_id);
                    self.inbox.push_back(connect_command(device_id, Ok(handle)));
                }
                DriverEffect::ReadVersion { device_id } => {
                    self.inbox.extend(version_command(device_id, Some(1)));
                }
                DriverEffect::Disconnect { device_id } => self.links.disconnect(&device_id),
                DriverEffect::StartPipe(start) => {
                    let (outbound_tx, outbound) = channel(32);
                    let (inbound_tx, inbound) = channel(64);
                    self.pipes.insert(
                        start.device_id.clone(),
                        Worker {
                            role: start.role,
                            outbound,
                            inbound,
                        },
                    );
                    self.inbox.push_back(PeerCommand::DataPipeReady {
                        device_id: start.device_id,
                        tx_gen: start.tx_gen,
                        handles: PipeHandles {
                            outbound_tx,
                            inbound_tx,
                            swap_tx: SwapSender { id: 0 },
                        },
                    });
                }
                _ => {}
            }
        }
        true
    }

    /// Takes what the pipes hold; returns what goes over the air.
    fn pump(&mut self) -> Vec<(DeviceId, PeerCommand)> {
        let mut on_air = Vec::new();
        for (peer, worker) in &mut self.pipes {
            while let Ok(send) = worker.outbound.try_recv() {
                on_air.push((
                    peer.clone(),
                    PeerCommand::InboundGattFragment {
                        device_id: self.device_id.clone(),
                        source: match worker.role {
                            ConnectRole::Central => FragmentSource::PeripheralReceivedC2p,
                            ConnectRole::Peripheral => FragmentSource::CentralReceivedP2c,
                        },
                        bytes: send.datagram,
                    },
                ));
            }
            while let Ok(bytes) = worker.inbound.try_recv() {
                self.received.push((peer.clone(), bytes));
            }
        }
        on_air
    }
}

fn run(nodes: &mut [Node]) {
    let clock = Clock {
        now: Instant::from_nanos(1_000_000_000_000),
        wall: SystemTime { nanos: 0 },
    };
    loop {
        let mut busy = false;
        for node in nodes.iter_mut() {
            busy |= node.step(clock);
        }
        let on_air: Vec<_> = nodes.iter_mut().flat_map(Node::pump).collect();
        for (target, command) in on_air {
            busy = true;
            if let Some(node) = nodes.iter_mut().find(|n| n.device_id == target) {
                node.inbox.push_back(command);
            }
        }
        if !busy {
            return;
        }
    }
}

fn ble_device(id: &DeviceId) -> BleDevice {
    BleDevice {
        id: id.clone(),
        name: None,
        rssi: None,
        services: vec![],
    }
}

fn endpoint_with_byte(b: u8) -> EndpointId {
    let mut bytes = [0u8; 32];
    bytes[0] = b;
    endpoint_of_secret(&bytes)
}

fn advertised(prefix: KeyPrefix, id: &DeviceId) -> PeerCommand {
    PeerCommand::Advertised {
        prefix,
        device: ble_device(id),
        rssi: None,
    }
}

fn send(id: &DeviceId, datagram: &[u8]) -> PeerCommand {
    PeerCommand::SendDatagram {
        device_id: id.clone(),
        tx_gen: 0,
        datagram: datagram.to_vec(),
        waker: WakerId { id: 0 },
    }
}

fn connected(snapshot: &SnapshotMaps) -> usize {
    (0..snapshot.len())
        .filter(|i| snapshot.at(*i).1.phase_kind == PhaseKind::Connected)
        .count()
}

#[test]
fn symmetric_dial_resolves_to_one_pipe_per_side() {
    let seeds = [endpoint_with_byte(0xFF), endpoint_with_byte(0x01)];
    let (ep_a, ep_b) = if seeds[0].as_bytes() > seeds[1].as_bytes() {
        (seeds[0], seeds[1])
    } else {
        (seeds[1], seeds[0])
    };
    let dev_a = DeviceId::new("dedup-a");
    let dev_b = DeviceId::new("dedup-b");
    let mut nodes = [Node::new(dev_a.clone(), ep_a), Node::new(dev_b.clone(), ep_b)];

    nodes[0]
        .inbox
        .push_back(advertised(prefix_from_endpoint(&ep_b), &dev_b));
    nodes[0].inbox.push_back(send(&dev_b, b"hello-from-a"));
    nodes[1]
        .inbox
        .push_back(advertised(prefix_from_endpoint(&ep_a), &dev_a));
    run(&mut nodes);
    assert_eq!(connected(&nodes[0].registry.snapshot()), 1);
    assert_eq!(connected(&nodes[1].registry.snapshot()), 1);

    nodes[0]
        .inbox
        .push_back(PeerCommand::VerifiedEndpoint { endpoint_id: ep_b });
    nodes[1]
        .inbox
        .push_back(PeerCommand::VerifiedEndpoint { endpoint_id: ep_a });
    run(&mut nodes);

    let a_snap = nodes[0].registry.snapshot();
    let b_snap = nodes[1].registry.snapshot();
    assert_eq!(connected(&a_snap), 1, "A should have exactly one Connected peer");
    assert_eq!(connected(&b_snap), 1, "B should have exactly one Connected peer");

    let a_peer = a_snap.get(&dev_b).expect("A has no entry for B");
    assert_eq!(a_peer.phase_kind, PhaseKind::Connected);
    assert_eq!(
        a_peer.role,
        ConnectRole::Central,
        "A (higher endpoint) keeps the Central role after dedup"
    );
    let b_peer = b_snap.get(&dev_a).expect("B has no entry for A");
    assert_eq!(b_peer.phase_kind, PhaseKind::Connected);
    assert_eq!(
        b_peer.role,
        ConnectRole::Peripheral,
        "B (lower endpoint) keeps the Peripheral role after dedup"
    );
}

#[test]
fn triangle_send_fans_out_to_both_peers() {
    let a = DeviceId::new("a");
    let b = DeviceId::new("b");
    let c = DeviceId::new("c");
    let key = endpoint_of_secret(&[0; 32]);
    let mut nodes = [
        Node::new(a.clone(), key),
        Node::new(b.clone(), key),
        Node::new(c.clone(), key),
    ];
    nodes[0].inbox.push_back(advertised([0xB1; KEY_PREFIX_LEN], &b));
    nodes[0].inbox.push_back(advertised([0xC1; KEY_PREFIX_LEN], &c));
    nodes[0].inbox.push_back(send(&b, b"to-b"));
    nodes[0].inbox.push_back(send(&c, b"to-c"));
    run(&mut nodes);

    assert_eq!(nodes[1].received, [(a.clone(), b"to-b".to_vec())]);
    assert_eq!(nodes[2].received, [(a.clone(), b"to-c".to_vec())]);

    let snapshot = nodes[0].registry.snapshot();
    let state_b = snapshot.get(&b).expect("A has no B");
    let state_c = snapshot.get(&c).expect("A has no C");
    assert!(state_b.tx_gen > 0, "A's tx_gen for B should have advanced");
    assert!(state_c.tx_gen > 0, "A's tx_gen for C should have advanced");
}
