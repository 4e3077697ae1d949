use iroh_ble_transport::channel::PipeHandles;
use iroh_ble_transport::driver::{
    connect_command, l2cap_command, log_peer_metric, psm_read, ready_command, version_command,
    version_read, BlewDriver, Driver, DriverEffect, L2capOpen, MetricLog, PipeStart, PsmRead,
    PsmReader, PsmStep, READ_PSM_BACKOFFS_MS,
};
use iroh_ble_transport::peer::{
    ChannelHandle, ConnectPath, ConnectRole, DeviceId, L2capChannel, PeerAction, PeerCommand,
    SwapSender, WakerId,
};
use iroh_ble_transport::routing_v2::Direction;
use iroh_ble_transport::time::Instant;
use tokio::sync::mpsc::channel;

fn now() -> Instant {
    Instant::from_nanos(9)
}

fn dev(name: &str) -> DeviceId {
    DeviceId::new(name)
}

fn read_psm_with_retry(
    backoffs: &[u64],
    mut read: impl FnMut() -> PsmRead,
) -> (Result<u16, String>, Vec<u64>) {
    let mut reader = PsmReader::new(backoffs.to_vec());
    let mut slept = Vec::new();
    let mut step = reader.start();
    loop {
        match step {
            PsmStep::ReadAgain { delay_ms } => {
                if delay_ms > 0 {
                    slept.push(delay_ms);
                }
                step = reader.after_read(read());
            }
            PsmStep::Done(result) => return (result, slept),
        }
    }
}

#[test]
fn succeeds_on_first_attempt_without_sleeping() {
    let mut calls = 0;
    let (psm, slept) = read_psm_with_retry(&[0, 150, 400], || {
        calls += 1;
        PsmRead::Psm(0x0080)
    });
    assert_eq!(psm.unwrap(), 0x0080);
    assert_eq!(calls, 1);
    assert!(slept.is_empty());
}

#[test]
fn retries_transient_errors_then_succeeds() {
    let mut calls = 0;
    let (psm, slept) = read_psm_with_retry(&[0, 150, 400], || {
        let n = calls;
        calls += 1;
        if n < 2 {
            PsmRead::Failed(format!("busy {n}"))
        } else {
            PsmRead::Psm(0x0081)
        }
    });
    assert_eq!(psm.unwrap(), 0x0081);
    assert_eq!(calls, 3);
    assert_eq!(slept, [150, 400]);
}

#[test]
fn no_psm_advertised_does_not_retry() {
    let mut calls = 0;
    let (err, _) = read_psm_with_retry(&[0, 150, 400], || {
        calls += 1;
        PsmRead::Absent
    });
    assert_eq!(err.unwrap_err(), "no psm advertised");
    assert_eq!(calls, 1);
}

#[test]
fn all_attempts_fail_returns_last_error() {
    let mut calls = 0;
    let (err, _) = read_psm_with_retry(&[0, 150, 400], || {
        let n = calls;
        calls += 1;
        PsmRead::Failed(format!("boom {n}"))
    });
    let err = err.unwrap_err();
    assert_eq!(calls, 3);
    assert!(err.starts_with("read_psm:"), "unexpected: {err}");
    assert!(err.contains("boom 2"), "expected last error, got: {err}");
}

#[test]
fn an_empty_schedule_reads_nothing() {
    let (err, _) = read_psm_with_retry(&[], || panic!("no read expected"));
    assert_eq!(err.unwrap_err(), "read_psm: unknown");
    assert_eq!(READ_PSM_BACKOFFS_MS, [0, 150, 400]);
}

fn start_pipe(driver: &mut Driver, action: PeerAction) -> PipeStart {
    match driver.execute(action, now()) {
        DriverEffect::StartPipe(start) => start,
        other => panic!("expected StartPipe, got {other:?}"),
    }
}

fn start_data_pipe(name: &str, tx_gen: u64, role: ConnectRole) -> PeerAction {
    PeerAction::StartDataPipe {
        device_id: dev(name),
        tx_gen,
        role,
        path: ConnectPath::Gatt,
        l2cap_channel: None,
    }
}

#[test]
fn start_data_pipe_spawns_pipe_and_emits_data_pipe_ready() {
    let mut driver = Driver::new();
    let start = start_pipe(
        &mut driver,
        start_data_pipe("start-pipe", 7, ConnectRole::Central),
    );
    assert_eq!(start.device_id, dev("start-pipe"));
    assert_eq!(start.tx_gen, 7);
}

#[test]
fn start_data_pipe_spawns_pipe_and_emits_data_pipe_ready_peripheral() {
    let mut driver = Driver::new();
    let start = start_pipe(
        &mut driver,
        start_data_pipe("start-pipe-peri", 9, ConnectRole::Peripheral),
    );
    assert_eq!(start.device_id, dev("start-pipe-peri"));
    assert_eq!(start.tx_gen, 9);
    assert_eq!(start.role, ConnectRole::Peripheral);
}

#[test]
fn start_data_pipe_installs_stable_conn_token_in_v1_routing() {
    let mut driver = Driver::new();
    let device_id = dev("installed-peer");
    let start = start_pipe(
        &mut driver,
        start_data_pipe("installed-peer", 1, ConnectRole::Central),
    );

    let pipes = driver.routing_v2.pipes_for_debug();
    assert_eq!(pipes.len(), 1);
    let stable_id = pipes[0].id.as_u64();
    assert_eq!(start.stable_id.as_u64(), stable_id);
    assert_eq!(
        driver.routing_v1.device_for_token(stable_id).as_ref(),
        Some(&device_id),
        "install_stable_conn_token must make the id device_for_token-resolvable"
    );

    driver.pipe_ended(start.stable_id);
    assert!(driver.routing_v1.device_for_token(stable_id).is_none());
}

#[test]
fn shadow_routing_mints_and_evicts_around_pipe_lifetime() {
    let mut driver = Driver::new();
    assert_eq!(driver.routing_v2.snapshot().pipes, 0);
    let start = start_pipe(
        &mut driver,
        start_data_pipe("shadow-peer", 1, ConnectRole::Central),
    );
    assert_eq!(
        driver.routing_v2.snapshot().pipes,
        1,
        "StartDataPipe must register exactly one shadow pipe"
    );
    driver.pipe_ended(start.stable_id);
    assert_eq!(driver.routing_v2.snapshot().pipes, 0);
}

#[test]
fn shadow_routing_tracks_direction_from_role() {
    let mut driver = Driver::new();
    start_pipe(
        &mut driver,
        start_data_pipe("central-peer", 1, ConnectRole::Central),
    );
    start_pipe(
        &mut driver,
        start_data_pipe("peripheral-peer", 1, ConnectRole::Peripheral),
    );

    let mut pipes = driver.routing_v2.pipes_for_debug();
    pipes.sort_by_key(|p| p.device_id.as_str().to_string());
    assert_eq!(pipes.len(), 2);
    assert_eq!(pipes[0].device_id, dev("central-peer"));
    assert_eq!(
        pipes[0].direction,
        Direction::Outbound,
        "Central role → Outbound"
    );
    assert_eq!(pipes[1].device_id, dev("peripheral-peer"));
    assert_eq!(
        pipes[1].direction,
        Direction::Inbound,
        "Peripheral role → Inbound"
    );
}

#[test]
fn upgrade_to_l2cap_reads_psm_and_emits_open_l2cap_succeeded() {
    let mut driver = Driver::new();
    let device_id = dev("upgrade");
    let effect = driver.execute(
        PeerAction::UpgradeToL2cap {
            device_id: device_id.clone(),
        },
        now(),
    );
    let target = match effect {
        DriverEffect::OpenL2cap { device_id } => device_id,
        other => panic!("expected OpenL2cap, got {other:?}"),
    };
    let (psm, _) = read_psm_with_retry(&READ_PSM_BACKOFFS_MS, || {
        psm_read(Ok(0x0080u16.to_le_bytes().to_vec()))
    });
    assert_eq!(psm, Ok(0x0080));
    match l2cap_command(target, L2capOpen::Opened(L2capChannel { id: 1 })) {
        PeerCommand::OpenL2capSucceeded { device_id: got, .. } => assert_eq!(got, device_id),
        other => panic!("expected OpenL2capSucceeded, got {other:?}"),
    }
}

#[test]
fn swap_pipe_to_l2cap_sends_channel_to_swap_tx() {
    let mut driver = Driver::new();
    let effect = driver.execute(
        PeerAction::SwapPipeToL2cap {
            device_id: dev("swap-dev"),
            channel: L2capChannel { id: 5 },
            swap_tx: SwapSender { id: 6 },
        },
        now(),
    );
    assert!(matches!(
        effect,
        DriverEffect::SwapPipe {
            channel: L2capChannel { id: 5 },
            swap_tx: SwapSender { id: 6 },
            ..
        }
    ));
}

#[test]
fn revert_to_gatt_pipe_emits_data_pipe_ready() {
    let mut driver = Driver::new();
    let start = start_pipe(
        &mut driver,
        PeerAction::RevertToGattPipe {
            device_id: dev("revert-dev"),
            tx_gen: 11,
            role: ConnectRole::Central,
        },
    );
    assert_eq!(start.device_id, dev("revert-dev"));
    assert_eq!(start.tx_gen, 11);
    assert_eq!(start.path, ConnectPath::Gatt);
}

#[test]
fn start_connect_spawns_connect_and_forwards_success() {
    let mut driver = Driver::new();
    let mut links = BlewDriver::new();
    let device_id = dev("x");
    let effect = driver.execute(
        PeerAction::StartConnect {
            device_id: device_id.clone(),
            attempt: 0,
        },
        now(),
    );
    let target = match effect {
        DriverEffect::Connect { device_id } => device_id,
        other => panic!("expected Connect, got {other:?}"),
    };
    assert_eq!(target, device_id);
    let handle = links.connect(&target);
    assert!(matches!(
        connect_command(target, Ok(handle)),
        PeerCommand::ConnectSucceeded { .. }
    ));
}

#[test]
fn channels_are_numbered_from_one() {
    let mut links = BlewDriver::new();
    assert_eq!(
        links.connect(&dev("a")),
        ChannelHandle {
            id: 1,
            path: ConnectPath::Gatt
        }
    );
    assert_eq!(links.connect(&dev("b")).id, 2);
    assert_eq!(links.channel_of(&dev("a")).map(|c| c.id), Some(1));
    links.disconnect(&dev("a"));
    assert_eq!(links.channel_of(&dev("a")), None);
    assert_eq!(links.channel_of(&dev("b")).map(|c| c.id), Some(2));
}

#[test]
fn failed_connects_and_opens_are_reported() {
    assert!(matches!(
        connect_command(dev("a"), Err("no".to_string())),
        PeerCommand::ConnectFailed { error, .. } if error == "no"
    ));
    assert!(matches!(
        l2cap_command(dev("a"), L2capOpen::Failed("bad".to_string())),
        PeerCommand::OpenL2capFailed { error, .. } if error == "bad"
    ));
    assert!(matches!(
        l2cap_command(dev("a"), L2capOpen::TimedOut),
        PeerCommand::OpenL2capFailed { error, .. } if error == "l2cap select timeout"
    ));
}

#[test]
fn versions_are_checked_where_they_are_published() {
    assert_eq!(version_read(Some(&[1, 9])), Some(1));
    assert_eq!(version_read(Some(&[])), None);
    assert_eq!(version_read(None), None);
    assert!(version_command(dev("a"), Some(1)).is_none());
    assert!(version_command(dev("a"), None).is_none());
    assert!(matches!(
        version_command(dev("a"), Some(2)),
        Some(PeerCommand::ProtocolVersionMismatch { got: 2, want: 1, .. })
    ));
}

#[test]
fn short_psm_values_are_absent() {
    assert!(matches!(psm_read(Ok(vec![1])), PsmRead::Absent));
    assert!(matches!(psm_read(Ok(vec![1, 0x10, 7])), PsmRead::Psm(0x1001)));
    assert!(matches!(
        psm_read(Err("gone".to_string())),
        PsmRead::Failed(e) if e == "gone"
    ));
}

#[test]
fn actions_are_executed_in_order() {
    let mut driver = Driver::new();
    let effects = driver.execute_all(
        vec![
            start_data_pipe("one", 1, ConnectRole::Central),
            PeerAction::AckSend {
                waker: WakerId { id: 3 },
                tx_gen: 1,
                result: Ok(()),
            },
            start_data_pipe("two", 1, ConnectRole::Peripheral),
        ],
        now(),
    );
    assert_eq!(effects.len(), 3);
    match (&effects[0], &effects[1], &effects[2]) {
        (
            DriverEffect::StartPipe(one),
            DriverEffect::Wake { waker },
            DriverEffect::StartPipe(two),
        ) => {
            assert_eq!(one.stable_id.as_u64(), 1);
            assert_eq!(waker.id, 3);
            assert_eq!(two.stable_id.as_u64(), 2);
        }
        other => panic!("wrong effects: {other:?}"),
    }
}

#[test]
fn metrics_are_told_apart() {
    assert!(matches!(
        log_peer_metric("connect_failed:no route"),
        MetricLog::ConnectFailed { error } if error == "no route"
    ));
    assert!(matches!(
        log_peer_metric("restore_unknown_device=AA"),
        MetricLog::RestoredUnknownDevice { device } if device == "AA"
    ));
    assert!(matches!(
        log_peer_metric("l2cap_fallback_to_gatt:psm"),
        MetricLog::FellBackToGatt { error } if error == "psm"
    ));
    assert!(matches!(
        log_peer_metric("connected_pipe_wedged"),
        MetricLog::PipeWedged
    ));
    assert!(matches!(
        log_peer_metric("l2cap_duplicate_accept"),
        MetricLog::DuplicateAccept
    ));
    assert!(matches!(
        log_peer_metric("l2cap_late_accept_swapped"),
        MetricLog::LateAcceptSwapped
    ));
    assert!(matches!(
        log_peer_metric("l2cap_late_accept_after_gatt"),
        MetricLog::LateAcceptAfterGatt
    ));
    assert!(matches!(
        log_peer_metric("l2cap"),
        MetricLog::Other { metric } if metric == "l2cap"
    ));
}

#[test]
fn a_running_pipe_is_reported_under_its_generation() {
    let mut driver = Driver::new();
    let start = start_pipe(
        &mut driver,
        start_data_pipe("ready", 11, ConnectRole::Central),
    );
    let (outbound_tx, mut outbound_rx) = channel(1);
    let (inbound_tx, _inbound_rx) = channel(1);
    let handles = PipeHandles {
        outbound_tx,
        inbound_tx,
        swap_tx: SwapSender { id: 6 },
    };
    match ready_command(&start, handles) {
        PeerCommand::DataPipeReady {
            device_id,
            tx_gen,
            handles,
        } => {
            assert_eq!(device_id, dev("ready"));
            assert_eq!(tx_gen, 11);
            assert_eq!(handles.swap_tx.id, 6);
            assert!(outbound_rx.try_recv().is_err());
            drop(handles);
            assert!(outbound_rx.try_recv().is_err());
        }
        other => panic!("expected DataPipeReady, got {other:?}"),
    }
}
