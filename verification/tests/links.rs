use iroh_ble_transport::l2cap::{
    frame_length, read_framed_datagram, read_identity, write_framed_datagram, write_identity,
    FrameReader, MAX_DATAGRAM_SIZE,
};
use iroh_ble_transport::peer::{ConnectPath, ConnectRole, DeviceId, ErrorKind, PeerCommand};
use iroh_ble_transport::pipe::{
    chunk_size, fragment_write, gatt_step, handover_timeout_command, l2cap_step, stalled_command,
    FragmentWrite, GattEvent, GattStep, L2capEvent, L2capStep, PipeEvent, PipeStep, Supervisor,
    GATT_DRAIN_DEADLINE,
};
use iroh_ble_transport::time::Instant;

fn at(nanos: u64) -> Instant {
    Instant::from_nanos(nanos)
}

#[test]
fn round_trip_single_datagram() {
    let payload = b"hello world".to_vec();
    let wire = write_framed_datagram(&payload).unwrap();
    let (got, used) = read_framed_datagram(&wire).unwrap().unwrap();
    assert_eq!(got, payload);
    assert_eq!(used, wire.len());

    let payload2 = b"reply".to_vec();
    let wire2 = write_framed_datagram(&payload2).unwrap();
    let (got2, _) = read_framed_datagram(&wire2).unwrap().unwrap();
    assert_eq!(got2, payload2);
}

#[test]
fn back_to_back_datagrams() {
    let mut stream = Vec::new();
    for i in 0_u8..5 {
        let payload = vec![i; 10];
        stream.extend(write_framed_datagram(&payload).unwrap());
    }
    let mut rest = stream.as_slice();
    for i in 0_u8..5 {
        let (got, used) = read_framed_datagram(rest).unwrap().unwrap();
        assert_eq!(got, vec![i; 10]);
        rest = &rest[used..];
    }
    assert!(rest.is_empty());
}

#[test]
fn oversized_payload_rejected_by_writer() {
    let too_big = vec![0_u8; MAX_DATAGRAM_SIZE + 1];
    let err = write_framed_datagram(&too_big).unwrap_err();
    assert_eq!(err.kind, ErrorKind::InvalidInput);
}

#[test]
fn clean_eof_returns_none() {
    let got = read_framed_datagram(&[]).unwrap();
    assert!(got.is_none());
}

#[test]
fn truncated_length_prefix_is_error() {
    let err = read_framed_datagram(&[0x01]).unwrap_err();
    assert_eq!(err.kind, ErrorKind::UnexpectedEof);
}

#[test]
fn truncated_payload_is_error() {
    let mut stream = 10_u16.to_le_bytes().to_vec();
    stream.extend([1, 2, 3]);
    let err = read_framed_datagram(&stream).unwrap_err();
    assert_eq!(err.kind, ErrorKind::UnexpectedEof);
}

#[test]
fn frames_are_length_prefixed() {
    assert_eq!(write_framed_datagram(b"abc").unwrap(), [3, 0, b'a', b'b', b'c']);
    assert_eq!(frame_length(&[0xc0, 0x05]).unwrap(), 1472);
    let err = frame_length(&[0xc1, 0x05]).unwrap_err();
    assert_eq!(err.kind, ErrorKind::InvalidData);
}

#[test]
fn exchange_identities_symmetric() {
    let id_a = [1_u8; 32];
    let id_b = [2_u8; 32];
    let a_to_b = write_identity(&id_a);
    let b_to_a = write_identity(&id_b);
    assert_eq!(read_identity(&b_to_a, false).unwrap(), id_b);
    assert_eq!(read_identity(&a_to_b, false).unwrap(), id_a);
}

#[test]
fn read_identity_times_out_if_peer_never_writes() {
    let err = read_identity(&[], true).unwrap_err();
    assert_eq!(err.kind, ErrorKind::TimedOut);
}

#[test]
fn read_identity_errors_on_short_stream() {
    let err = read_identity(&[1_u8; 10], false).unwrap_err();
    assert_eq!(err.kind, ErrorKind::UnexpectedEof);
}

#[test]
fn outbound_datagram_reaches_iface_write_c2p() {
    let mut pipe = Supervisor::start(ConnectPath::Gatt, false).unwrap();
    assert_eq!(pipe.on_event(PipeEvent::Send, at(1)), PipeStep::SendOverGatt);
    assert_eq!(gatt_step(GattEvent::Send), GattStep::Enqueue);
    assert_eq!(fragment_write(ConnectRole::Central), FragmentWrite::WriteC2p);
}

#[test]
fn peripheral_role_uses_notify_p2c() {
    let mut pipe = Supervisor::start(ConnectPath::Gatt, false).unwrap();
    assert_eq!(pipe.on_event(PipeEvent::Send, at(1)), PipeStep::SendOverGatt);
    assert_eq!(
        fragment_write(ConnectRole::Peripheral),
        FragmentWrite::NotifyP2c
    );
}

#[test]
fn gatt_worker_quiesce_exits_without_stalled() {
    match gatt_step(GattEvent::ShutDown) {
        GattStep::Stop {
            report_stalled,
            mark_teardown,
            ..
        } => {
            assert!(!report_stalled, "quiesce must not emit any PeerCommand");
            assert!(mark_teardown);
        }
        other => panic!("expected Stop, got {other:?}"),
    }
}

#[test]
fn swap_to_l2cap_does_not_deadlock_and_routes_subsequent_sends() {
    let mut pipe = Supervisor::start(ConnectPath::Gatt, false).unwrap();
    assert_eq!(pipe.on_event(PipeEvent::Send, at(1)), PipeStep::SendOverGatt);
    assert_eq!(pipe.on_event(PipeEvent::Taken, at(2)), PipeStep::Wait);
    assert_eq!(pipe.on_event(PipeEvent::Channel, at(3)), PipeStep::HandOver);
    assert_eq!(pipe.on_event(PipeEvent::Send, at(4)), PipeStep::SendOverL2cap);
    let wire = write_framed_datagram(b"after-swap").unwrap();
    assert_eq!(u16::from_le_bytes([wire[0], wire[1]]) as usize, b"after-swap".len());
    assert_eq!(&wire[2..], b"after-swap");
    assert_eq!(pipe.on_event(PipeEvent::Taken, at(5)), PipeStep::Wait);
    assert_eq!(
        pipe.on_event(PipeEvent::SendsClosed, at(6)),
        PipeStep::Stop { timed_out: false }
    );
}

#[test]
fn post_swap_gatt_fragments_still_reassemble_during_drain_window() {
    let mut pipe = Supervisor::start(ConnectPath::Gatt, false).unwrap();
    assert_eq!(
        pipe.on_event(PipeEvent::Fragment, at(1)),
        PipeStep::ReassembleFragment
    );
    pipe.on_event(PipeEvent::Taken, at(1));
    assert_eq!(pipe.on_event(PipeEvent::Channel, at(2)), PipeStep::HandOver);
    assert_eq!(
        pipe.on_event(PipeEvent::Fragment, at(50_000_002)),
        PipeStep::ReassembleLateFragment
    );
    pipe.on_event(PipeEvent::Taken, at(50_000_002));
    assert_eq!(
        pipe.on_event(PipeEvent::Fragment, at(2 + GATT_DRAIN_DEADLINE - 1)),
        PipeStep::ReassembleLateFragment
    );
    pipe.on_event(PipeEvent::Taken, at(2 + GATT_DRAIN_DEADLINE - 1));
    assert_eq!(
        pipe.on_event(PipeEvent::Fragment, at(2 + GATT_DRAIN_DEADLINE)),
        PipeStep::DropFragment
    );
}

#[test]
fn supervisor_shuts_down_cleanly_on_outbound_close() {
    let mut pipe = Supervisor::start(ConnectPath::Gatt, false).unwrap();
    assert_eq!(
        pipe.on_event(PipeEvent::SendsClosed, at(1)),
        PipeStep::Stop { timed_out: false }
    );
    assert!(pipe.stopped);
}

#[test]
fn l2cap_pipes_need_a_channel() {
    assert!(Supervisor::start(ConnectPath::L2cap, false).is_none());
    let mut pipe = Supervisor::start(ConnectPath::L2cap, true).unwrap();
    assert_eq!(pipe.on_event(PipeEvent::Channel, at(1)), PipeStep::DropChannel);
    assert_eq!(pipe.on_event(PipeEvent::Fragment, at(1)), PipeStep::DropFragment);
}

#[test]
fn handover_timeouts_are_reported_once() {
    let mut pipe = Supervisor::start(ConnectPath::L2cap, true).unwrap();
    pipe.on_event(PipeEvent::Send, at(1));
    assert_eq!(
        pipe.on_event(PipeEvent::TimedOut, at(2)),
        PipeStep::Stop { timed_out: true }
    );
    assert_eq!(
        pipe.on_event(PipeEvent::TimedOut, at(3)),
        PipeStep::Stop { timed_out: false }
    );
    let device = DeviceId::new("d");
    assert!(matches!(
        handover_timeout_command(&device),
        PeerCommand::L2capHandoverTimeout { device_id } if device_id == device
    ));
}

#[test]
fn a_retired_worker_that_ends_only_stops_the_drain() {
    let mut pipe = Supervisor::start(ConnectPath::Gatt, false).unwrap();
    pipe.on_event(PipeEvent::Channel, at(1));
    pipe.on_event(PipeEvent::Fragment, at(2));
    assert_eq!(pipe.on_event(PipeEvent::WorkerGone, at(3)), PipeStep::Wait);
    assert_eq!(pipe.on_event(PipeEvent::Fragment, at(4)), PipeStep::DropFragment);
    pipe.on_event(PipeEvent::Send, at(5));
    assert_eq!(
        pipe.on_event(PipeEvent::WorkerGone, at(6)),
        PipeStep::Stop { timed_out: false }
    );
}

#[test]
fn dead_links_are_reported_as_stalled() {
    assert!(matches!(
        gatt_step(GattEvent::SendLoopEnded { link_dead: true }),
        GattStep::Stop {
            report_stalled: true,
            ..
        }
    ));
    assert!(matches!(
        gatt_step(GattEvent::SendLoopEnded { link_dead: false }),
        GattStep::Stop {
            report_stalled: false,
            ..
        }
    ));
    let device = DeviceId::new("d");
    assert!(matches!(
        stalled_command(&device),
        PeerCommand::Stalled { device_id } if device_id == device
    ));
}

#[test]
fn ended_streams_report_the_link() {
    assert_eq!(
        l2cap_step(L2capEvent::StreamEnded),
        L2capStep::Stop {
            wake_sender: false,
            report_stalled: true
        }
    );
}

#[test]
fn refused_datagrams_wake_their_sender() {
    assert_eq!(l2cap_step(L2capEvent::Send), L2capStep::Write);
    assert_eq!(l2cap_step(L2capEvent::Taken), L2capStep::WakeSender);
    assert_eq!(
        l2cap_step(L2capEvent::Refused),
        L2capStep::Stop {
            wake_sender: true,
            report_stalled: true
        }
    );
    assert_eq!(
        l2cap_step(L2capEvent::SendsClosed),
        L2capStep::Stop {
            wake_sender: false,
            report_stalled: false
        }
    );
}

#[test]
fn fragments_fill_the_mtu() {
    assert_eq!(chunk_size(0), 21);
    assert_eq!(chunk_size(23), 21);
    assert_eq!(chunk_size(24), 21);
    assert_eq!(chunk_size(25), 22);
    assert_eq!(chunk_size(185), 182);
    assert_eq!(chunk_size(512), 509);
}

#[test]
fn datagrams_are_read_in_whatever_pieces_they_come() {
    let sent = [b"one".to_vec(), Vec::new(), vec![7; MAX_DATAGRAM_SIZE]];
    let stream: Vec<u8> = sent
        .iter()
        .flat_map(|datagram| write_framed_datagram(datagram).unwrap())
        .collect();
    assert_eq!(&stream[..5], [3, 0, b'o', b'n', b'e']);
    for piece in [1, 2, 3, 700, stream.len()] {
        let mut reader = FrameReader::new();
        let mut got = Vec::new();
        for bytes in stream.chunks(piece) {
            reader.push(bytes);
            while let Some(datagram) = reader.next_datagram().unwrap() {
                got.push(datagram);
            }
        }
        assert_eq!(got, sent);
        assert!(reader.end().is_ok());
    }
}

#[test]
fn broken_streams_are_noticed() {
    let mut reader = FrameReader::new();
    reader.push(&[5, 0, 1, 2]);
    assert!(reader.next_datagram().unwrap().is_none());
    let cut = reader.end().unwrap_err();
    assert_eq!(cut.kind, ErrorKind::UnexpectedEof);
    assert_eq!(cut.message, "early eof");

    let mut reader = FrameReader::new();
    reader.push(&[0xc1, 0x05]);
    let long = reader.next_datagram().unwrap_err();
    assert_eq!(long.kind, ErrorKind::InvalidData);
    assert_eq!(
        long.message,
        "frame length 1473 exceeds MAX_DATAGRAM_SIZE"
    );
}
