use iroh_ble_transport::error::{BleError, IoError, StackError};
use iroh_ble_transport::peer::{DeviceId, ErrorKind, Uuid};
use iroh_ble_transport::setup::{
    Binding, DirectEvent, DirectSetup, DirectStage, Setup, SetupError, SetupEvent, SetupStage,
};
use iroh_ble_transport::transport::L2capPolicy;

#[test]
fn setup_runs_through_every_step() {
    let mut s = Setup::begin(2, L2capPolicy::PreferL2cap);
    let mut stages = vec![s.stage];
    while s.stage != SetupStage::Listen {
        s = s.on_event(SetupEvent::Done).unwrap();
        stages.push(s.stage);
    }
    assert_eq!(
        stages,
        [
            SetupStage::AwaitCentral,
            SetupStage::AwaitPeripheral,
            SetupStage::AddService { index: 0 },
            SetupStage::AddService { index: 1 },
            SetupStage::Advertise,
            SetupStage::Scan,
            SetupStage::Listen,
        ]
    );
    s = s.on_event(SetupEvent::Listening { psm: 0x81 }).unwrap();
    assert_eq!(s.stage, SetupStage::Run);
    assert_eq!(s.psm, Some(0x81));
    assert!(s.scanning);
}

#[test]
fn setup_tolerates_missing_scan_and_listener() {
    let mut s = Setup::begin(0, L2capPolicy::PreferL2cap);
    for _ in 0..3 {
        s = s.on_event(SetupEvent::Done).unwrap();
    }
    assert_eq!(s.stage, SetupStage::Scan);
    s = s
        .on_event(SetupEvent::Failed(StackError::NotSupported))
        .unwrap();
    assert!(!s.scanning);
    s = s.on_event(SetupEvent::Failed(StackError::Timeout)).unwrap();
    assert_eq!(s.stage, SetupStage::Run);
    assert_eq!(s.psm, None);
}

#[test]
fn setup_reports_other_failures() {
    let s = Setup::begin(1, L2capPolicy::Disabled);
    assert!(matches!(
        s.on_event(SetupEvent::Failed(StackError::NotPowered)),
        Err(SetupError::Timeout { stage: "wait_ready" })
    ));
    let scan = Setup {
        stage: SetupStage::Scan,
        ..s
    };
    assert!(matches!(
        scan.on_event(SetupEvent::Failed(StackError::Timeout)),
        Err(SetupError::Ble(BleError::Timeout))
    ));
    assert_eq!(
        scan.on_event(SetupEvent::Done).unwrap().stage,
        SetupStage::Run,
        "without L2CAP there is no listener"
    );
}

#[test]
fn direct_setup_waits_for_power() {
    let s = DirectSetup::begin(2);
    let waiting = s.on_event(DirectEvent::Powered(false)).unwrap();
    assert_eq!(waiting.stage, DirectStage::AwaitPower);
    let still = waiting.on_event(DirectEvent::Powered(false)).unwrap();
    assert_eq!(still.stage, DirectStage::AwaitPower);
    assert_eq!(
        still
            .on_event(DirectEvent::EventsEnded)
            .unwrap_err()
            .message(),
        "Peripheral role error: event stream closed during init"
    );
    assert_eq!(
        still.on_event(DirectEvent::TimedOut).unwrap_err().message(),
        "Peripheral role error: timed out waiting for Bluetooth to power on (is BT enabled and authorised?)"
    );
    let on = still.on_event(DirectEvent::Powered(true)).unwrap();
    assert_eq!(on.stage, DirectStage::Listen);
    let listening = on.on_event(DirectEvent::Listening { psm: 5 }).unwrap();
    assert_eq!(listening.psm, Some(5));
    assert_eq!(listening.stage, DirectStage::AddService { index: 0 });
    let deaf = on
        .on_event(DirectEvent::Failed(StackError::NotSupported))
        .unwrap();
    assert_eq!(deaf.psm, None);
    assert_eq!(deaf.stage, DirectStage::AddService { index: 0 });
}

#[test]
fn direct_setup_needs_the_scan() {
    let mut s = DirectSetup::begin(1);
    s = s.on_event(DirectEvent::Powered(true)).unwrap();
    for _ in 0..3 {
        s = s.on_event(DirectEvent::Done).unwrap();
    }
    assert_eq!(s.stage, DirectStage::Scan);
    assert!(matches!(
        s.on_event(DirectEvent::Failed(StackError::NotSupported)),
        Err(BleError::Unsupported)
    ));
    assert_eq!(s.on_event(DirectEvent::Done).unwrap().stage, DirectStage::Run);
}

#[test]
fn transports_are_bound_once() {
    let mut b = Binding::new();
    assert_eq!(
        b.bind(true).unwrap_err().message,
        "BleTransport bind() contention"
    );
    assert_eq!(b.bind(false).unwrap().data, [0; 8]);
    assert_eq!(
        b.bind(false).unwrap_err().message,
        "BleTransport bind() already called"
    );
    let mut b = Binding::new();
    assert_eq!(
        b.bind_direct(true).unwrap_err().message,
        "BLE transport bind() contention"
    );
    assert_eq!(b.bind_direct(false).unwrap().data, b"local");
    assert_eq!(
        b.bind_direct(false).unwrap_err().message,
        "BLE transport bind() already called"
    );
}

#[test]
fn stack_errors_keep_their_meaning() {
    let id = || DeviceId::new("AA");
    let uuid = Uuid {
        bytes: *uuid::Uuid::parse_str("69726f05-8e45-4c2c-b3a5-331f3098b5c2")
            .unwrap()
            .as_bytes(),
    };
    let text = |e: StackError| BleError::from_stack(e).message();
    assert_eq!(text(StackError::AdapterNotFound), "Bluetooth adapter not found");
    assert_eq!(
        text(StackError::NotSupported),
        "BLE not supported on this platform"
    );
    assert_eq!(
        text(StackError::NotPowered),
        "Peripheral role error: adapter not powered"
    );
    assert_eq!(text(StackError::DeviceNotFound(id())), "Device not found: AA");
    assert_eq!(
        text(StackError::NotConnected(id())),
        "Not connected to device: AA"
    );
    assert_eq!(
        text(StackError::CharacteristicNotFound {
            device_id: id(),
            char_uuid: uuid,
        }),
        "Characteristic not found: AA:69726f05-8e45-4c2c-b3a5-331f3098b5c2"
    );
    assert_eq!(
        text(StackError::LocalCharacteristicNotFound { char_uuid: uuid }),
        "Characteristic not found: 69726f05-8e45-4c2c-b3a5-331f3098b5c2"
    );
    assert_eq!(text(StackError::AlreadyAdvertising), "Already advertising");
    assert_eq!(text(StackError::Timeout), "Operation timed out");
    assert_eq!(text(StackError::GattBusy(id())), "GATT busy on device: AA");
}

#[test]
fn errors_of_the_roles_keep_their_text() {
    assert_eq!(
        BleError::CentralError("c".to_string()).message(),
        "Central role error: c"
    );
    assert_eq!(
        BleError::ChannelError("c".to_string()).message(),
        "Channel error: c"
    );
    assert_eq!(
        BleError::ProtocolVersionMismatch {
            local: 1,
            remote: 255
        }
        .message(),
        "protocol version mismatch: local=1, remote=255"
    );
    let e = IoError::new(ErrorKind::NotFound, "x");
    assert_eq!((e.kind, e.message.as_str()), (ErrorKind::NotFound, "x"));
}
