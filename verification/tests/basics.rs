use iroh_ble_transport::gatt::{
    IROH_C2P_CHAR_UUID, IROH_P2C_CHAR_UUID, IROH_PSM_CHAR_UUID, IROH_SERVICE_UUID,
    IROH_VERSION_CHAR_UUID,
};
use iroh_ble_transport::lifecycle::reconnect_backoff;
use iroh_ble_transport::peer::FragmentSource;
use iroh_ble_transport::time::Duration;

#[test]
fn fragment_source_distinguishes_direction() {
    assert_ne!(
        FragmentSource::CentralReceivedP2c,
        FragmentSource::PeripheralReceivedC2p
    );
}

#[test]
fn backoff_caps_at_30s() {
    assert!(reconnect_backoff(20) <= Duration::from_secs(30));
}

#[test]
fn test_characteristic_uuids_are_distinct() {
    let uuids = [
        IROH_SERVICE_UUID,
        IROH_C2P_CHAR_UUID,
        IROH_P2C_CHAR_UUID,
        IROH_PSM_CHAR_UUID,
        IROH_VERSION_CHAR_UUID,
    ];
    for (i, a) in uuids.iter().enumerate() {
        for (j, b) in uuids.iter().enumerate() {
            if i != j {
                assert_ne!(a, b, "UUIDs at index {i} and {j} must be distinct");
            }
        }
    }
}
