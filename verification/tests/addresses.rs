use iroh_ble_transport::address::{
    ble_custom_addr, is_valid_device_addr, parse_custom_addr,
};
use iroh_ble_transport::gatt::{
    advertising_config, build_gatt_services, extract_prefix_from_services, gatt_services_with_psm,
    iroh_key_uuid, parse_iroh_key_uuid, parse_psm_value, read_response, IROH_PSM_CHAR_UUID,
    IROH_SERVICE_UUID, IROH_VERSION_CHAR_UUID, KEY_UUID_PREFIX, PROTOCOL_VERSION,
};
use iroh_ble_transport::keys::{endpoint_of_secret, prefix_from_endpoint};
use iroh_ble_transport::peer::{EndpointId, ErrorKind, Uuid, KEY_PREFIX_LEN};
use iroh_ble_transport::routing::{
    parse_token_addr, token_custom_addr, CustomAddr, BLE_TRANSPORT_ID,
};
use iroh_ble_transport::transport::is_valid_send_addr;

fn make_endpoint_id(seed: u8) -> EndpointId {
    let mut secret_bytes = [0u8; 32];
    secret_bytes[0] = seed;
    endpoint_of_secret(&secret_bytes)
}

fn addr(id: u64, data: &[u8]) -> CustomAddr {
    CustomAddr {
        id,
        data: data.to_vec(),
    }
}

fn uuid(text: &str) -> Uuid {
    Uuid {
        bytes: *uuid::Uuid::parse_str(text).unwrap().as_bytes(),
    }
}

#[test]
fn token_custom_addr_roundtrip() {
    let addr = token_custom_addr(0xdead_beef_cafe_f00d);
    assert_eq!(parse_token_addr(&addr).unwrap(), 0xdead_beef_cafe_f00d);
}

#[test]
fn parse_token_addr_rejects_wrong_transport_id() {
    let wrong = addr(0x12_34_56, &0u64.to_le_bytes());
    assert!(parse_token_addr(&wrong).is_err());
}

#[test]
fn parse_token_addr_rejects_wrong_length() {
    let wrong = addr(BLE_TRANSPORT_ID, &[0u8; 4]);
    assert!(parse_token_addr(&wrong).is_err());
}

#[test]
fn token_addresses_are_little_endian() {
    let a = token_custom_addr(0x0102_0304_0506_0708);
    assert_eq!(a.id, 0x42_4c_45);
    assert_eq!(a.data, [8, 7, 6, 5, 4, 3, 2, 1]);
}

#[test]
fn token_address_errors_say_why() {
    let wrong_id = parse_token_addr(&addr(1, &[0; 8])).unwrap_err();
    assert_eq!(wrong_id.kind, ErrorKind::Other);
    assert_eq!(wrong_id.message, "not a BLE transport address");
    let wrong_len = parse_token_addr(&addr(BLE_TRANSPORT_ID, &[0; 9])).unwrap_err();
    assert_eq!(wrong_len.message, "BLE custom addr has wrong length");
}

#[test]
fn sends_go_to_token_addresses_only() {
    assert!(is_valid_send_addr(&token_custom_addr(3)));
    assert!(!is_valid_send_addr(&addr(BLE_TRANSPORT_ID, &[1, 2, 3])));
    assert!(!is_valid_send_addr(&addr(7, &[0; 8])));
}

#[test]
fn prefix_from_endpoint_extracts_first_twelve_bytes() {
    let eid = endpoint_of_secret(&[7u8; 32]);
    let prefix = prefix_from_endpoint(&eid);
    assert_eq!(prefix, eid.as_bytes()[..KEY_PREFIX_LEN]);
}

#[test]
fn public_keys_are_those_of_the_key_library() {
    for seed in [0u8, 1, 7, 0x80, 0xff] {
        let theirs = iroh_base::SecretKey::from_bytes(&[seed; 32]).public();
        assert_eq!(
            endpoint_of_secret(&[seed; 32]).as_bytes(),
            theirs.as_bytes()
        );
    }
    assert_ne!(endpoint_of_secret(&[7; 32]).as_bytes(), &[7; 32]);
}

#[test]
fn test_key_uuid_roundtrip() {
    let id = make_endpoint_id(1);
    let key_bytes = id.as_bytes();

    let uuid = iroh_key_uuid(&id);
    let prefix = parse_iroh_key_uuid(&uuid).expect("should parse");

    assert_eq!(prefix, key_bytes[..KEY_PREFIX_LEN]);
}

#[test]
fn test_key_uuid_prefix_bytes() {
    let id = make_endpoint_id(2);
    let key_bytes = id.as_bytes();
    let uuid = iroh_key_uuid(&id);
    let bytes = uuid.bytes;

    assert_eq!(&bytes[..4], &KEY_UUID_PREFIX);
    assert_eq!(&bytes[4..16], &key_bytes[..12]);
}

#[test]
fn test_parse_iroh_key_uuid_rejects_wrong_prefix() {
    let uuid = uuid("12345678-0000-0000-0000-000000000000");
    assert!(parse_iroh_key_uuid(&uuid).is_none());
}

#[test]
fn test_parse_iroh_key_uuid_rejects_service_uuid() {
    let result = parse_iroh_key_uuid(&Uuid {
        bytes: IROH_SERVICE_UUID,
    });
    assert!(result.is_none());
}

#[test]
fn test_key_to_prefix() {
    let id = make_endpoint_id(3);
    let key_bytes = id.as_bytes();
    let prefix = prefix_from_endpoint(&id);
    assert_eq!(prefix, key_bytes[..KEY_PREFIX_LEN]);
}

#[test]
fn test_custom_addr_roundtrip() {
    let device_key = "AA:BB:CC:DD:EE:FF";
    let addr = ble_custom_addr(device_key);
    let parsed = parse_custom_addr(&addr).expect("should parse");
    assert_eq!(parsed, device_key);
}

#[test]
fn test_parse_custom_addr_wrong_transport_id() {
    let addr = addr(0x12345, &[0u8; 32]);
    let result = parse_custom_addr(&addr);
    assert!(result.is_err());
}

#[test]
fn test_parse_custom_addr_invalid_utf8() {
    let addr = addr(BLE_TRANSPORT_ID, &[0xFF, 0xFE]);
    let result = parse_custom_addr(&addr);
    assert!(result.is_err());
}

#[test]
fn device_names_beyond_ascii_survive() {
    let name = "Gerät-七-🛰";
    let a = ble_custom_addr(name);
    assert_eq!(a.data, name.as_bytes());
    assert_eq!(parse_custom_addr(&a).unwrap(), name);
    assert!(is_valid_device_addr(&a));
    assert!(!is_valid_device_addr(&ble_custom_addr("")));
    assert!(!is_valid_device_addr(&addr(1, b"x")));
    assert_eq!(
        parse_custom_addr(&addr(BLE_TRANSPORT_ID, &[0xc3])).unwrap_err().message,
        "invalid device key in BLE custom addr"
    );
    assert_eq!(
        parse_custom_addr(&addr(0, b"x")).unwrap_err().message,
        "not a BLE transport address"
    );
}

#[test]
fn test_different_keys_different_prefixes() {
    let id_a = make_endpoint_id(10);
    let id_b = make_endpoint_id(20);
    assert_ne!(prefix_from_endpoint(&id_a), prefix_from_endpoint(&id_b));
}

#[test]
fn parse_psm_valid_two_bytes() {
    assert_eq!(parse_psm_value(&[0x01, 0x10]), Some(0x1001));
}

#[test]
fn parse_psm_zero_is_none() {
    assert_eq!(parse_psm_value(&[0, 0]), None);
}

#[test]
fn parse_psm_too_short_is_none() {
    assert_eq!(parse_psm_value(&[0x01]), None);
    assert_eq!(parse_psm_value(&[]), None);
}

#[test]
fn parse_psm_extra_bytes_uses_first_two() {
    assert_eq!(parse_psm_value(&[0x01, 0x10, 0xFF]), Some(0x1001));
}

#[test]
fn extract_prefix_happy_path() {
    let svc = uuid("69726f00-0102-0304-0506-070809100b0c");
    let prefix = extract_prefix_from_services(&[svc]).unwrap();
    assert_eq!(prefix, svc.bytes[4..16]);
}

#[test]
fn extract_prefix_no_match() {
    let svc = uuid("12345678-1234-1234-1234-123456789abc");
    assert!(extract_prefix_from_services(&[svc]).is_none());
}

#[test]
fn extract_prefix_empty() {
    assert!(extract_prefix_from_services(&[]).is_none());
}

#[test]
fn first_key_uuid_decides_the_prefix() {
    let other = uuid("12345678-1234-1234-1234-123456789abc");
    let one = uuid("69726f00-0101-0101-0101-010101010101");
    let two = uuid("69726f00-0202-0202-0202-020202020202");
    assert_eq!(extract_prefix_from_services(&[other, one, two]), Some([1; 12]));
    assert_eq!(extract_prefix_from_services(&[two, one]), Some([2; 12]));
}

#[test]
fn service_constants_match_their_text() {
    assert_eq!(
        IROH_SERVICE_UUID,
        uuid("69726f01-8e45-4c2c-b3a5-331f3098b5c2").bytes
    );
    assert_eq!(
        IROH_PSM_CHAR_UUID,
        uuid("69726f04-8e45-4c2c-b3a5-331f3098b5c2").bytes
    );
    assert_eq!(
        IROH_VERSION_CHAR_UUID,
        uuid("69726f05-8e45-4c2c-b3a5-331f3098b5c2").bytes
    );
}

#[test]
fn services_are_published_with_the_key() {
    let key = iroh_key_uuid(&make_endpoint_id(5));
    let services = build_gatt_services(key);
    assert_eq!(services.len(), 2);
    assert_eq!(services[0].uuid.bytes, IROH_SERVICE_UUID);
    assert!(services[0].primary);
    assert_eq!(services[0].characteristics.len(), 4);
    assert_eq!(services[0].characteristics[2].value, [PROTOCOL_VERSION]);
    assert!(services[0].characteristics[3].value.is_empty());
    assert_eq!(services[1].uuid, key);
    assert!(!services[1].primary);
    assert!(services[1].characteristics.is_empty());

    let config = advertising_config(key);
    assert_eq!(config.local_name, "iroh");
    assert_eq!(config.service_uuids, [key]);
}

#[test]
fn psm_is_published_only_if_there_is_one() {
    let key = iroh_key_uuid(&make_endpoint_id(5));
    assert_eq!(gatt_services_with_psm(key, None)[0].characteristics.len(), 3);
    let with = gatt_services_with_psm(key, Some(0x1001));
    assert_eq!(with[0].characteristics.len(), 4);
    assert_eq!(with[0].characteristics[3].uuid.bytes, IROH_PSM_CHAR_UUID);
    assert_eq!(with[0].characteristics[3].value, [0x01, 0x10]);
    assert_eq!(parse_psm_value(&with[0].characteristics[3].value), Some(0x1001));
}

#[test]
fn reads_answer_version_and_psm() {
    let psm = Uuid {
        bytes: IROH_PSM_CHAR_UUID,
    };
    let version = Uuid {
        bytes: IROH_VERSION_CHAR_UUID,
    };
    let other = Uuid { bytes: [9; 16] };
    assert_eq!(read_response(&psm, Some(0x80)), [0x80, 0]);
    assert!(read_response(&psm, None).is_empty());
    assert_eq!(read_response(&version, None), [1]);
    assert!(read_response(&other, Some(1)).is_empty());
}
