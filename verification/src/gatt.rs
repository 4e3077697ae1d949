//! What a node publishes over GATT: its service table, and the UUID that
//! carries its key.

use vstd::prelude::*;
use vstd::slice::slice_subrange;

use crate::bytes::{
    bytes_equal, le16, le16_value, two_bytes_are_read_back, u16_bytes, u16_of,
};
use crate::keys::{prefix_from_endpoint, prefix_of};
use crate::peer::{EndpointId, KeyPrefix, Uuid};

verus! {

/// 69726f01-8e45-4c2c-b3a5-331f3098b5c2: the data service.
pub const IROH_SERVICE_UUID: [u8; 16] = [
    0x69, 0x72, 0x6f, 0x01, 0x8e, 0x45, 0x4c, 0x2c, 0xb3, 0xa5, 0x33, 0x1f, 0x30, 0x98, 0xb5, 0xc2,
];

/// 69726f02-8e45-4c2c-b3a5-331f3098b5c2: the central writes here.
pub const IROH_C2P_CHAR_UUID: [u8; 16] = [
    0x69, 0x72, 0x6f, 0x02, 0x8e, 0x45, 0x4c, 0x2c, 0xb3, 0xa5, 0x33, 0x1f, 0x30, 0x98, 0xb5, 0xc2,
];

/// 69726f03-8e45-4c2c-b3a5-331f3098b5c2: the peripheral notifies here.
pub const IROH_P2C_CHAR_UUID: [u8; 16] = [
    0x69, 0x72, 0x6f, 0x03, 0x8e, 0x45, 0x4c, 0x2c, 0xb3, 0xa5, 0x33, 0x1f, 0x30, 0x98, 0xb5, 0xc2,
];

/// 69726f04-8e45-4c2c-b3a5-331f3098b5c2: the PSM of the L2CAP listener.
pub const IROH_PSM_CHAR_UUID: [u8; 16] = [
    0x69, 0x72, 0x6f, 0x04, 0x8e, 0x45, 0x4c, 0x2c, 0xb3, 0xa5, 0x33, 0x1f, 0x30, 0x98, 0xb5, 0xc2,
];

/// 69726f05-8e45-4c2c-b3a5-331f3098b5c2: the protocol version.
pub const IROH_VERSION_CHAR_UUID: [u8; 16] = [
    0x69, 0x72, 0x6f, 0x05, 0x8e, 0x45, 0x4c, 0x2c, 0xb3, 0xa5, 0x33, 0x1f, 0x30, 0x98, 0xb5, 0xc2,
];

/// The first bytes of every UUID that carries a key: "iro" and a zero.
pub const KEY_UUID_PREFIX: [u8; 4] = [0x69, 0x72, 0x6f, 0x00];

/// The protocol version that this node speaks and publishes.
pub const PROTOCOL_VERSION: u8 = 1;

/// The five UUIDs are pairwise distinct, and none of them carries a key.
pub proof fn uuids_are_distinct()
    ensures
        IROH_SERVICE_UUID@ != IROH_C2P_CHAR_UUID@,
        IROH_SERVICE_UUID@ != IROH_P2C_CHAR_UUID@,
        IROH_SERVICE_UUID@ != IROH_PSM_CHAR_UUID@,
        IROH_SERVICE_UUID@ != IROH_VERSION_CHAR_UUID@,
        IROH_C2P_CHAR_UUID@ != IROH_P2C_CHAR_UUID@,
        IROH_C2P_CHAR_UUID@ != IROH_PSM_CHAR_UUID@,
        IROH_C2P_CHAR_UUID@ != IROH_VERSION_CHAR_UUID@,
        IROH_P2C_CHAR_UUID@ != IROH_PSM_CHAR_UUID@,
        IROH_P2C_CHAR_UUID@ != IROH_VERSION_CHAR_UUID@,
        IROH_PSM_CHAR_UUID@ != IROH_VERSION_CHAR_UUID@,
        !carries_key(IROH_SERVICE_UUID@),
        !carries_key(IROH_C2P_CHAR_UUID@),
        !carries_key(IROH_P2C_CHAR_UUID@),
        !carries_key(IROH_PSM_CHAR_UUID@),
        !carries_key(IROH_VERSION_CHAR_UUID@),
{
    assert(IROH_SERVICE_UUID@[3] == 1);
    assert(IROH_C2P_CHAR_UUID@[3] == 2);
    assert(IROH_P2C_CHAR_UUID@[3] == 3);
    assert(IROH_PSM_CHAR_UUID@[3] == 4);
    assert(IROH_VERSION_CHAR_UUID@[3] == 5);
    assert(IROH_SERVICE_UUID@.take(4)[3] == 1);
    assert(IROH_C2P_CHAR_UUID@.take(4)[3] == 2);
    assert(IROH_P2C_CHAR_UUID@.take(4)[3] == 3);
    assert(IROH_PSM_CHAR_UUID@.take(4)[3] == 4);
    assert(IROH_VERSION_CHAR_UUID@.take(4)[3] == 5);
    assert(KEY_UUID_PREFIX@[3] == 0);
}

/// The UUID carries a key prefix.
pub open spec fn carries_key(uuid: Seq<u8>) -> bool {
    uuid.take(4) == KEY_UUID_PREFIX@
}

/// The UUID under which a key advertises.
pub open spec fn key_uuid(key: Seq<u8>) -> Seq<u8> {
    KEY_UUID_PREFIX@ + prefix_of(key)
}

/// The UUID under which an endpoint advertises: it carries the first twelve
/// bytes of the key.
pub fn iroh_key_uuid(endpoint_id: &EndpointId) -> (uuid: Uuid)
    ensures
        uuid@ == key_uuid(endpoint_id@),
{
    let p = prefix_from_endpoint(endpoint_id);
    let k = KEY_UUID_PREFIX;
    let bytes: [u8; 16] = [
        k[0],
        k[1],
        k[2],
        k[3],
        p[0],
        p[1],
        p[2],
        p[3],
        p[4],
        p[5],
        p[6],
        p[7],
        p[8],
        p[9],
        p[10],
        p[11],
    ];
    assert(p@ =~= prefix_of(endpoint_id@));
    assert(bytes@ =~= key_uuid(endpoint_id@));
    Uuid { bytes }
}

/// The key prefix that a UUID carries, if it carries one.
pub fn parse_iroh_key_uuid(uuid: &Uuid) -> (r: Option<KeyPrefix>)
    ensures
        match r {
            Some(prefix) => carries_key(uuid@) && prefix@ == uuid@.skip(4),
            None => !carries_key(uuid@),
        },
{
    let b = &uuid.bytes;
    let k = KEY_UUID_PREFIX;
    if b[0] == k[0] && b[1] == k[1] && b[2] == k[2] && b[3] == k[3] {
        assert(uuid@.take(4) =~= KEY_UUID_PREFIX@);
        let prefix: KeyPrefix = [
            b[4],
            b[5],
            b[6],
            b[7],
            b[8],
            b[9],
            b[10],
            b[11],
            b[12],
            b[13],
            b[14],
            b[15],
        ];
        assert(prefix@ =~= uuid@.skip(4));
        Some(prefix)
    } else {
        proof {
            if carries_key(uuid@) {
                assert(uuid@.take(4)[0] == k@[0]);
                assert(uuid@.take(4)[1] == k@[1]);
                assert(uuid@.take(4)[2] == k@[2]);
                assert(uuid@.take(4)[3] == k@[3]);
            }
        }
        None
    }
}

/// The prefix that went into a UUID comes out of it.
pub proof fn prefixes_survive_their_uuid(endpoint_id: EndpointId)
    ensures
        carries_key(key_uuid(endpoint_id@)),
        key_uuid(endpoint_id@).skip(4) == prefix_of(endpoint_id@),
{
    assert(key_uuid(endpoint_id@).take(4) =~= KEY_UUID_PREFIX@);
    assert(key_uuid(endpoint_id@).skip(4) =~= prefix_of(endpoint_id@));
}

/// The first `n` services hold no UUID that carries a key.
pub open spec fn no_key_before(services: Seq<Uuid>, n: int) -> bool {
    forall|i: int| 0 <= i < n ==> !carries_key((#[trigger] services[i])@)
}

/// The key prefix among advertised services: that of the first UUID that
/// carries one.
pub fn extract_prefix_from_services(services: &[Uuid]) -> (r: Option<KeyPrefix>)
    ensures
        match r {
            Some(prefix) => exists|i: int|
                0 <= i < services@.len() && no_key_before(services@, i) && carries_key(
                    (#[trigger] services@[i])@,
                ) && prefix@ == services@[i]@.skip(4),
            None => no_key_before(services@, services@.len() as int),
        },
{
    let mut i: usize = 0;
    while i < services.len()
        invariant
            i <= services@.len(),
            no_key_before(services@, i as int),
        decreases services@.len() - i,
    {
        match parse_iroh_key_uuid(&services[i]) {
            Some(prefix) => {
                assert(carries_key(services@[i as int]@));
                return Some(prefix);
            },
            None => {},
        }
        i = i + 1;
    }
    None
}

/// The value of the PSM characteristic: absent if it is too short or zero.
pub open spec fn psm_of(value: Seq<u8>) -> Option<u16> {
    if value.len() < 2 || le16_value(value.take(2)) == 0 {
        None
    } else {
        Some(le16_value(value.take(2)))
    }
}

/// Reads the PSM characteristic. Zero means that L2CAP is not on offer.
pub fn parse_psm_value(bytes: &[u8]) -> (r: Option<u16>)
    ensures
        r == psm_of(bytes@),
{
    if bytes.len() < 2 {
        return None;
    }
    let v = u16_of(slice_subrange(bytes, 0, 2));
    if v == 0 {
        None
    } else {
        Some(v)
    }
}

/// A published PSM is read back, unless it is zero.
pub proof fn published_psms_are_read_back(psm: u16)
    requires
        psm != 0,
    ensures
        psm_of(le16(psm)) == Some(psm),
{
    two_bytes_are_read_back(psm, le16(psm));
    assert(le16(psm).take(2) =~= le16(psm));
}

/// What a peer may do with a characteristic.
#[derive(Clone, Copy, PartialEq, Eq, Structural, Debug)]
pub struct CharacteristicProperties {
    pub read: bool,
    pub write_without_response: bool,
    pub notify: bool,
}

#[derive(Clone, Copy, PartialEq, Eq, Structural, Debug)]
pub struct AttributePermissions {
    pub read: bool,
    pub write: bool,
}

#[derive(Debug)]
pub struct GattCharacteristic {
    pub uuid: Uuid,
    pub properties: CharacteristicProperties,
    pub permissions: AttributePermissions,
    pub value: Vec<u8>,
}

#[derive(Debug)]
pub struct GattService {
    pub uuid: Uuid,
    pub primary: bool,
    pub characteristics: Vec<GattCharacteristic>,
}

#[verifier::ext_equal]
pub struct CharacteristicView {
    pub uuid: Seq<u8>,
    pub properties: CharacteristicProperties,
    pub permissions: AttributePermissions,
    pub value: Seq<u8>,
}

#[verifier::ext_equal]
pub struct ServiceView {
    pub uuid: Seq<u8>,
    pub primary: bool,
    pub characteristics: Seq<CharacteristicView>,
}

impl View for GattCharacteristic {
    type V = CharacteristicView;

    open spec fn view(&self) -> CharacteristicView {
        CharacteristicView {
            uuid: self.uuid@,
            properties: self.properties,
            permissions: self.permissions,
            value: self.value@,
        }
    }
}

impl View for GattService {
    type V = ServiceView;

    open spec fn view(&self) -> ServiceView {
        ServiceView {
            uuid: self.uuid@,
            primary: self.primary,
            characteristics: Seq::new(
                self.characteristics@.len(),
                |i: int| self.characteristics@[i]@,
            ),
        }
    }
}

pub open spec fn services_view(services: Seq<GattService>) -> Seq<ServiceView> {
    Seq::new(services.len(), |i: int| services[i]@)
}

/// A characteristic that carries fragments.
pub open spec fn data_characteristic(uuid: Seq<u8>) -> CharacteristicView {
    CharacteristicView {
        uuid,
        properties: CharacteristicProperties {
            read: false,
            write_without_response: true,
            notify: true,
        },
        permissions: AttributePermissions { read: false, write: true },
        value: Seq::empty(),
    }
}

/// A characteristic that is only read.
pub open spec fn readable_characteristic(uuid: Seq<u8>, value: Seq<u8>) -> CharacteristicView {
    CharacteristicView {
        uuid,
        properties: CharacteristicProperties {
            read: true,
            write_without_response: false,
            notify: false,
        },
        permissions: AttributePermissions { read: true, write: false },
        value,
    }
}

/// The secondary service that carries the key.
pub open spec fn key_service(uuid: Seq<u8>) -> ServiceView {
    ServiceView { uuid, primary: false, characteristics: Seq::empty() }
}

/// The service table of a node whose PSM characteristic is answered on request.
pub open spec fn service_table(key_uuid: Seq<u8>) -> Seq<ServiceView> {
    seq![
        ServiceView {
            uuid: IROH_SERVICE_UUID@,
            primary: true,
            characteristics: seq![
                data_characteristic(IROH_C2P_CHAR_UUID@),
                data_characteristic(IROH_P2C_CHAR_UUID@),
                readable_characteristic(IROH_VERSION_CHAR_UUID@, seq![PROTOCOL_VERSION]),
                readable_characteristic(IROH_PSM_CHAR_UUID@, Seq::empty()),
            ],
        },
        key_service(key_uuid),
    ]
}

/// The service table of a node that publishes a fixed PSM, or none.
pub open spec fn service_table_with_psm(key_uuid: Seq<u8>, psm: Option<u16>) -> Seq<ServiceView> {
    let fixed = seq![
        data_characteristic(IROH_C2P_CHAR_UUID@),
        data_characteristic(IROH_P2C_CHAR_UUID@),
        readable_characteristic(IROH_VERSION_CHAR_UUID@, seq![PROTOCOL_VERSION]),
    ];
    seq![
        ServiceView {
            uuid: IROH_SERVICE_UUID@,
            primary: true,
            characteristics: match psm {
                Some(psm) => fixed.push(
                    readable_characteristic(IROH_PSM_CHAR_UUID@, le16(psm)),
                ),
                None => fixed,
            },
        },
        key_service(key_uuid),
    ]
}

fn carrying_data(uuid: [u8; 16]) -> (c: GattCharacteristic)
    ensures
        c@ == data_characteristic(uuid@),
{
    GattCharacteristic {
        uuid: Uuid { bytes: uuid },
        properties: CharacteristicProperties {
            read: false,
            write_without_response: true,
            notify: true,
        },
        permissions: AttributePermissions { read: false, write: true },
        value: Vec::new(),
    }
}

fn readable(uuid: [u8; 16], value: Vec<u8>) -> (c: GattCharacteristic)
    ensures
        c@ == readable_characteristic(uuid@, value@),
{
    GattCharacteristic {
        uuid: Uuid { bytes: uuid },
        properties: CharacteristicProperties {
            read: true,
            write_without_response: false,
            notify: false,
        },
        permissions: AttributePermissions { read: true, write: false },
        value,
    }
}

/// The services that a node publishes.
pub fn build_gatt_services(key_uuid: Uuid) -> (services: Vec<GattService>)
    ensures
        services_view(services@) == service_table(key_uuid@),
{
    let version: Vec<u8> = vec![PROTOCOL_VERSION];
    assert(version@ =~= seq![PROTOCOL_VERSION]);
    let data = GattService {
        uuid: Uuid { bytes: IROH_SERVICE_UUID },
        primary: true,
        characteristics: vec![
            carrying_data(IROH_C2P_CHAR_UUID),
            carrying_data(IROH_P2C_CHAR_UUID),
            readable(IROH_VERSION_CHAR_UUID, version),
            readable(IROH_PSM_CHAR_UUID, Vec::new()),
        ],
    };
    let key = GattService { uuid: key_uuid, primary: false, characteristics: Vec::new() };
    proof {
        assert(data@.characteristics =~= service_table(key_uuid@)[0].characteristics);
        assert(key@.characteristics =~= Seq::empty());
    }
    let services = vec![data, key];
    assert(services_view(services@) =~= service_table(key_uuid@));
    services
}

/// The services that a node with a fixed PSM, or none, publishes.
pub fn gatt_services_with_psm(key_uuid: Uuid, psm: Option<u16>) -> (services: Vec<GattService>)
    ensures
        services_view(services@) == service_table_with_psm(key_uuid@, psm),
{
    let version: Vec<u8> = vec![PROTOCOL_VERSION];
    assert(version@ =~= seq![PROTOCOL_VERSION]);
    let mut characteristics = vec![
        carrying_data(IROH_C2P_CHAR_UUID),
        carrying_data(IROH_P2C_CHAR_UUID),
        readable(IROH_VERSION_CHAR_UUID, version),
    ];
    if let Some(psm) = psm {
        characteristics.push(readable(IROH_PSM_CHAR_UUID, u16_bytes(psm)));
    }
    let data = GattService { uuid: Uuid { bytes: IROH_SERVICE_UUID }, primary: true, characteristics };
    let key = GattService { uuid: key_uuid, primary: false, characteristics: Vec::new() };
    proof {
        assert(data@.characteristics =~= service_table_with_psm(
            key_uuid@,
            psm,
        )[0].characteristics);
        assert(key@.characteristics =~= Seq::empty());
    }
    let services = vec![data, key];
    assert(services_view(services@) =~= service_table_with_psm(key_uuid@, psm));
    services
}

/// What a node advertises.
#[derive(Debug)]
pub struct AdvertisingConfig {
    pub local_name: String,
    pub service_uuids: Vec<Uuid>,
}

/// The advertisement that carries a key UUID.
pub fn advertising_config(key_uuid: Uuid) -> (config: AdvertisingConfig)
    ensures
        config.local_name@ == "iroh"@,
        config.service_uuids@ == seq![key_uuid],
{
    let service_uuids: Vec<Uuid> = vec![key_uuid];
    assert(service_uuids@ =~= seq![key_uuid]);
    AdvertisingConfig { local_name: "iroh".to_owned(), service_uuids }
}

/// What a read of a characteristic is answered.
pub open spec fn read_answer(uuid: Seq<u8>, psm: Option<u16>) -> Seq<u8> {
    if uuid == IROH_PSM_CHAR_UUID@ {
        match psm {
            Some(psm) => le16(psm),
            None => Seq::empty(),
        }
    } else if uuid == IROH_VERSION_CHAR_UUID@ {
        seq![PROTOCOL_VERSION]
    } else {
        Seq::empty()
    }
}

/// Answers a read of a characteristic.
pub fn read_response(char_uuid: &Uuid, psm: Option<u16>) -> (value: Vec<u8>)
    ensures
        value@ == read_answer(char_uuid@, psm),
{
    let psm_uuid: [u8; 16] = IROH_PSM_CHAR_UUID;
    let version_uuid: [u8; 16] = IROH_VERSION_CHAR_UUID;
    if bytes_equal(char_uuid.bytes.as_slice(), psm_uuid.as_slice()) {
        match psm {
            Some(psm) => u16_bytes(psm),
            None => Vec::new(),
        }
    } else if bytes_equal(char_uuid.bytes.as_slice(), version_uuid.as_slice()) {
        let value: Vec<u8> = vec![PROTOCOL_VERSION];
        assert(value@ =~= seq![PROTOCOL_VERSION]);
        value
    } else {
        Vec::new()
    }
}

/// Which UUIDs carry a key, and which key: those that start with the letters
/// "iro" and a zero carry the twelve bytes after them, and the UUID of an
/// endpoint carries the first twelve bytes of its key.
pub proof fn key_uuids_start_with_the_name(uuid: Seq<u8>, key: Seq<u8>)
    requires
        uuid.len() == 16,
        key.len() == 32,
    ensures
        carries_key(uuid) <==> uuid[0] == 0x69 && uuid[1] == 0x72 && uuid[2] == 0x6f && uuid[3] == 0,
        key_uuid(key).len() == 16,
        carries_key(key_uuid(key)),
        forall|i: int| 0 <= i < 12 ==> #[trigger] key_uuid(key)[i + 4] == key[i],
{
    let k = KEY_UUID_PREFIX@;
    assert(k[0] == 0x69 && k[1] == 0x72 && k[2] == 0x6f && k[3] == 0 && k.len() == 4);
    if carries_key(uuid) {
        assert(uuid.take(4)[0] == k[0]);
        assert(uuid.take(4)[1] == k[1]);
        assert(uuid.take(4)[2] == k[2]);
        assert(uuid.take(4)[3] == k[3]);
    }
    if uuid[0] == 0x69 && uuid[1] == 0x72 && uuid[2] == 0x6f && uuid[3] == 0 {
        assert(uuid.take(4) =~= k);
    }
    assert(key_uuid(key).take(4) =~= k);
}

/// A PSM is two bytes that are not both zero, the lower one first; what follows
/// them is ignored.
pub proof fn psms_are_two_bytes(value: Seq<u8>)
    ensures
        psm_of(value) == if value.len() >= 2 && (value[0] != 0 || value[1] != 0) {
            Some((value[0] + 256 * value[1]) as u16)
        } else {
            None
        },
{
    if value.len() >= 2 {
        assert(value.take(2)[0] == value[0] && value.take(2)[1] == value[1]);
    }
}

/// The UUIDs of this transport: they differ in their fourth byte alone.
pub open spec fn own_uuid(n: u8) -> Seq<u8> {
    seq![
        0x69,
        0x72,
        0x6f,
        n,
        0x8e,
        0x45,
        0x4c,
        0x2c,
        0xb3,
        0xa5,
        0x33,
        0x1f,
        0x30,
        0x98,
        0xb5,
        0xc2,
    ]
}

proof fn lemma_own_uuids()
    ensures
        IROH_SERVICE_UUID@ == own_uuid(1),
        IROH_C2P_CHAR_UUID@ == own_uuid(2),
        IROH_P2C_CHAR_UUID@ == own_uuid(3),
        IROH_PSM_CHAR_UUID@ == own_uuid(4),
        IROH_VERSION_CHAR_UUID@ == own_uuid(5),
{
    assert(IROH_SERVICE_UUID@ =~= own_uuid(1));
    assert(IROH_C2P_CHAR_UUID@ =~= own_uuid(2));
    assert(IROH_P2C_CHAR_UUID@ =~= own_uuid(3));
    assert(IROH_PSM_CHAR_UUID@ =~= own_uuid(4));
    assert(IROH_VERSION_CHAR_UUID@ =~= own_uuid(5));
}

/// The characteristic is written and notified, and holds nothing.
pub open spec fn is_for_data(c: CharacteristicView) -> bool {
    &&& !c.properties.read && c.properties.write_without_response && c.properties.notify
    &&& !c.permissions.read && c.permissions.write
    &&& c.value.len() == 0
}

/// The characteristic is read and nothing else, and holds this.
pub open spec fn is_read_only(c: CharacteristicView, value: Seq<u8>) -> bool {
    &&& c.properties.read && !c.properties.write_without_response && !c.properties.notify
    &&& c.permissions.read && !c.permissions.write
    &&& c.value == value
}

/// A node publishes one primary service with a characteristic to write to, one
/// to be notified on, its version, and its PSM, and a secondary one without
/// characteristics that carries its key. Where the PSM is fixed it is there
/// exactly if there is one.
pub proof fn services_hold_what_peers_need(key: Seq<u8>, psm: Option<u16>)
    ensures
        ({
            let asked = service_table(key);
            let fixed = service_table_with_psm(key, psm);
            let main = asked[0];
            let same = fixed[0];
            &&& asked.len() == 2 && fixed.len() == 2
            &&& asked[1] == fixed[1]
            &&& asked[1].uuid == key && !asked[1].primary && asked[1].characteristics.len() == 0
            &&& main.uuid == own_uuid(1) && main.primary
            &&& same.uuid == own_uuid(1) && same.primary
            &&& main.characteristics.len() == 4
            &&& same.characteristics.len() == if psm is Some {
                4nat
            } else {
                3
            }
            &&& forall|i: int|
                0 <= i < 3 ==> main.characteristics[i] == #[trigger] same.characteristics[i]
            &&& main.characteristics[0].uuid == own_uuid(2) && is_for_data(main.characteristics[0])
            &&& main.characteristics[1].uuid == own_uuid(3) && is_for_data(main.characteristics[1])
            &&& main.characteristics[2].uuid == own_uuid(5) && is_read_only(
                main.characteristics[2],
                seq![1u8],
            )
            &&& main.characteristics[3].uuid == own_uuid(4) && is_read_only(
                main.characteristics[3],
                seq![],
            )
            &&& psm matches Some(n) ==> same.characteristics[3].uuid == own_uuid(4) && is_read_only(
                same.characteristics[3],
                seq![(n % 256) as u8, (n / 256) as u8],
            )
        }),
{
    lemma_own_uuids();
}

/// A read of the version is answered with it, a read of the PSM with its two
/// bytes if there is one; any other read is answered with nothing.
pub proof fn reads_are_answered(uuid: Seq<u8>, psm: Option<u16>)
    ensures
        uuid == own_uuid(5) ==> read_answer(uuid, psm) == seq![1u8],
        uuid == own_uuid(4) ==> read_answer(uuid, psm) == match psm {
            Some(n) => seq![(n % 256) as u8, (n / 256) as u8],
            None => seq![],
        },
        uuid != own_uuid(4) && uuid != own_uuid(5) ==> read_answer(uuid, psm).len() == 0,
{
    lemma_own_uuids();
    assert(own_uuid(4)[3] != own_uuid(5)[3]);
}

} // verus!
