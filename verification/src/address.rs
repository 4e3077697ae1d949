//! Addresses that name a device.
//!
//! A transport without a registry addresses its peers by the name of the
//! device: QUIC's connection ids tell the endpoints apart.

use vstd::prelude::*;
use vstd::slice::slice_to_vec;
use vstd::string::StrSliceExecFns;
use vstd::utf8::{
    decode_utf8, decode_utf8_encode_utf8, encode_utf8, encode_utf8_decode_utf8,
    encode_utf8_valid_utf8, valid_utf8,
};

use crate::error::{IoError, IoErrorView};
use crate::peer::ErrorKind;
use crate::routing::{CustomAddr, CustomAddrView, BLE_TRANSPORT_ID};

verus! {

/// The address that carries the name of a device.
pub open spec fn device_addr(key: Seq<char>) -> CustomAddrView {
    CustomAddrView { id: BLE_TRANSPORT_ID, data: encode_utf8(key) }
}

/// The name that an address carries, or why it carries none.
pub open spec fn device_key_of(addr: CustomAddrView) -> Result<Seq<char>, IoErrorView> {
    if addr.id != BLE_TRANSPORT_ID {
        Err(IoErrorView { kind: ErrorKind::Other, message: "not a BLE transport address"@ })
    } else if !valid_utf8(addr.data) {
        Err(
            IoErrorView {
                kind: ErrorKind::Other,
                message: "invalid device key in BLE custom addr"@,
            },
        )
    } else {
        Ok(decode_utf8(addr.data))
    }
}

/// Decodes UTF-8 with `String::from_utf8`: bytes that are valid UTF-8 give the
/// text that they encode, others give nothing.
#[verifier::external_body]
fn text_from_utf8(bytes: Vec<u8>) -> (text: Option<String>)
    ensures
        match text {
            Some(s) => valid_utf8(bytes@) && s@ == decode_utf8(bytes@),
            None => !valid_utf8(bytes@),
        },
{
    String::from_utf8(bytes).ok()
}

/// Wraps the name of a device as an address of this transport.
pub fn ble_custom_addr(device_key: &str) -> (addr: CustomAddr)
    ensures
        addr@ == device_addr(device_key@),
{
    CustomAddr { id: BLE_TRANSPORT_ID, data: device_key.as_bytes_vec() }
}

/// The name of the device in an address. An address of another transport, or
/// one that holds no text, is refused.
pub fn parse_custom_addr(addr: &CustomAddr) -> (r: Result<String, IoError>)
    ensures
        match r {
            Ok(key) => device_key_of(addr@) == Ok::<Seq<char>, IoErrorView>(key@),
            Err(e) => device_key_of(addr@) == Err::<Seq<char>, IoErrorView>(e@),
        },
{
    if addr.id != BLE_TRANSPORT_ID {
        return Err(IoError::new(ErrorKind::Other, "not a BLE transport address"));
    }
    match text_from_utf8(slice_to_vec(addr.data.as_slice())) {
        Some(key) => Ok(key),
        None => Err(IoError::new(ErrorKind::Other, "invalid device key in BLE custom addr")),
    }
}

/// Whether something can be sent to an address at all.
pub fn is_valid_device_addr(addr: &CustomAddr) -> (r: bool)
    ensures
        r == (addr.id == BLE_TRANSPORT_ID && addr@.data.len() > 0),
{
    addr.id == BLE_TRANSPORT_ID && addr.data.len() > 0
}

/// The name of a device is read back from its address.
pub proof fn device_keys_survive_their_address(key: Seq<char>)
    ensures
        device_key_of(device_addr(key)) == Ok::<Seq<char>, IoErrorView>(key),
{
    encode_utf8_valid_utf8(key);
    encode_utf8_decode_utf8(key);
}

/// An address that carries a name is the address of that name.
pub proof fn device_addresses_are_canonical(addr: CustomAddrView)
    requires
        device_key_of(addr) is Ok,
    ensures
        addr == device_addr(device_key_of(addr)->Ok_0),
{
    decode_utf8_encode_utf8(addr.data);
}

/// The address of a device names this transport by its letters as a number, and
/// the device in UTF-8. An address of another transport, or one that is not
/// UTF-8, names no device.
pub proof fn addresses_name_their_device(key: Seq<char>, addr: CustomAddrView)
    ensures
        device_addr(key).id == 0x424C45,
        device_addr(key).data == encode_utf8(key),
        device_key_of(addr) is Ok <==> addr.id == 0x424C45 && valid_utf8(addr.data),
        device_key_of(addr) matches Ok(name) ==> name == decode_utf8(addr.data),
        addr.id != 0x424C45 ==> device_key_of(addr) == Err::<Seq<char>, IoErrorView>(
            IoErrorView { kind: ErrorKind::Other, message: "not a BLE transport address"@ },
        ),
        addr.id == 0x424C45 && !valid_utf8(addr.data) ==> device_key_of(addr) == Err::<
            Seq<char>,
            IoErrorView,
        >(
            IoErrorView {
                kind: ErrorKind::Other,
                message: "invalid device key in BLE custom addr"@,
            },
        ),
{
}

} // verus!
