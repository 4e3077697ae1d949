//! Errors.

use vstd::prelude::*;
use vstd::string::StringExecFns;

use crate::peer::{DeviceId, ErrorKind, Uuid};
use crate::text::{append_decimal, append_hex, decimal, hex};

verus! {

/// An I/O failure: its kind and what to tell the reader.
#[derive(Debug)]
pub struct IoError {
    pub kind: ErrorKind,
    pub message: String,
}

#[verifier::ext_equal]
pub struct IoErrorView {
    pub kind: ErrorKind,
    pub message: Seq<char>,
}

impl View for IoError {
    type V = IoErrorView;

    open spec fn view(&self) -> IoErrorView {
        IoErrorView { kind: self.kind, message: self.message@ }
    }
}

impl IoError {
    pub fn new(kind: ErrorKind, message: &str) -> (e: Self)
        ensures
            e@ == (IoErrorView { kind, message: message@ }),
    {
        IoError { kind, message: message.to_owned() }
    }
}

/// A UUID in its usual text form: lower-case hexadecimal, hyphens after the
/// fourth, sixth, eighth and tenth byte.
pub open spec fn uuid_text(bytes: Seq<u8>) -> Seq<char> {
    hex(bytes.subrange(0, 4)) + "-"@ + hex(bytes.subrange(4, 6)) + "-"@ + hex(
        bytes.subrange(6, 8),
    ) + "-"@ + hex(bytes.subrange(8, 10)) + "-"@ + hex(bytes.subrange(10, 16))
}

/// Appends a UUID in its usual text form.
pub fn append_uuid(text: &mut String, uuid: &Uuid)
    ensures
        final(text)@ == old(text)@ + uuid_text(uuid@),
{
    let b = uuid.bytes.as_slice();
    append_hex(text, vstd::slice::slice_subrange(b, 0, 4));
    text.append("-");
    append_hex(text, vstd::slice::slice_subrange(b, 4, 6));
    text.append("-");
    append_hex(text, vstd::slice::slice_subrange(b, 6, 8));
    text.append("-");
    append_hex(text, vstd::slice::slice_subrange(b, 8, 10));
    text.append("-");
    append_hex(text, vstd::slice::slice_subrange(b, 10, 16));
    assert(text@ =~= old(text)@ + uuid_text(uuid@));
}

/// What the transport reports to its user.
#[derive(Debug)]
pub enum BleError {
    Unsupported,
    AdapterNotFound,
    DeviceNotFound(String),
    NotConnected(String),
    GattError(String),
    GattBusy(String),
    Timeout,
    PeripheralError(String),
    CentralError(String),
    CharacteristicNotFound(String),
    AlreadyAdvertising,
    ChannelError(String),
    ProtocolVersionMismatch { local: u8, remote: u8 },
}

pub type BleResult<T> = Result<T, BleError>;

#[verifier::ext_equal]
pub enum BleErrorView {
    Unsupported,
    AdapterNotFound,
    DeviceNotFound(Seq<char>),
    NotConnected(Seq<char>),
    GattError(Seq<char>),
    GattBusy(Seq<char>),
    Timeout,
    PeripheralError(Seq<char>),
    CentralError(Seq<char>),
    CharacteristicNotFound(Seq<char>),
    AlreadyAdvertising,
    ChannelError(Seq<char>),
    ProtocolVersionMismatch { local: u8, remote: u8 },
}

impl View for BleError {
    type V = BleErrorView;

    open spec fn view(&self) -> BleErrorView {
        match *self {
            BleError::Unsupported => BleErrorView::Unsupported,
            BleError::AdapterNotFound => BleErrorView::AdapterNotFound,
            BleError::DeviceNotFound(s) => BleErrorView::DeviceNotFound(s@),
            BleError::NotConnected(s) => BleErrorView::NotConnected(s@),
            BleError::GattError(s) => BleErrorView::GattError(s@),
            BleError::GattBusy(s) => BleErrorView::GattBusy(s@),
            BleError::Timeout => BleErrorView::Timeout,
            BleError::PeripheralError(s) => BleErrorView::PeripheralError(s@),
            BleError::CentralError(s) => BleErrorView::CentralError(s@),
            BleError::CharacteristicNotFound(s) => BleErrorView::CharacteristicNotFound(s@),
            BleError::AlreadyAdvertising => BleErrorView::AlreadyAdvertising,
            BleError::ChannelError(s) => BleErrorView::ChannelError(s@),
            BleError::ProtocolVersionMismatch { local, remote } =>
                BleErrorView::ProtocolVersionMismatch { local, remote },
        }
    }
}

impl BleErrorView {
    /// What the error says.
    pub open spec fn text(self) -> Seq<char> {
        match self {
            BleErrorView::Unsupported => "BLE not supported on this platform"@,
            BleErrorView::AdapterNotFound => "Bluetooth adapter not found"@,
            BleErrorView::DeviceNotFound(s) => "Device not found: "@ + s,
            BleErrorView::NotConnected(s) => "Not connected to device: "@ + s,
            BleErrorView::GattError(s) => "GATT error: "@ + s,
            BleErrorView::GattBusy(s) => "GATT busy on device: "@ + s,
            BleErrorView::Timeout => "Operation timed out"@,
            BleErrorView::PeripheralError(s) => "Peripheral role error: "@ + s,
            BleErrorView::CentralError(s) => "Central role error: "@ + s,
            BleErrorView::CharacteristicNotFound(s) => "Characteristic not found: "@ + s,
            BleErrorView::AlreadyAdvertising => "Already advertising"@,
            BleErrorView::ChannelError(s) => "Channel error: "@ + s,
            BleErrorView::ProtocolVersionMismatch { local, remote } =>
                "protocol version mismatch: local="@ + decimal(local as nat) + ", remote="@
                + decimal(remote as nat),
        }
    }
}

fn joined(head: &str, tail: &str) -> (text: String)
    ensures
        text@ == head@ + tail@,
{
    let mut text = head.to_owned();
    text.append(tail);
    text
}

/// What the platform's Bluetooth stack reports. Sources of other kinds are
/// carried as their text.
#[derive(Debug)]
pub enum StackError {
    AdapterNotFound,
    NotSupported,
    NotPowered,
    DeviceNotFound(DeviceId),
    NotConnected(DeviceId),
    CharacteristicNotFound { device_id: DeviceId, char_uuid: Uuid },
    LocalCharacteristicNotFound { char_uuid: Uuid },
    AlreadyAdvertising,
    Timeout,
    Gatt { device_id: DeviceId, source: String },
    Peripheral { source: String },
    Central { source: String },
    L2cap { source: String },
    GattBusy(DeviceId),
    Internal(String),
    /// Any other report, by its text.
    Other(String),
}

impl StackError {
    /// What the transport makes of the report.
    pub open spec fn mapped(self) -> BleErrorView {
        match self {
            StackError::AdapterNotFound => BleErrorView::AdapterNotFound,
            StackError::NotSupported => BleErrorView::Unsupported,
            StackError::NotPowered => BleErrorView::PeripheralError("adapter not powered"@),
            StackError::DeviceNotFound(id) => BleErrorView::DeviceNotFound(id@),
            StackError::NotConnected(id) => BleErrorView::NotConnected(id@),
            StackError::CharacteristicNotFound { device_id, char_uuid } =>
                BleErrorView::CharacteristicNotFound(device_id@ + ":"@ + uuid_text(char_uuid@)),
            StackError::LocalCharacteristicNotFound { char_uuid } =>
                BleErrorView::CharacteristicNotFound(uuid_text(char_uuid@)),
            StackError::AlreadyAdvertising => BleErrorView::AlreadyAdvertising,
            StackError::Timeout => BleErrorView::Timeout,
            StackError::Gatt { device_id, source } => BleErrorView::GattError(
                device_id@ + ": "@ + source@,
            ),
            StackError::Peripheral { source } => BleErrorView::PeripheralError(source@),
            StackError::Central { source } => BleErrorView::CentralError(source@),
            StackError::L2cap { source } => BleErrorView::ChannelError(source@),
            StackError::GattBusy(id) => BleErrorView::GattBusy(id@),
            StackError::Internal(text) => BleErrorView::PeripheralError(text@),
            StackError::Other(text) => BleErrorView::PeripheralError(text@),
        }
    }
}

impl BleError {
    /// What the error says.
    pub fn message(&self) -> (text: String)
        ensures
            text@ == self@.text(),
    {
        match self {
            BleError::Unsupported => "BLE not supported on this platform".to_owned(),
            BleError::AdapterNotFound => "Bluetooth adapter not found".to_owned(),
            BleError::DeviceNotFound(s) => joined("Device not found: ", s.as_str()),
            BleError::NotConnected(s) => joined("Not connected to device: ", s.as_str()),
            BleError::GattError(s) => joined("GATT error: ", s.as_str()),
            BleError::GattBusy(s) => joined("GATT busy on device: ", s.as_str()),
            BleError::Timeout => "Operation timed out".to_owned(),
            BleError::PeripheralError(s) => joined("Peripheral role error: ", s.as_str()),
            BleError::CentralError(s) => joined("Central role error: ", s.as_str()),
            BleError::CharacteristicNotFound(s) => joined("Characteristic not found: ", s.as_str()),
            BleError::AlreadyAdvertising => "Already advertising".to_owned(),
            BleError::ChannelError(s) => joined("Channel error: ", s.as_str()),
            BleError::ProtocolVersionMismatch { local, remote } => {
                let mut text = "protocol version mismatch: local=".to_owned();
                append_decimal(&mut text, *local as u64);
                text.append(", remote=");
                append_decimal(&mut text, *remote as u64);
                text
            },
        }
    }

    /// What the transport makes of a report of the Bluetooth stack.
    pub fn from_stack(e: StackError) -> (r: BleError)
        ensures
            r@ == e.mapped(),
    {
        match e {
            StackError::AdapterNotFound => BleError::AdapterNotFound,
            StackError::NotSupported => BleError::Unsupported,
            StackError::NotPowered => BleError::PeripheralError("adapter not powered".to_owned()),
            StackError::DeviceNotFound(id) => BleError::DeviceNotFound(id.name),
            StackError::NotConnected(id) => BleError::NotConnected(id.name),
            StackError::CharacteristicNotFound { device_id, char_uuid } => {
                let mut text = device_id.name;
                text.append(":");
                append_uuid(&mut text, &char_uuid);
                BleError::CharacteristicNotFound(text)
            },
            StackError::LocalCharacteristicNotFound { char_uuid } => {
                let mut text = String::new();
                append_uuid(&mut text, &char_uuid);
                assert(text@ =~= uuid_text(char_uuid@));
                BleError::CharacteristicNotFound(text)
            },
            StackError::AlreadyAdvertising => BleError::AlreadyAdvertising,
            StackError::Timeout => BleError::Timeout,
            StackError::Gatt { device_id, source } => {
                let mut text = device_id.name;
                text.append(": ");
                text.append(source.as_str());
                BleError::GattError(text)
            },
            StackError::Peripheral { source } => BleError::PeripheralError(source),
            StackError::Central { source } => BleError::CentralError(source),
            StackError::L2cap { source } => BleError::ChannelError(source),
            StackError::GattBusy(id) => BleError::GattBusy(id.name),
            StackError::Internal(text) => BleError::PeripheralError(text),
            StackError::Other(text) => BleError::PeripheralError(text),
        }
    }
}

/// What the transport makes of a report of the stack: an error of the matching
/// sort, which carries the device, the characteristic and the text of the
/// report. Reports without a sort of their own are errors of the peripheral.
pub proof fn reports_keep_what_they_say(e: StackError)
    ensures
        match e {
            StackError::AdapterNotFound => e.mapped() is AdapterNotFound,
            StackError::NotSupported => e.mapped() is Unsupported,
            StackError::AlreadyAdvertising => e.mapped() is AlreadyAdvertising,
            StackError::Timeout => e.mapped() is Timeout,
            StackError::NotPowered => e.mapped() matches BleErrorView::PeripheralError(text) && text
                == "adapter not powered"@,
            StackError::DeviceNotFound(id) => e.mapped() matches BleErrorView::DeviceNotFound(text)
                && text == id@,
            StackError::NotConnected(id) => e.mapped() matches BleErrorView::NotConnected(text)
                && text == id@,
            StackError::GattBusy(id) => e.mapped() matches BleErrorView::GattBusy(text) && text
                == id@,
            StackError::CharacteristicNotFound { device_id, char_uuid } => e.mapped()
                matches BleErrorView::CharacteristicNotFound(text) && text == device_id@ + ":"@
                + uuid_text(char_uuid@),
            StackError::LocalCharacteristicNotFound { char_uuid } => e.mapped()
                matches BleErrorView::CharacteristicNotFound(text) && text == uuid_text(char_uuid@),
            StackError::Gatt { device_id, source } => e.mapped() matches BleErrorView::GattError(
                text,
            ) && text == device_id@ + ": "@ + source@,
            StackError::Peripheral { source } => e.mapped() matches BleErrorView::PeripheralError(
                text,
            ) && text == source@,
            StackError::Central { source } => e.mapped() matches BleErrorView::CentralError(text)
                && text == source@,
            StackError::L2cap { source } => e.mapped() matches BleErrorView::ChannelError(text)
                && text == source@,
            StackError::Internal(source) => e.mapped() matches BleErrorView::PeripheralError(text)
                && text == source@,
            StackError::Other(source) => e.mapped() matches BleErrorView::PeripheralError(text)
                && text == source@,
        },
{
}

/// What each error says: what went wrong, and the device or the text that it
/// carries after that; one of another version says both versions.
pub proof fn errors_say_what_went_wrong(e: BleErrorView)
    ensures
        match e {
            BleErrorView::DeviceNotFound(text) => e.text() == "Device not found: "@ + text,
            BleErrorView::NotConnected(text) => e.text() == "Not connected to device: "@ + text,
            BleErrorView::GattError(text) => e.text() == "GATT error: "@ + text,
            BleErrorView::GattBusy(text) => e.text() == "GATT busy on device: "@ + text,
            BleErrorView::PeripheralError(text) => e.text() == "Peripheral role error: "@ + text,
            BleErrorView::CentralError(text) => e.text() == "Central role error: "@ + text,
            BleErrorView::CharacteristicNotFound(text) => e.text() == "Characteristic not found: "@
                + text,
            BleErrorView::ChannelError(text) => e.text() == "Channel error: "@ + text,
            BleErrorView::ProtocolVersionMismatch { local, remote } => e.text()
                == "protocol version mismatch: local="@ + decimal(local as nat) + ", remote="@
                + decimal(remote as nat),
            BleErrorView::Unsupported => e.text() == "BLE not supported on this platform"@,
            BleErrorView::AdapterNotFound => e.text() == "Bluetooth adapter not found"@,
            BleErrorView::Timeout => e.text() == "Operation timed out"@,
            BleErrorView::AlreadyAdvertising => e.text() == "Already advertising"@,
        },
{
}

} // verus!
