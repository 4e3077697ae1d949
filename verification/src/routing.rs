//! Addresses, and which device stands behind a token or a prefix.

use vstd::prelude::*;

use crate::bytes::{eight_bytes_are_read_back, le64, le64_value, u64_bytes, u64_of};
use crate::error::{IoError, IoErrorView};
use crate::keys::{endpoint_prefix, prefix_from_endpoint};
use crate::peer::{DeviceId, EndpointId, ErrorKind, KeyPrefix};
use crate::table::{without_value, Key, PrefixTable, Table};

verus! {

/// Marks an address as one of this transport: "BLE" in ASCII.
pub const BLE_TRANSPORT_ID: u64 = 0x42_4C_45;

/// How many bytes a token has in an address.
pub const TOKEN_LEN: usize = 8;

/// An address of a custom transport: which transport, and what it makes of it.
#[derive(Debug)]
pub struct CustomAddr {
    pub id: u64,
    pub data: Vec<u8>,
}

#[verifier::ext_equal]
pub struct CustomAddrView {
    pub id: u64,
    pub data: Seq<u8>,
}

impl View for CustomAddr {
    type V = CustomAddrView;

    open spec fn view(&self) -> CustomAddrView {
        CustomAddrView { id: self.id, data: self.data@ }
    }
}

/// The address that carries a token.
pub open spec fn token_addr(token: u64) -> CustomAddrView {
    CustomAddrView { id: BLE_TRANSPORT_ID, data: le64(token) }
}

/// The token that an address carries, or why it carries none.
pub open spec fn token_of(addr: CustomAddrView) -> Result<u64, IoErrorView> {
    if addr.id != BLE_TRANSPORT_ID {
        Err(IoErrorView { kind: ErrorKind::Other, message: "not a BLE transport address"@ })
    } else if addr.data.len() != TOKEN_LEN {
        Err(IoErrorView { kind: ErrorKind::Other, message: "BLE custom addr has wrong length"@ })
    } else {
        Ok(le64_value(addr.data))
    }
}

/// Wraps a token as an address of this transport.
pub fn token_custom_addr(token: u64) -> (addr: CustomAddr)
    ensures
        addr@ == token_addr(token),
        addr@.data.len() == TOKEN_LEN,
{
    CustomAddr { id: BLE_TRANSPORT_ID, data: u64_bytes(token) }
}

/// The token in an address. An address of another transport or of another
/// length is refused.
pub fn parse_token_addr(addr: &CustomAddr) -> (r: Result<u64, IoError>)
    ensures
        match r {
            Ok(token) => token_of(addr@) == Ok::<u64, IoErrorView>(token),
            Err(e) => token_of(addr@) == Err::<u64, IoErrorView>(e@),
        },
{
    if addr.id != BLE_TRANSPORT_ID {
        return Err(IoError::new(ErrorKind::Other, "not a BLE transport address"));
    }
    if addr.data.len() != TOKEN_LEN {
        return Err(IoError::new(ErrorKind::Other, "BLE custom addr has wrong length"));
    }
    Ok(u64_of(addr.data.as_slice()))
}

/// The token that went into an address comes out of it.
pub proof fn tokens_survive_their_address(token: u64)
    ensures
        token_of(token_addr(token)) == Ok::<u64, IoErrorView>(token),
{
    eight_bytes_are_read_back(token, Seq::empty());
}

/// Every address that parses is the address of its token.
pub proof fn addresses_are_determined_by_their_token(addr: CustomAddrView)
    requires
        token_of(addr) is Ok,
    ensures
        token_addr(token_of(addr)->Ok_0) == addr,
{
    eight_bytes_are_read_back(0, addr.data);
}

/// What a discovery told.
#[derive(Debug)]
pub enum DiscoveryUpdate {
    /// The prefix was already known under this device.
    Unchanged,
    /// The prefix was not known.
    New,
    /// The prefix was known under another device.
    Replaced { previous: DeviceId },
}

/// Which device was last seen under a prefix, and which device a token stands for.
#[derive(Debug)]
pub struct TransportRouting {
    discovered: PrefixTable<DeviceId>,
    tokens: Table<u64, DeviceId>,
}

#[verifier::ext_equal]
pub struct TransportRoutingView {
    pub discovered: Map<Seq<u8>, Seq<char>>,
    pub tokens: Map<u64, Seq<char>>,
}

impl View for TransportRouting {
    type V = TransportRoutingView;

    closed spec fn view(&self) -> TransportRoutingView {
        TransportRoutingView { discovered: self.discovered@, tokens: self.tokens@ }
    }
}

impl TransportRouting {
    pub closed spec fn wf(self) -> bool {
        self.discovered.wf() && self.tokens.wf()
    }

    pub fn new() -> (r: Self)
        ensures
            r.wf(),
            r@ == (TransportRoutingView { discovered: Map::empty(), tokens: Map::empty() }),
    {
        TransportRouting { discovered: PrefixTable::new(), tokens: Table::new() }
    }

    /// Records that a prefix was seen under a device.
    pub fn note_discovery(&mut self, prefix: KeyPrefix, device: DeviceId) -> (r: DiscoveryUpdate)
        requires
            old(self).wf(),
        ensures
            final(self).wf(),
            final(self)@ == (TransportRoutingView {
                discovered: old(self)@.discovered.insert(prefix@, device@),
                ..old(self)@
            }),
            match r {
                DiscoveryUpdate::New => !old(self)@.discovered.contains_key(prefix@),
                DiscoveryUpdate::Unchanged => old(self)@.discovered.contains_key(prefix@)
                    && old(self)@.discovered[prefix@] == device@,
                DiscoveryUpdate::Replaced { previous } => old(self)@.discovered.contains_key(
                    prefix@,
                ) && old(self)@.discovered[prefix@] == previous@ && previous@ != device@,
            },
    {
        let copy = device.clone();
        match self.discovered.insert(prefix, copy) {
            None => DiscoveryUpdate::New,
            Some(previous) => {
                if previous.same(&device) {
                    DiscoveryUpdate::Unchanged
                } else {
                    DiscoveryUpdate::Replaced { previous }
                }
            },
        }
    }

    /// The device last seen advertising for an endpoint.
    pub fn device_for_endpoint(&self, endpoint_id: &EndpointId) -> (r: Option<DeviceId>)
        requires
            self.wf(),
        ensures
            ({
                let prefix = endpoint_prefix(*endpoint_id)@;
                match r {
                    Some(d) => self@.discovered.contains_key(prefix) && self@.discovered[prefix]
                        == d@,
                    None => !self@.discovered.contains_key(prefix),
                }
            }),
    {
        let prefix = prefix_from_endpoint(endpoint_id);
        match self.discovered.get(&prefix) {
            Some(d) => Some(d.clone()),
            None => None,
        }
    }

    /// The device that a token stands for.
    pub fn device_for_token(&self, token: u64) -> (r: Option<DeviceId>)
        requires
            self.wf(),
        ensures
            match r {
                Some(d) => self@.tokens.contains_key(token) && self@.tokens[token] == d@,
                None => !self@.tokens.contains_key(token),
            },
    {
        match self.tokens.get(&token) {
            Some(d) => Some(d.clone()),
            None => None,
        }
    }

    /// Lets a token stand for a device.
    pub fn install_stable_conn_token(&mut self, token: u64, device_id: DeviceId)
        requires
            old(self).wf(),
        ensures
            final(self).wf(),
            final(self)@ == (TransportRoutingView {
                tokens: old(self)@.tokens.insert(token, device_id@),
                ..old(self)@
            }),
    {
        let _ = self.tokens.insert(token, device_id);
    }

    /// Lets a token stand for no device any more.
    pub fn uninstall_stable_conn_token(&mut self, token: u64)
        requires
            old(self).wf(),
        ensures
            final(self).wf(),
            final(self)@ == (TransportRoutingView {
                tokens: old(self)@.tokens.remove(token),
                ..old(self)@
            }),
    {
        let _ = self.tokens.remove(&token);
    }

    /// Forgets a device: no prefix and no token leads to it any more.
    pub fn forget_device(&mut self, device: &DeviceId)
        requires
            old(self).wf(),
        ensures
            final(self).wf(),
            final(self)@ == (TransportRoutingView {
                discovered: without_value(old(self)@.discovered, device@),
                tokens: without_value(old(self)@.tokens, device@),
            }),
    {
        self.discovered.remove_values(device);
        self.tokens.remove_values(device);
    }
}

} // verus!
