//! What happens when a handshake has bound a connection to an endpoint.

use vstd::prelude::*;

use crate::peer::{CommandView, DeviceId, EndpointId, PeerCommand};
use crate::routing::{parse_token_addr, token_of, CustomAddr};
use crate::routing_v2::{PromoteOutcome, Routing, RoutingView, StableConnId};
use crate::time::Instant;

verus! {

/// A network path of a connection.
#[derive(Debug)]
pub struct ConnectionPath {
    pub closed: bool,
    /// The remote address, if it is one of a custom transport.
    pub custom: Option<CustomAddr>,
}

/// The token of a path, if it is open and one of this transport.
pub open spec fn path_token(path: ConnectionPath) -> Option<u64> {
    match path.custom {
        Some(addr) if !path.closed => match token_of(addr@) {
            Ok(token) => Some(token),
            Err(_) => None,
        },
        _ => None,
    }
}

/// The token of a connection: that of the first open path of this transport.
pub open spec fn first_token(paths: Seq<ConnectionPath>) -> Option<u64>
    decreases paths.len(),
{
    if paths.len() == 0 {
        None
    } else {
        match path_token(paths[0]) {
            Some(token) => Some(token),
            None => first_token(paths.skip(1)),
        }
    }
}

/// The token of a connection: that of the first open path of this transport.
pub fn connection_token(paths: &[ConnectionPath]) -> (r: Option<u64>)
    ensures
        r == first_token(paths@),
{
    let mut i: usize = 0;
    assert(paths@.skip(0) =~= paths@);
    while i < paths.len()
        invariant
            i <= paths@.len(),
            first_token(paths@.skip(i as int)) == first_token(paths@),
        decreases paths@.len() - i,
    {
        let path = &paths[i];
        assert(paths@.skip(i as int)[0] == paths@[i as int]);
        assert(paths@.skip(i as int).skip(1) =~= paths@.skip(i + 1));
        if !path.closed {
            if let Some(addr) = &path.custom {
                if let Ok(token) = parse_token_addr(addr) {
                    assert(path_token(paths@[i as int]) == Some(token));
                    return Some(token);
                }
            }
        }
        assert(path_token(paths@[i as int]) is None);
        i = i + 1;
    }
    None
}

/// What the transport is told.
#[derive(Debug)]
pub enum HookEvent {
    VerifiedEndpoint {
        endpoint_id: EndpointId,
        token: Option<u64>,
        /// The devices whose pipes had to make room.
        evicted_devices: Vec<DeviceId>,
    },
    ConnectionClosed { endpoint_id: EndpointId, stable_id: StableConnId },
}

/// What to do after a handshake.
#[derive(Debug)]
pub struct HandshakeVerdict {
    pub event: HookEvent,
    /// Refuse the connection, with [`REJECT_CODE`] and [`REJECT_REASON`].
    pub reject: bool,
    /// Report when the connection on this pipe closes.
    pub watch: Option<StableConnId>,
}

/// The error code with which a handshake is refused.
pub const REJECT_CODE: u32 = 0;

/// The reason with which a handshake is refused: "ble_conflict" in ASCII.
pub const REJECT_REASON: [u8; 12] = [
    0x62, 0x6c, 0x65, 0x5f, 0x63, 0x6f, 0x6e, 0x66, 0x6c, 0x69, 0x63, 0x74,
];

/// The devices of the pipes among `ids` that are live, in order.
pub open spec fn devices_of(r: RoutingView, ids: Seq<StableConnId>) -> Seq<Seq<char>>
    decreases ids.len(),
{
    if ids.len() == 0 {
        Seq::empty()
    } else {
        let rest = devices_of(r, ids.drop_last());
        match r.device_of_pipe(ids.last()) {
            Some(device) => rest.push(device),
            None => rest,
        }
    }
}

pub open spec fn names(devices: Seq<DeviceId>) -> Seq<Seq<char>> {
    Seq::new(devices.len(), |i: int| devices[i]@)
}

proof fn lemma_same_devices(a: RoutingView, b: RoutingView, ids: Seq<StableConnId>)
    requires
        a.pipes == b.pipes,
    ensures
        devices_of(a, ids) == devices_of(b, ids),
    decreases ids.len(),
{
    if ids.len() > 0 {
        lemma_same_devices(a, b, ids.drop_last());
    }
}

fn live_devices(routing: &Routing, ids: &Vec<StableConnId>) -> (devices: Vec<DeviceId>)
    requires
        routing.wf(),
    ensures
        names(devices@) == devices_of(routing@, ids@),
{
    let mut devices: Vec<DeviceId> = Vec::new();
    let mut i: usize = 0;
    assert(names(devices@) =~= devices_of(routing@, ids@.take(0)));
    while i < ids.len()
        invariant
            routing.wf(),
            i <= ids@.len(),
            names(devices@) == devices_of(routing@, ids@.take(i as int)),
        decreases ids@.len() - i,
    {
        let ghost before = names(devices@);
        assert(ids@.take(i + 1).drop_last() =~= ids@.take(i as int));
        assert(ids@.take(i + 1).last() == ids@[i as int]);
        if let Some(device) = routing.device_for_pipe(ids[i]) {
            devices.push(device);
            assert(names(devices@) =~= before.push(device@));
        }
        i = i + 1;
    }
    assert(ids@.take(i as int) =~= ids@);
    devices
}

/// Concludes a handshake with `remote`.
///
/// `promoted` is the pipe that the connection runs over, and what became of
/// the attempt to make it routable; it is absent if the connection runs over
/// no pipe of this transport.
pub fn after_handshake(
    routing: &Routing,
    remote: EndpointId,
    promoted: Option<(u64, PromoteOutcome)>,
) -> (v: HandshakeVerdict)
    requires
        routing.wf(),
    ensures
        v.event matches HookEvent::VerifiedEndpoint { endpoint_id, token, evicted_devices }
            && endpoint_id == remote && match promoted {
            None => token is None && evicted_devices@.len() == 0 && !v.reject && v.watch is None,
            Some((t, PromoteOutcome::Rejected)) => token == Some(t) && evicted_devices@.len() == 0
                && v.reject && v.watch is None,
            Some((t, PromoteOutcome::Accepted { evicted })) => token == Some(t) && names(
                evicted_devices@,
            ) == devices_of(routing@, evicted@) && !v.reject && v.watch == Some(
                StableConnId { raw: t },
            ),
        },
{
    match promoted {
        None => HandshakeVerdict {
            event: HookEvent::VerifiedEndpoint {
                endpoint_id: remote,
                token: None,
                evicted_devices: Vec::new(),
            },
            reject: false,
            watch: None,
        },
        Some((token, PromoteOutcome::Rejected)) => HandshakeVerdict {
            event: HookEvent::VerifiedEndpoint {
                endpoint_id: remote,
                token: Some(token),
                evicted_devices: Vec::new(),
            },
            reject: true,
            watch: None,
        },
        Some((token, PromoteOutcome::Accepted { evicted })) => HandshakeVerdict {
            event: HookEvent::VerifiedEndpoint {
                endpoint_id: remote,
                token: Some(token),
                evicted_devices: live_devices(routing, &evicted),
            },
            reject: false,
            watch: Some(StableConnId::from_raw(token)),
        },
    }
}

/// Concludes a handshake with `remote` that finished over the given paths.
///
/// The pipe whose token the connection carries becomes the one that leads to
/// `remote`, and the device of the pipe that did so before has to make room. A
/// connection over no pipe of this transport changes nothing.
pub fn conclude_handshake(
    routing: &mut Routing,
    paths: &[ConnectionPath],
    mine: &EndpointId,
    remote: EndpointId,
    now: Instant,
) -> (v: HandshakeVerdict)
    requires
        old(routing).wf(),
    ensures
        final(routing).wf(),
        !v.reject,
        v.event matches HookEvent::VerifiedEndpoint { endpoint_id, token, evicted_devices }
            && endpoint_id == remote && token == first_token(paths@) && match first_token(paths@) {
            Some(t) => {
                let id = StableConnId { raw: t };
                &&& final(routing)@ == old(routing)@.promoted(id, mine@, remote@, now)
                &&& names(evicted_devices@) == devices_of(
                    old(routing)@,
                    old(routing)@.displaced_by(id, remote@),
                )
                &&& v.watch == Some(id)
            },
            None => final(routing)@ == old(routing)@ && evicted_devices@.len() == 0
                && v.watch is None,
        },
{
    let ghost before = routing@;
    let promoted: Option<(u64, PromoteOutcome)> = match connection_token(paths) {
        Some(token) => {
            let id = StableConnId::from_raw(token);
            Some((token, routing.promote(id, mine, remote, now)))
        },
        None => None,
    };
    proof {
        if let Some(token) = first_token(paths@) {
            let id = StableConnId { raw: token };
            lemma_same_devices(before, routing@, before.displaced_by(id, remote@));
        }
    }
    after_handshake(routing, remote, promoted)
}

/// After a handshake over a pipe of this transport, that pipe leads to the
/// endpoint that the handshake proved, and no other endpoint is led elsewhere.
pub proof fn handshakes_lead_to_their_pipe(
    r: RoutingView,
    paths: Seq<ConnectionPath>,
    mine: Seq<u8>,
    remote: Seq<u8>,
    other: Seq<u8>,
    now: Instant,
)
    requires
        first_token(paths) is Some,
    ensures
        ({
            let id = StableConnId { raw: first_token(paths)->0 };
            let after = r.promoted(id, mine, remote, now);
            &&& after.routable.contains_key(remote)
            &&& after.routable[remote].stable_id == id
            &&& after.displaced_by(id, remote) == Seq::<StableConnId>::empty()
            &&& other != remote ==> after.routable.contains_key(other) == r.routable.contains_key(
                other,
            ) && (r.routable.contains_key(other) ==> after.routable[other] == r.routable[other])
            &&& after.pipes == r.pipes
        }),
{
}

/// The commands that an event becomes: the key is recorded, and every device
/// whose pipe had to make room is drained. A closed connection needs no command.
pub fn hook_commands(event: HookEvent) -> (commands: Vec<PeerCommand>)
    ensures
        match event {
            HookEvent::VerifiedEndpoint { endpoint_id, evicted_devices, .. } => {
                &&& commands@.len() == 1 + evicted_devices@.len()
                &&& commands@[0]@ == (CommandView::VerifiedEndpoint { endpoint_id })
                &&& forall|i: int|
                    0 <= i < evicted_devices@.len() ==> (#[trigger] commands@[i + 1])@ == (
                    CommandView::Stalled { device_id: evicted_devices@[i]@ })
            },
            HookEvent::ConnectionClosed { .. } => commands@.len() == 0,
        },
{
    let mut commands: Vec<PeerCommand> = Vec::new();
    match event {
        HookEvent::VerifiedEndpoint { endpoint_id, evicted_devices, .. } => {
            commands.push(PeerCommand::VerifiedEndpoint { endpoint_id });
            let mut i: usize = 0;
            while i < evicted_devices.len()
                invariant
                    i <= evicted_devices@.len(),
                    commands@.len() == 1 + i,
                    commands@[0]@ == (CommandView::VerifiedEndpoint { endpoint_id }),
                    forall|j: int|
                        0 <= j < i ==> (#[trigger] commands@[j + 1])@ == (CommandView::Stalled {
                            device_id: evicted_devices@[j]@,
                        }),
                decreases evicted_devices@.len() - i,
            {
                commands.push(PeerCommand::Stalled { device_id: evicted_devices[i].clone() });
                i = i + 1;
            }
        },
        HookEvent::ConnectionClosed { .. } => {},
    }
    commands
}

} // verus!
