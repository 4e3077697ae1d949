//! The registry of peers: a state machine without I/O.
//!
//! [`Registry::handle`] takes a command and a reading of the clocks, changes
//! the entries it concerns and returns the actions that the driver has to
//! carry out. [`RegistryView::step`] says what that change is.

use vstd::prelude::*;

use crate::bytes::{bytes_precede, precedes};
use crate::dedup::{should_win, wins};
use crate::keys::{endpoint_of_secret, endpoint_prefix, prefix_from_endpoint, public_key};
use crate::lifecycle::{extends, ChannelAnswers, Step};
use crate::peer::{
    actions_view, emit, prefix_equal, ActionView, BleDevice, ChannelHandle, ConnectPath,
    ConnectRole, DeviceId, DisconnectCause, DisconnectReason, EndpointId, KeyPrefix, L2capChannel,
    PeerAction, PeerCommand, PeerEntry, PeerPhase, PeerView, PendingSendView, WakerId,
};
use crate::channel::{PipeHandles, PipeView};
use crate::table::{Key, PrefixTable};
use crate::time::{Clock, Instant};
use crate::transport::L2capPolicy;

verus! {

#[derive(Debug)]
pub struct Registry {
    peers: Vec<PeerEntry>,
    l2cap_policy: L2capPolicy,
    /// The keys that handshakes have proved, by prefix.
    verified_prefixes: PrefixTable<EndpointId>,
    my_endpoint: EndpointId,
    my_prefix: KeyPrefix,
}

/// The registry's state. Peers stand in the order in which they came in.
#[verifier::ext_equal]
pub struct RegistryView {
    pub peers: Seq<PeerView>,
    pub l2cap_policy: L2capPolicy,
    pub verified: Map<Seq<u8>, Seq<u8>>,
    pub my_endpoint: EndpointId,
}

/// What a command does to the registry.
#[verifier::ext_equal]
pub struct Outcome {
    pub registry: RegistryView,
    pub actions: Seq<ActionView>,
}

pub open spec fn peers_view(peers: Seq<PeerEntry>) -> Seq<PeerView> {
    Seq::new(peers.len(), |i: int| peers[i]@)
}

impl View for Registry {
    type V = RegistryView;

    closed spec fn view(&self) -> RegistryView {
        RegistryView {
            peers: peers_view(self.peers@),
            l2cap_policy: self.l2cap_policy,
            verified: self.verified_prefixes@,
            my_endpoint: self.my_endpoint,
        }
    }
}

/// Some peer has this device name.
pub open spec fn known(peers: Seq<PeerView>, id: Seq<char>) -> bool {
    exists|i: int| 0 <= i < peers.len() && (#[trigger] peers[i]).device_id == id
}

/// Where the peer with this device name stands.
pub open spec fn place(peers: Seq<PeerView>, id: Seq<char>) -> int {
    choose|i: int| 0 <= i < peers.len() && (#[trigger] peers[i]).device_id == id
}

/// No device name occurs twice.
pub open spec fn distinct(peers: Seq<PeerView>) -> bool {
    forall|i: int, j: int|
        0 <= i < j < peers.len() ==> (#[trigger] peers[i]).device_id != (
        #[trigger] peers[j]).device_id
}

/// Every peer, moved on by `f`.
pub open spec fn swept(peers: Seq<PeerView>, f: spec_fn(int, PeerView) -> Step) -> Seq<PeerView> {
    Seq::new(peers.len(), |i: int| f(i, peers[i]).peer)
}

/// The actions of the first `n` peers moved on by `f`, in order.
pub open spec fn sweep_actions(
    peers: Seq<PeerView>,
    f: spec_fn(int, PeerView) -> Step,
    n: nat,
) -> Seq<ActionView>
    decreases n,
{
    if n == 0 {
        Seq::empty()
    } else {
        sweep_actions(peers, f, (n - 1) as nat) + f(n - 1, peers[n - 1]).actions
    }
}

/// A live link to the peer with this prefix.
pub open spec fn candidate(peer: PeerView, prefix: KeyPrefix) -> bool {
    peer.prefix == Some(prefix) && peer.phase is Connected
}

/// There are two or more live links to the peer with this prefix.
pub open spec fn contested(peers: Seq<PeerView>, prefix: KeyPrefix) -> bool {
    exists|i: int, j: int|
        0 <= i < j < peers.len() && candidate(#[trigger] peers[i], prefix) && candidate(
            #[trigger] peers[j],
            prefix,
        )
}

/// The link at `i` is one that may be kept.
pub open spec fn keeper(
    peers: Seq<PeerView>,
    prefix: KeyPrefix,
    mine: Seq<u8>,
    theirs: Seq<u8>,
    i: int,
) -> bool {
    &&& 0 <= i < peers.len()
    &&& candidate(peers[i], prefix)
    &&& wins(peers[i].role, mine, theirs)
}

/// The link at `i` is the one that is kept: the first that may be.
pub open spec fn kept(
    peers: Seq<PeerView>,
    prefix: KeyPrefix,
    mine: Seq<u8>,
    theirs: Seq<u8>,
    i: int,
) -> bool {
    keeper(peers, prefix, mine, theirs, i) && forall|j: int|
        0 <= j < i ==> !keeper(peers, prefix, mine, theirs, j)
}

impl RegistryView {
    pub open spec fn wf(self) -> bool {
        distinct(self.peers)
    }

    pub open spec fn unchanged(self) -> Outcome {
        Outcome { registry: self, actions: Seq::empty() }
    }

    /// The peer with this device name.
    pub open spec fn peer(self, id: Seq<char>) -> Option<PeerView> {
        if known(self.peers, id) {
            Some(self.peers[place(self.peers, id)])
        } else {
            None
        }
    }

    /// `f` moves the named peer on; an unknown one is left alone.
    pub open spec fn at_known(self, id: Seq<char>, f: spec_fn(PeerView) -> Step) -> Outcome {
        if known(self.peers, id) {
            let i = place(self.peers, id);
            let step = f(self.peers[i]);
            Outcome {
                registry: RegistryView { peers: self.peers.update(i, step.peer), ..self },
                actions: step.actions,
            }
        } else {
            self.unchanged()
        }
    }

    /// `f` moves the named peer on, or `fresh` adds it if it is unknown.
    pub open spec fn at_any(
        self,
        id: Seq<char>,
        f: spec_fn(PeerView) -> Step,
        fresh: Step,
    ) -> Outcome {
        if known(self.peers, id) {
            self.at_known(id, f)
        } else {
            Outcome {
                registry: RegistryView { peers: self.peers.push(fresh.peer), ..self },
                actions: fresh.actions,
            }
        }
    }

    /// `f` moves every peer on, in order.
    pub open spec fn sweep(self, f: spec_fn(int, PeerView) -> Step) -> Outcome {
        Outcome {
            registry: RegistryView { peers: swept(self.peers, f), ..self },
            actions: sweep_actions(self.peers, f, self.peers.len()),
        }
    }

    /// First `self` happened, with these actions, and `next` followed.
    pub open spec fn after(first: Outcome, next: Outcome) -> Outcome {
        Outcome { registry: next.registry, actions: first.actions + next.actions }
    }
}

pub open spec fn tick_of(now: Instant) -> spec_fn(int, PeerView) -> Step {
    |i: int, p: PeerView| p.ticked(now)
}

pub open spec fn cancel_of(at: Clock, prefix: KeyPrefix) -> spec_fn(int, PeerView) -> Step {
    |i: int, p: PeerView| p.dial_cancelled(at, prefix)
}

/// Every live link to the peer but the kept one is given up.
pub open spec fn dedup_of(
    peers: Seq<PeerView>,
    at: Clock,
    prefix: KeyPrefix,
    mine: Seq<u8>,
    theirs: Seq<u8>,
) -> spec_fn(int, PeerView) -> Step {
    |i: int, p: PeerView|
        if candidate(p, prefix) && !kept(peers, prefix, mine, theirs, i) {
            p.drained(at, DisconnectReason::DedupLoser)
        } else {
            p.unchanged()
        }
}

pub open spec fn upgrade_of(prefix: KeyPrefix) -> spec_fn(int, PeerView) -> Step {
    |i: int, p: PeerView| p.upgrade_started(prefix)
}

pub open spec fn shutdown_of() -> spec_fn(int, PeerView) -> Step {
    |i: int, p: PeerView| p.shut_down()
}

impl RegistryView {
    /// A live link to a peer that proved the key behind this prefix.
    pub open spec fn has_verified_live(self, prefix: KeyPrefix) -> bool {
        exists|i: int|
            0 <= i < self.peers.len() && (#[trigger] self.peers[i]).phase is Connected && (
            self.peers[i].verified_endpoint matches Some(key) && endpoint_prefix(key) == prefix)
    }

    /// We have the lower key and the peer has not proved its own yet: it is to
    /// dial first.
    pub open spec fn defers_to(self, prefix: KeyPrefix) -> bool {
        precedes(endpoint_prefix(self.my_endpoint)@, prefix@) && !self.verified.contains_key(
            prefix@,
        )
    }

    pub open spec fn advertised(self, at: Clock, id: Seq<char>, prefix: KeyPrefix) -> Outcome {
        let suppressed = self.has_verified_live(prefix);
        let defer = self.defers_to(prefix);
        self.at_any(
            id,
            |p: PeerView| p.advertised(at.now, prefix, suppressed, defer),
            PeerView::fresh(id).advertised(at.now, prefix, suppressed, defer),
        )
    }

    pub open spec fn sent(
        self,
        at: Clock,
        id: Seq<char>,
        send: PendingSendView,
        a: ChannelAnswers,
    ) -> Outcome {
        self.at_any(
            id,
            |p: PeerView| p.sent(at.now, send, a),
            PeerView::fresh(id).sent(at.now, send, a),
        )
    }

    pub open spec fn fragment_received(
        self,
        at: Clock,
        id: Seq<char>,
        fragment: Seq<u8>,
        a: ChannelAnswers,
    ) -> Outcome {
        self.at_any(
            id,
            |p: PeerView| p.fragment_received(at.now, fragment, a),
            PeerView { last_rx: Some(at.now), ..PeerView::fresh(id) }.answering(at.now, fragment),
        )
    }

    pub open spec fn pipe_ready(self, id: Seq<char>, pipe: PipeView, a: ChannelAnswers) -> Outcome {
        self.at_known(id, |p: PeerView| p.pipe_ready(pipe, a).unchanged())
    }

    pub open spec fn l2cap_accepted(
        self,
        at: Clock,
        id: Seq<char>,
        channel: L2capChannel,
    ) -> Outcome {
        self.at_any(
            id,
            |p: PeerView| p.l2cap_accepted(at.now, channel),
            PeerView { role: ConnectRole::Peripheral, ..PeerView::fresh(id) }.l2cap_promoted(
                at.now,
                channel,
            ),
        )
    }

    pub open spec fn client_subscribed(self, at: Clock, id: Seq<char>) -> Outcome {
        self.at_any(
            id,
            |p: PeerView| p.client_subscribed(at.now),
            PeerView::fresh(id).client_subscribed(at.now),
        )
    }

    pub open spec fn adapter_changed(self, at: Clock, powered: bool) -> Outcome {
        if powered {
            Outcome {
                registry: RegistryView {
                    peers: Seq::new(self.peers.len(), |i: int| self.peers[i].adapter_on(at.now)),
                    ..self
                },
                actions: seq![ActionView::RebuildGattServer, ActionView::RestartAdvertising] + (
                if self.l2cap_policy is PreferL2cap {
                    seq![ActionView::RestartL2capListener]
                } else {
                    Seq::empty()
                }),
            }
        } else {
            Outcome {
                registry: RegistryView {
                    peers: Seq::new(self.peers.len(), |i: int| self.peers[i].adapter_off(at.now)),
                    ..self
                },
                actions: Seq::empty(),
            }
        }
    }

    /// One device that the platform restored.
    pub open spec fn restored_one(self, at: Clock, id: Seq<char>) -> Outcome {
        if known(self.peers, id) {
            self.at_known(id, |p: PeerView| p.restored(at.now).unchanged())
        } else {
            Outcome {
                registry: self,
                actions: seq![ActionView::EmitMetric("restore_unknown_device="@ + id)],
            }
        }
    }

    /// The first `n` of the devices that the platform restored.
    pub open spec fn restored(self, at: Clock, devices: Seq<BleDevice>, n: nat) -> Outcome
        decreases n,
    {
        if n == 0 {
            self.unchanged()
        } else {
            let before = self.restored(at, devices, (n - 1) as nat);
            RegistryView::after(
                before,
                before.registry.restored_one(at, devices[n - 1].id@),
            )
        }
    }

    pub open spec fn ticked(self, now: Instant) -> Outcome {
        let moved = self.sweep(tick_of(now));
        Outcome {
            registry: RegistryView {
                peers: moved.registry.peers.filter(|p: PeerView| !p.expired(now)),
                ..self
            },
            actions: moved.actions,
        }
    }

    pub open spec fn handover_timed_out(self, id: Seq<char>) -> Outcome {
        if known(self.peers, id) {
            self.at_known(id, |p: PeerView| p.handover_timed_out())
        } else {
            Outcome {
                registry: self,
                actions: seq![
                    ActionView::RevertToGattPipe {
                        device_id: id,
                        tx_gen: 0,
                        role: ConnectRole::Central,
                    },
                ],
            }
        }
    }

    /// The key is recorded, with every peer known under its prefix.
    pub open spec fn key_recorded(self, at: Clock, key: EndpointId) -> RegistryView {
        let prefix = endpoint_prefix(key);
        RegistryView {
            peers: Seq::new(
                self.peers.len(),
                |i: int| self.peers[i].stamped(at.now, prefix, key),
            ),
            verified: self.verified.insert(prefix@, key@),
            ..self
        }
    }

    /// Dials held back for the prefix are given up.
    pub open spec fn dials_cancelled(self, at: Clock, prefix: KeyPrefix) -> Outcome {
        self.sweep(cancel_of(at, prefix))
    }

    /// Of several live links to the same peer one is kept.
    pub open spec fn deduplicated(self, at: Clock, key: EndpointId) -> Outcome {
        let prefix = endpoint_prefix(key);
        let peers = self.peers;
        let mine = self.my_endpoint@;
        if contested(peers, prefix) {
            self.sweep(dedup_of(peers, at, prefix, mine, key@))
        } else {
            self.unchanged()
        }
    }

    /// Links over GATT to the peer start to move to L2CAP, if that is wanted.
    pub open spec fn upgrades_started(self, prefix: KeyPrefix) -> Outcome {
        if self.l2cap_policy is PreferL2cap {
            self.sweep(upgrade_of(prefix))
        } else {
            self.unchanged()
        }
    }

    /// A peer proved that it holds `key`.
    pub open spec fn verified_endpoint(self, at: Clock, key: EndpointId) -> Outcome {
        let prefix = endpoint_prefix(key);
        let cancelled = self.key_recorded(at, key).dials_cancelled(at, prefix);
        let settled = RegistryView::after(cancelled, cancelled.registry.deduplicated(at, key));
        RegistryView::after(settled, settled.registry.upgrades_started(prefix))
    }

    /// The command runs no counter of the peer that it is about past its highest
    /// value, and no deadline past the end of the clock.
    pub open spec fn can_handle(self, cmd: PeerCommand, at: Clock) -> bool {
        match cmd {
            PeerCommand::Advertised { prefix, device, .. } => self.peer(device.id@) matches Some(p)
                ==> p.can_advertise(
                at.now,
                prefix,
                self.has_verified_live(prefix),
                self.defers_to(prefix),
            ),
            PeerCommand::ConnectSucceeded { device_id, .. } => self.peer(device_id@) matches Some(p)
                ==> p.can_connect(),
            PeerCommand::ConnectFailed { device_id, .. } => self.peer(device_id@) matches Some(p)
                ==> p.can_fail(at.now),
            PeerCommand::InboundGattFragment { device_id, .. } => self.peer(
                device_id@,
            ) matches Some(p) ==> p.can_hear(),
            PeerCommand::OpenL2capSucceeded { device_id, .. } => self.peer(
                device_id@,
            ) matches Some(p) ==> p.can_open_l2cap(),
            PeerCommand::OpenL2capFailed { device_id, .. } => self.peer(device_id@) matches Some(p)
                ==> p.can_open_l2cap(),
            PeerCommand::InboundL2capChannel { device_id, .. } => self.peer(
                device_id@,
            ) matches Some(p) ==> p.can_accept_l2cap(),
            PeerCommand::PeripheralClientSubscribed { client_id, .. } => self.peer(
                client_id@,
            ) matches Some(p) ==> p.can_subscribe(),
            _ => true,
        }
    }

    /// What a command does, given how the channels answer.
    pub open spec fn step(self, cmd: PeerCommand, at: Clock, a: ChannelAnswers) -> Outcome {
        match cmd {
            PeerCommand::Advertised { prefix, device, .. } => self.advertised(
                at,
                device.id@,
                prefix,
            ),
            PeerCommand::CentralConnected { .. } => self.unchanged(),
            PeerCommand::CentralDisconnected { device_id, cause } => self.at_known(
                device_id@,
                |p: PeerView| p.central_disconnected(at, cause),
            ),
            PeerCommand::InboundGattFragment { device_id, bytes, .. } => self.fragment_received(
                at,
                device_id@,
                bytes@,
                a,
            ),
            PeerCommand::InboundL2capChannel { device_id, channel } => self.l2cap_accepted(
                at,
                device_id@,
                channel,
            ),
            PeerCommand::AdapterStateChanged { powered } => self.adapter_changed(at, powered),
            PeerCommand::RestoreFromAdapter { devices } => self.restored(
                at,
                devices@,
                devices@.len(),
            ),
            PeerCommand::SendDatagram { device_id, tx_gen, datagram, waker } => self.sent(
                at,
                device_id@,
                PendingSendView { tx_gen, datagram: datagram@, waker },
                a,
            ),
            PeerCommand::Tick(now) => self.ticked(now),
            PeerCommand::ConnectSucceeded { device_id, channel } => self.at_known(
                device_id@,
                |p: PeerView| p.connect_succeeded(at.now, channel),
            ),
            PeerCommand::ConnectFailed { device_id, error } => self.at_known(
                device_id@,
                |p: PeerView| p.connect_failed(at.now, error@),
            ),
            PeerCommand::OpenL2capSucceeded { device_id, channel } => self.at_known(
                device_id@,
                |p: PeerView| p.l2cap_opened(at.now, channel),
            ),
            PeerCommand::OpenL2capFailed { device_id, error } => self.at_known(
                device_id@,
                |p: PeerView| p.l2cap_open_failed(at.now, error@),
            ),
            PeerCommand::Stalled { device_id } => self.at_known(
                device_id@,
                |p: PeerView| p.stalled(at),
            ),
            PeerCommand::Forget { device_id } => self.at_known(
                device_id@,
                |p: PeerView| p.forgotten(at.now),
            ),
            PeerCommand::DataPipeReady { device_id, handles, .. } => self.pipe_ready(
                device_id@,
                handles@,
                a,
            ),
            PeerCommand::Shutdown => self.sweep(shutdown_of()),
            PeerCommand::ProtocolVersionMismatch { device_id, got, want } => self.at_known(
                device_id@,
                |p: PeerView| p.version_mismatched(at, got, want),
            ),
            PeerCommand::VerifiedEndpoint { endpoint_id } => self.verified_endpoint(
                at,
                endpoint_id,
            ),
            PeerCommand::PeripheralClientSubscribed { client_id, .. } => self.client_subscribed(
                at,
                client_id@,
            ),
            PeerCommand::L2capHandoverTimeout { device_id } => self.handover_timed_out(device_id@),
        }
    }
}

/// With distinct names, a peer's place is where it stands.
pub proof fn lemma_place(peers: Seq<PeerView>, id: Seq<char>, i: int)
    requires
        distinct(peers),
        0 <= i < peers.len(),
        peers[i].device_id == id,
    ensures
        known(peers, id),
        place(peers, id) == i,
{
    let j = place(peers, id);
    assert(peers[i].device_id == id);
    if i < j {
        assert(peers[i].device_id != peers[j].device_id);
    } else if j < i {
        assert(peers[j].device_id != peers[i].device_id);
    }
}

proof fn lemma_distinct_update(peers: Seq<PeerView>, i: int, peer: PeerView)
    requires
        distinct(peers),
        0 <= i < peers.len(),
        peer.device_id == peers[i].device_id,
    ensures
        distinct(peers.update(i, peer)),
{
    let after = peers.update(i, peer);
    assert forall|a: int, b: int| 0 <= a < b < after.len() implies (#[trigger] after[a]).device_id
        != (#[trigger] after[b]).device_id by {
        assert(peers[a].device_id != peers[b].device_id);
    }
}

proof fn lemma_distinct_push(peers: Seq<PeerView>, peer: PeerView)
    requires
        distinct(peers),
        !known(peers, peer.device_id),
    ensures
        distinct(peers.push(peer)),
{
    let after = peers.push(peer);
    assert forall|a: int, b: int| 0 <= a < b < after.len() implies (#[trigger] after[a]).device_id
        != (#[trigger] after[b]).device_id by {
        if b < peers.len() {
            assert(peers[a].device_id != peers[b].device_id);
        } else {
            assert(peers[a].device_id != peer.device_id);
        }
    }
}

proof fn lemma_distinct_map(before: Seq<PeerView>, after: Seq<PeerView>)
    requires
        distinct(before),
        after.len() == before.len(),
        forall|i: int| 0 <= i < after.len() ==> (#[trigger] after[i]).device_id == before[i].device_id,
    ensures
        distinct(after),
{
    assert forall|a: int, b: int| 0 <= a < b < after.len() implies (#[trigger] after[a]).device_id
        != (#[trigger] after[b]).device_id by {
        assert(before[a].device_id != before[b].device_id);
    }
}

pub proof fn lemma_filter_distinct(peers: Seq<PeerView>, keep: spec_fn(PeerView) -> bool)
    requires
        distinct(peers),
    ensures
        distinct(peers.filter(keep)),
        forall|i: int|
            0 <= i < peers.filter(keep).len() ==> peers.contains(#[trigger] peers.filter(keep)[i]),
    decreases peers.len(),
{
    reveal(Seq::filter);
    if peers.len() > 0 {
        let rest = peers.drop_last();
        assert(distinct(rest)) by {
            assert forall|a: int, b: int| 0 <= a < b < rest.len() implies (
            #[trigger] rest[a]).device_id != (#[trigger] rest[b]).device_id by {
                assert(peers[a].device_id != peers[b].device_id);
            }
        }
        lemma_filter_distinct(rest, keep);
        let kept = rest.filter(keep);
        assert forall|i: int| 0 <= i < kept.len() implies peers.contains(#[trigger] kept[i])
            && kept[i].device_id != peers.last().device_id by {
            assert(rest.contains(kept[i]));
            let j = choose|j: int| 0 <= j < rest.len() && rest[j] == kept[i];
            assert(peers[j] == kept[i]);
            assert(peers[j].device_id != peers[peers.len() - 1].device_id);
        }
        let all = peers.filter(keep);
        assert forall|i: int| 0 <= i < all.len() implies peers.contains(#[trigger] all[i]) by {
            if i < kept.len() {
                assert(all[i] == kept[i]);
            } else {
                assert(all[i] == peers[peers.len() - 1]);
            }
        }
        assert forall|a: int, b: int| 0 <= a < b < all.len() implies (#[trigger] all[a]).device_id
            != (#[trigger] all[b]).device_id by {
            assert(all[a] == kept[a]);
            if b < kept.len() {
                assert(all[b] == kept[b]);
                assert(kept[a].device_id != kept[b].device_id);
            }
        }
    }
}

impl Registry {
    /// Device names are distinct and what is derived agrees with its source.
    pub closed spec fn wf(self) -> bool {
        &&& self@.wf()
        &&& self.verified_prefixes.wf()
        &&& self.my_prefix == endpoint_prefix(self.my_endpoint)
    }

    /// What is well-formed inside is well-formed as seen from outside.
    pub proof fn lemma_wf(&self)
        requires
            self.wf(),
        ensures
            self@.wf(),
    {
    }

    pub fn new(l2cap_policy: L2capPolicy, my_endpoint: EndpointId) -> (r: Self)
        ensures
            r.wf(),
            r@ == (RegistryView {
                peers: Seq::empty(),
                l2cap_policy,
                verified: Map::empty(),
                my_endpoint,
            }),
    {
        let my_prefix = prefix_from_endpoint(&my_endpoint);
        let r = Registry {
            peers: Vec::new(),
            l2cap_policy,
            verified_prefixes: PrefixTable::new(),
            my_endpoint,
            my_prefix,
        };
        assert(r@.peers =~= Seq::empty());
        r
    }

    fn position(&self, device_id: &DeviceId) -> (r: Option<usize>)
        requires
            self.wf(),
        ensures
            match r {
                Some(i) => i < self.peers@.len() && self.peers@[i as int]@.device_id == device_id@
                    && known(self@.peers, device_id@) && place(self@.peers, device_id@) == i,
                None => !known(self@.peers, device_id@),
            },
    {
        let mut i: usize = 0;
        while i < self.peers.len()
            invariant
                self.wf(),
                i <= self.peers@.len(),
                forall|j: int| 0 <= j < i ==> (#[trigger] self@.peers[j]).device_id != device_id@,
            decreases self.peers@.len() - i,
        {
            if self.peers[i].device_id.same(device_id) {
                proof {
                    lemma_place(self@.peers, device_id@, i as int);
                }
                return Some(i);
            }
            assert(self@.peers[i as int].device_id != device_id@);
            i = i + 1;
        }
        None
    }

    /// The entry of a device.
    pub fn peer(&self, device_id: &DeviceId) -> (r: Option<&PeerEntry>)
        requires
            self.wf(),
        ensures
            match r {
                Some(entry) => self@.peer(device_id@) == Some(entry@),
                None => self@.peer(device_id@) is None,
            },
    {
        match self.position(device_id) {
            Some(i) => Some(&self.peers[i]),
            None => None,
        }
    }

    proof fn lemma_moved(before: Registry, after: Registry, i: int, entry: PeerEntry)
        requires
            before.wf(),
            0 <= i < before.peers@.len(),
            entry@.device_id == before.peers@[i]@.device_id,
            after.peers@ == before.peers@.update(i, entry),
            after.l2cap_policy == before.l2cap_policy,
            after.verified_prefixes == before.verified_prefixes,
            after.my_endpoint == before.my_endpoint,
            after.my_prefix == before.my_prefix,
        ensures
            after.wf(),
            after@ == (RegistryView { peers: before@.peers.update(i, entry@), ..before@ }),
    {
        assert(peers_view(after.peers@) =~= peers_view(before.peers@).update(i, entry@));
        lemma_distinct_update(before@.peers, i, entry@);
    }

    fn handle_stalled(
        &mut self,
        at: Clock,
        device_id: DeviceId,
        actions: &mut Vec<PeerAction>,
    )
        requires
            old(self).wf(),
        ensures
            final(self).wf(),
            ({
                let out = old(self)@.at_known(device_id@, |p: PeerView| p.stalled(at));
                final(self)@ == out.registry && extends(old(actions)@, final(actions)@, out.actions)
            }),
    {
        if let Some(i) = self.position(&device_id) {
            assert(self@.peers[i as int] == self.peers@[i as int]@);
            self.peers[i].on_stalled(at, actions);
            proof {
                Self::lemma_moved(*old(self), *self, i as int, self.peers@[i as int]);
            }
        }
    }

    fn handle_connect_succeeded(
        &mut self,
        at: Clock,
        device_id: DeviceId,
        channel: ChannelHandle,
        actions: &mut Vec<PeerAction>,
    )
        requires
            old(self).wf(),
            old(self)@.peer(device_id@) matches Some(p) ==> p.can_connect(),
        ensures
            final(self).wf(),
            ({
                let out = old(self)@.at_known(device_id@, |p: PeerView| p.connect_succeeded(at.now, channel));
                final(self)@ == out.registry && extends(old(actions)@, final(actions)@, out.actions)
            }),
    {
        if let Some(i) = self.position(&device_id) {
            assert(self@.peers[i as int] == self.peers@[i as int]@);
            self.peers[i].on_connect_succeeded(at.now, channel, actions);
            proof {
                Self::lemma_moved(*old(self), *self, i as int, self.peers@[i as int]);
            }
        }
    }

    fn handle_connect_failed(
        &mut self,
        at: Clock,
        device_id: DeviceId,
        error: &str,
        actions: &mut Vec<PeerAction>,
    )
        requires
            old(self).wf(),
            old(self)@.peer(device_id@) matches Some(p) ==> p.can_fail(at.now),
        ensures
            final(self).wf(),
            ({
                let out = old(self)@.at_known(device_id@, |p: PeerView| p.connect_failed(at.now, error@));
                final(self)@ == out.registry && extends(old(actions)@, final(actions)@, out.actions)
            }),
    {
        if let Some(i) = self.position(&device_id) {
            assert(self@.peers[i as int] == self.peers@[i as int]@);
            self.peers[i].on_connect_failed(at.now, error, actions);
            proof {
                Self::lemma_moved(*old(self), *self, i as int, self.peers@[i as int]);
            }
        }
    }

    fn handle_central_disconnected(
        &mut self,
        at: Clock,
        device_id: DeviceId,
        cause: DisconnectCause,
        actions: &mut Vec<PeerAction>,
    )
        requires
            old(self).wf(),
        ensures
            final(self).wf(),
            ({
                let out = old(self)@.at_known(device_id@, |p: PeerView| p.central_disconnected(at, cause));
                final(self)@ == out.registry && extends(old(actions)@, final(actions)@, out.actions)
            }),
    {
        if let Some(i) = self.position(&device_id) {
            assert(self@.peers[i as int] == self.peers@[i as int]@);
            self.peers[i].on_central_disconnected(at, cause, actions);
            proof {
                Self::lemma_moved(*old(self), *self, i as int, self.peers@[i as int]);
            }
        }
    }

    fn handle_forget(
        &mut self,
        at: Clock,
        device_id: DeviceId,
        actions: &mut Vec<PeerAction>,
    )
        requires
            old(self).wf(),
        ensures
            final(self).wf(),
            ({
                let out = old(self)@.at_known(device_id@, |p: PeerView| p.forgotten(at.now));
                final(self)@ == out.registry && extends(old(actions)@, final(actions)@, out.actions)
            }),
    {
        if let Some(i) = self.position(&device_id) {
            assert(self@.peers[i as int] == self.peers@[i as int]@);
            self.peers[i].on_forget(at.now, actions);
            proof {
                Self::lemma_moved(*old(self), *self, i as int, self.peers@[i as int]);
            }
        }
    }

    fn handle_open_l2cap_succeeded(
        &mut self,
        at: Clock,
        device_id: DeviceId,
        channel: L2capChannel,
        actions: &mut Vec<PeerAction>,
    )
        requires
            old(self).wf(),
            old(self)@.peer(device_id@) matches Some(p) ==> p.can_open_l2cap(),
        ensures
            final(self).wf(),
            ({
                let out = old(self)@.at_known(device_id@, |p: PeerView| p.l2cap_opened(at.now, channel));
                final(self)@ == out.registry && extends(old(actions)@, final(actions)@, out.actions)
            }),
    {
        if let Some(i) = self.position(&device_id) {
            assert(self@.peers[i as int] == self.peers@[i as int]@);
            self.peers[i].on_open_l2cap_succeeded(at.now, channel, actions);
            proof {
                Self::lemma_moved(*old(self), *self, i as int, self.peers@[i as int]);
            }
        }
    }

    fn handle_open_l2cap_failed(
        &mut self,
        at: Clock,
        device_id: DeviceId,
        error: &str,
        actions: &mut Vec<PeerAction>,
    )
        requires
            old(self).wf(),
            old(self)@.peer(device_id@) matches Some(p) ==> p.can_open_l2cap(),
        ensures
            final(self).wf(),
            ({
                let out = old(self)@.at_known(device_id@, |p: PeerView| p.l2cap_open_failed(at.now, error@));
                final(self)@ == out.registry && extends(old(actions)@, final(actions)@, out.actions)
            }),
    {
        if let Some(i) = self.position(&device_id) {
            assert(self@.peers[i as int] == self.peers@[i as int]@);
            self.peers[i].on_open_l2cap_failed(at.now, error, actions);
            proof {
                Self::lemma_moved(*old(self), *self, i as int, self.peers@[i as int]);
            }
        }
    }

    fn handle_protocol_version_mismatch(
        &mut self,
        at: Clock,
        device_id: DeviceId,
        got: u8,
        want: u8,
        actions: &mut Vec<PeerAction>,
    )
        requires
            old(self).wf(),
        ensures
            final(self).wf(),
            ({
                let out = old(self)@.at_known(device_id@, |p: PeerView| p.version_mismatched(at, got, want));
                final(self)@ == out.registry && extends(old(actions)@, final(actions)@, out.actions)
            }),
    {
        if let Some(i) = self.position(&device_id) {
            assert(self@.peers[i as int] == self.peers@[i as int]@);
            self.peers[i].on_version_mismatch(at, got, want, actions);
            proof {
                Self::lemma_moved(*old(self), *self, i as int, self.peers@[i as int]);
            }
        }
    }

    fn handle_l2cap_handover_timeout(
        &mut self,
        device_id: DeviceId,
        actions: &mut Vec<PeerAction>,
    )
        requires
            old(self).wf(),
        ensures
            final(self).wf(),
            ({
                let out = old(self)@.handover_timed_out(device_id@);
                final(self)@ == out.registry && extends(old(actions)@, final(actions)@, out.actions)
            }),
    {
        match self.position(&device_id) {
            Some(i) => {
                assert(self@.peers[i as int] == self.peers@[i as int]@);
                self.peers[i].on_handover_timeout(actions);
                proof {
                    Self::lemma_moved(*old(self), *self, i as int, self.peers@[i as int]);
                }
            },
            None => {
                emit(
                    actions,
                    PeerAction::RevertToGattPipe {
                        device_id,
                        tx_gen: 0,
                        role: ConnectRole::Central,
                    },
                );
            },
        }
    }

    fn handle_data_pipe_ready(&mut self, device_id: DeviceId, handles: PipeHandles)
        requires
            old(self).wf(),
        ensures
            final(self).wf(),
            exists|a: ChannelAnswers|
                final(self)@ == (#[trigger] old(self)@.pipe_ready(device_id@, handles@, a)).registry,
    {
        match self.position(&device_id) {
            Some(i) => {
                let ghost pipe = handles@;
                assert(self@.peers[i as int] == self.peers@[i as int]@);
                self.peers[i].on_data_pipe_ready(handles);
                proof {
                    let entry = self.peers@[i as int];
                    let a = choose|a: ChannelAnswers|
                        entry@ == #[trigger] old(self)@.peers[i as int].pipe_ready(pipe, a);
                    Self::lemma_moved(*old(self), *self, i as int, entry);
                    assert(self@ == old(self)@.pipe_ready(device_id@, pipe, a).registry);
                }
            },
            None => {
                proof {
                    let a = ChannelAnswers {
                        inbound_taken: 0,
                        outbound_taken: 0,
                        outbound_closed: false,
                        direct: crate::channel::TrySend::Full,
                    };
                    assert(self@ == old(self)@.pipe_ready(device_id@, handles@, a).registry);
                }
            },
        }
    }

    /// Adds an entry for a device that has none.
    fn append(&mut self, entry: PeerEntry)
        requires
            old(self).wf(),
            !known(old(self)@.peers, entry@.device_id),
        ensures
            final(self).wf(),
            final(self)@ == (RegistryView {
                peers: old(self)@.peers.push(entry@),
                ..old(self)@
            }),
    {
        self.peers.push(entry);
        proof {
            assert(peers_view(self.peers@) =~= peers_view(old(self).peers@).push(entry@));
            lemma_distinct_push(old(self)@.peers, entry@);
        }
    }

    /// Puts an entry in, in place of the one its device has, and returns that one.
    pub fn insert_peer(&mut self, entry: PeerEntry) -> (previous: Option<PeerEntry>)
        requires
            old(self).wf(),
        ensures
            final(self).wf(),
            ({
                let out = old(self)@.at_any(
                    entry@.device_id,
                    |p: PeerView| entry@.unchanged(),
                    entry@.unchanged(),
                );
                final(self)@ == out.registry
            }),
            match previous {
                Some(e) => old(self)@.peer(entry@.device_id) == Some(e@),
                None => old(self)@.peer(entry@.device_id) is None,
            },
    {
        let ghost view = entry@;
        match self.position(&entry.device_id) {
            Some(i) => {
                assert(self@.peers[i as int] == self.peers@[i as int]@);
                let mut slot = entry;
                std::mem::swap(&mut self.peers[i], &mut slot);
                proof {
                    Self::lemma_moved(*old(self), *self, i as int, self.peers@[i as int]);
                }
                Some(slot)
            },
            None => {
                self.append(entry);
                None
            },
        }
    }

    /// Whether a live link leads to a peer that proved the key behind a prefix.
    fn has_verified_live(&self, prefix: &KeyPrefix) -> (r: bool)
        ensures
            r == self@.has_verified_live(*prefix),
    {
        let mut i: usize = 0;
        while i < self.peers.len()
            invariant
                i <= self.peers@.len(),
                forall|j: int|
                    0 <= j < i ==> !((#[trigger] self@.peers[j]).phase is Connected && (
                    self@.peers[j].verified_endpoint matches Some(key) && endpoint_prefix(key)
                        == *prefix)),
            decreases self.peers@.len() - i,
        {
            let entry = &self.peers[i];
            assert(entry@ == self@.peers[i as int]);
            if matches!(entry.phase, PeerPhase::Connected { .. }) {
                if let Some(key) = entry.verified_endpoint {
                    if prefix_equal(&prefix_from_endpoint(&key), prefix) {
                        return true;
                    }
                }
            }
            i = i + 1;
        }
        false
    }

    fn must_defer(&self, prefix: &KeyPrefix) -> (r: bool)
        requires
            self.wf(),
        ensures
            r == self@.defers_to(*prefix),
    {
        let i_am_lower = bytes_precede(self.my_prefix.as_slice(), prefix.as_slice());
        i_am_lower && !self.verified_prefixes.contains_key(prefix)
    }

    fn handle_advertised(
        &mut self,
        at: Clock,
        prefix: KeyPrefix,
        device: BleDevice,
        actions: &mut Vec<PeerAction>,
    )
        requires
            old(self).wf(),
            old(self)@.peer(device.id@) matches Some(p) ==> p.can_advertise(
                at.now,
                prefix,
                old(self)@.has_verified_live(prefix),
                old(self)@.defers_to(prefix),
            ),
        ensures
            final(self).wf(),
            ({
                let out = old(self)@.advertised(at, device.id@, prefix);
                final(self)@ == out.registry && extends(old(actions)@, final(actions)@, out.actions)
            }),
    {
        let suppressed = self.has_verified_live(&prefix);
        let defer = self.must_defer(&prefix);
        match self.position(&device.id) {
            Some(i) => {
                assert(self@.peers[i as int] == self.peers@[i as int]@);
                self.peers[i].on_advertised(at.now, prefix, suppressed, defer, actions);
                proof {
                    Self::lemma_moved(*old(self), *self, i as int, self.peers@[i as int]);
                }
            },
            None => {
                let mut entry = PeerEntry::new(device.id);
                entry.on_advertised(at.now, prefix, suppressed, defer, actions);
                self.append(entry);
            },
        }
    }

    fn handle_send_datagram(
        &mut self,
        at: Clock,
        device_id: DeviceId,
        tx_gen: u64,
        datagram: Vec<u8>,
        waker: WakerId,
        actions: &mut Vec<PeerAction>,
    )
        requires
            old(self).wf(),
        ensures
            final(self).wf(),
            exists|a: ChannelAnswers|
                {
                    let out = #[trigger] old(self)@.sent(
                        at,
                        device_id@,
                        PendingSendView { tx_gen, datagram: datagram@, waker },
                        a,
                    );
                    final(self)@ == out.registry && extends(
                        old(actions)@,
                        final(actions)@,
                        out.actions,
                    )
                },
    {
        let ghost send = PendingSendView { tx_gen, datagram: datagram@, waker };
        let ghost id = device_id@;
        match self.position(&device_id) {
            Some(i) => {
                let ghost before = self@.peers[i as int];
                assert(before == self.peers@[i as int]@);
                self.peers[i].send_datagram(at.now, tx_gen, datagram, waker, actions);
                proof {
                    let entry = self.peers@[i as int];
                    let a = choose|a: ChannelAnswers|
                        {
                            let step = #[trigger] before.sent(at.now, send, a);
                            entry@ == step.peer && extends(
                                old(actions)@,
                                actions@,
                                step.actions,
                            )
                        };
                    Self::lemma_moved(*old(self), *self, i as int, entry);
                    let out = old(self)@.sent(at, id, send, a);
                    assert(self@ == out.registry);
                    assert(extends(old(actions)@, actions@, out.actions));
                }
            },
            None => {
                let mut entry = PeerEntry::new(device_id);
                entry.send_datagram(at.now, tx_gen, datagram, waker, actions);
                proof {
                    let a = choose|a: ChannelAnswers|
                        {
                            let step = #[trigger] PeerView::fresh(id).sent(at.now, send, a);
                            entry@ == step.peer && extends(
                                old(actions)@,
                                actions@,
                                step.actions,
                            )
                        };
                    let out = old(self)@.sent(at, id, send, a);
                    assert(extends(old(actions)@, actions@, out.actions));
                    assert(out.registry.peers == old(self)@.peers.push(entry@));
                }
                self.append(entry);
            },
        }
    }

    fn handle_inbound_gatt_fragment(
        &mut self,
        at: Clock,
        device_id: DeviceId,
        fragment: Vec<u8>,
        actions: &mut Vec<PeerAction>,
    )
        requires
            old(self).wf(),
            old(self)@.peer(device_id@) matches Some(p) ==> p.can_hear(),
        ensures
            final(self).wf(),
            exists|a: ChannelAnswers|
                {
                    let out = #[trigger] old(self)@.fragment_received(
                        at,
                        device_id@,
                        fragment@,
                        a,
                    );
                    final(self)@ == out.registry && extends(
                        old(actions)@,
                        final(actions)@,
                        out.actions,
                    )
                },
    {
        let ghost bytes = fragment@;
        let ghost id = device_id@;
        match self.position(&device_id) {
            Some(i) => {
                let ghost before = self@.peers[i as int];
                assert(before == self.peers@[i as int]@);
                self.peers[i].on_fragment(at.now, fragment, actions);
                proof {
                    let entry = self.peers@[i as int];
                    let a = choose|a: ChannelAnswers|
                        {
                            let step = #[trigger] before.fragment_received(at.now, bytes, a);
                            entry@ == step.peer && extends(
                                old(actions)@,
                                actions@,
                                step.actions,
                            )
                        };
                    Self::lemma_moved(*old(self), *self, i as int, entry);
                    let out = old(self)@.fragment_received(at, id, bytes, a);
                    assert(self@ == out.registry);
                    assert(extends(old(actions)@, actions@, out.actions));
                }
            },
            None => {
                let entry = PeerEntry::first_fragment(device_id, at.now, fragment, actions);
                self.append(entry);
                proof {
                    let a = ChannelAnswers {
                        inbound_taken: 0,
                        outbound_taken: 0,
                        outbound_closed: false,
                        direct: crate::channel::TrySend::Full,
                    };
                    let out = old(self)@.fragment_received(at, id, bytes, a);
                    assert(self@ == out.registry);
                    assert(extends(old(actions)@, actions@, out.actions));
                }
            },
        }
    }

    fn handle_inbound_l2cap_channel(
        &mut self,
        at: Clock,
        device_id: DeviceId,
        channel: L2capChannel,
        actions: &mut Vec<PeerAction>,
    )
        requires
            old(self).wf(),
            old(self)@.peer(device_id@) matches Some(p) ==> p.can_accept_l2cap(),
        ensures
            final(self).wf(),
            ({
                let out = old(self)@.l2cap_accepted(at, device_id@, channel);
                final(self)@ == out.registry && extends(old(actions)@, final(actions)@, out.actions)
            }),
    {
        match self.position(&device_id) {
            Some(i) => {
                assert(self@.peers[i as int] == self.peers@[i as int]@);
                self.peers[i].on_inbound_l2cap_channel(at.now, channel, actions);
                proof {
                    Self::lemma_moved(*old(self), *self, i as int, self.peers@[i as int]);
                }
            },
            None => {
                let entry = PeerEntry::first_l2cap_channel(device_id, at.now, channel, actions);
                self.append(entry);
            },
        }
    }

    fn handle_peripheral_client_subscribed(
        &mut self,
        at: Clock,
        client_id: DeviceId,
        actions: &mut Vec<PeerAction>,
    )
        requires
            old(self).wf(),
            old(self)@.peer(client_id@) matches Some(p) ==> p.can_subscribe(),
        ensures
            final(self).wf(),
            ({
                let out = old(self)@.client_subscribed(at, client_id@);
                final(self)@ == out.registry && extends(old(actions)@, final(actions)@, out.actions)
            }),
    {
        match self.position(&client_id) {
            Some(i) => {
                assert(self@.peers[i as int] == self.peers@[i as int]@);
                self.peers[i].on_client_subscribed(at.now, actions);
                proof {
                    Self::lemma_moved(*old(self), *self, i as int, self.peers@[i as int]);
                }
            },
            None => {
                let mut entry = PeerEntry::new(client_id);
                entry.on_client_subscribed(at.now, actions);
                self.append(entry);
            },
        }
    }

    fn handle_adapter_state_changed(
        &mut self,
        at: Clock,
        powered: bool,
        actions: &mut Vec<PeerAction>,
    )
        requires
            old(self).wf(),
        ensures
            final(self).wf(),
            ({
                let out = old(self)@.adapter_changed(at, powered);
                final(self)@ == out.registry && extends(old(actions)@, final(actions)@, out.actions)
            }),
    {
        let ghost before = self@.peers;
        let mut i: usize = 0;
        while i < self.peers.len()
            invariant
                i <= self.peers@.len(),
                before == old(self)@.peers,
                self.peers@.len() == before.len(),
                self.verified_prefixes == old(self).verified_prefixes,
                self.my_prefix == old(self).my_prefix,
                self.my_endpoint == old(self).my_endpoint,
                self.l2cap_policy == old(self).l2cap_policy,
                forall|j: int|
                    0 <= j < i ==> (#[trigger] self.peers@[j])@ == if powered {
                        before[j].adapter_on(at.now)
                    } else {
                        before[j].adapter_off(at.now)
                    },
                forall|j: int| i <= j < before.len() ==> (#[trigger] self.peers@[j])@ == before[j],
            decreases self.peers@.len() - i,
        {
            if powered {
                self.peers[i].on_adapter_on(at.now);
            } else {
                self.peers[i].on_adapter_off(at.now);
            }
            i = i + 1;
        }
        proof {
            assert(self@.peers =~= old(self)@.adapter_changed(at, powered).registry.peers);
            lemma_distinct_map(before, self@.peers);
        }
        if powered {
            // An adapter cycle can wipe the services and the advertising state.
            emit(actions, PeerAction::RebuildGattServer);
            emit(actions, PeerAction::RestartAdvertising);
            if matches!(self.l2cap_policy, L2capPolicy::PreferL2cap) {
                emit(actions, PeerAction::RestartL2capListener);
            }
        }
    }

    fn handle_restore_from_adapter(
        &mut self,
        at: Clock,
        devices: Vec<BleDevice>,
        actions: &mut Vec<PeerAction>,
    )
        requires
            old(self).wf(),
        ensures
            final(self).wf(),
            ({
                let out = old(self)@.restored(at, devices@, devices@.len());
                final(self)@ == out.registry && extends(old(actions)@, final(actions)@, out.actions)
            }),
    {
        let mut n: usize = 0;
        while n < devices.len()
            invariant
                n <= devices@.len(),
                self.wf(),
                ({
                    let out = old(self)@.restored(at, devices@, n as nat);
                    self@ == out.registry && extends(old(actions)@, actions@, out.actions)
                }),
            decreases devices@.len() - n,
        {
            let ghost before = *self;
            match self.position(&devices[n].id) {
                Some(i) => {
                    assert(self@.peers[i as int] == self.peers@[i as int]@);
                    self.peers[i].on_restored(at.now);
                    proof {
                        Self::lemma_moved(before, *self, i as int, self.peers@[i as int]);
                    }
                },
                None => {
                    let mut text = "restore_unknown_device=".to_owned();
                    text.append(devices[n].id.as_str());
                    emit(actions, PeerAction::EmitMetric(text));
                },
            }
            n = n + 1;
        }
    }

    fn handle_tick(&mut self, now: Instant, actions: &mut Vec<PeerAction>)
        requires
            old(self).wf(),
        ensures
            final(self).wf(),
            ({
                let out = old(self)@.ticked(now);
                final(self)@ == out.registry && extends(old(actions)@, final(actions)@, out.actions)
            }),
    {
        let ghost start = self@.peers;
        let mut i: usize = 0;
        while i < self.peers.len()
            invariant
                i <= self.peers@.len(),
                start == old(self)@.peers,
                self.peers@.len() == start.len(),
                self.verified_prefixes == old(self).verified_prefixes,
                self.my_prefix == old(self).my_prefix,
                self.my_endpoint == old(self).my_endpoint,
                self.l2cap_policy == old(self).l2cap_policy,
                forall|j: int|
                    0 <= j < i ==> (#[trigger] self.peers@[j])@ == start[j].ticked(now).peer,
                forall|j: int| i <= j < start.len() ==> (#[trigger] self.peers@[j])@ == start[j],
                extends(old(actions)@, actions@, sweep_actions(start, tick_of(now), i as nat)),
            decreases self.peers@.len() - i,
        {
            self.peers[i].on_tick(now, actions);
            i = i + 1;
        }
        let ghost moved = swept(start, tick_of(now));
        proof {
            assert(self@.peers =~= moved);
            lemma_distinct_map(start, moved);
        }
        self.drop_expired(now);
    }

    /// Drops the peers that have been dead for too long.
    fn drop_expired(&mut self, now: Instant)
        requires
            old(self).wf(),
        ensures
            final(self).wf(),
            final(self)@ == (RegistryView {
                peers: old(self)@.peers.filter(|p: PeerView| !p.expired(now)),
                ..old(self)@
            }),
    {
        let ghost all = self@.peers;
        let ghost keep = |p: PeerView| !p.expired(now);
        let ghost mut seen: int = 0;
        let mut i: usize = 0;
        proof {
            reveal(Seq::filter);
            assert(all.take(0).filter(keep) =~= Seq::empty());
            assert(self@.peers =~= all.take(0).filter(keep) + all.skip(0));
        }
        while i < self.peers.len()
            invariant
                0 <= seen <= all.len(),
                i <= self.peers@.len(),
                keep == (|p: PeerView| !p.expired(now)),
                i == all.take(seen).filter(keep).len(),
                peers_view(self.peers@) == all.take(seen).filter(keep) + all.skip(seen),
                self.verified_prefixes == old(self).verified_prefixes,
                self.my_prefix == old(self).my_prefix,
                self.my_endpoint == old(self).my_endpoint,
                self.l2cap_policy == old(self).l2cap_policy,
            decreases all.len() - seen,
        {
            let ghost kept_so_far = all.take(seen).filter(keep);
            proof {
                reveal(Seq::filter);
                assert(peers_view(self.peers@)[i as int] == all.skip(seen)[0]);
                assert(self.peers@[i as int]@ == all[seen]);
                assert(all.take(seen + 1).drop_last() =~= all.take(seen));
                assert(all.take(seen + 1).last() == all[seen]);
            }
            let ghost before = self.peers@;
            if self.peers[i].is_expired(now) {
                let _ = self.peers.remove(i);
                proof {
                    assert(peers_view(self.peers@) =~= peers_view(before).remove(i as int));
                    assert(peers_view(self.peers@) =~= kept_so_far + all.skip(seen + 1));
                }
            } else {
                i = i + 1;
                proof {
                    assert(kept_so_far.push(all[seen]) + all.skip(seen + 1) =~= kept_so_far + all.skip(
                        seen,
                    ));
                }
            }
            proof {
                seen = seen + 1;
            }
        }
        proof {
            assert(all.skip(seen).len() == 0);
            assert(all.take(seen) =~= all);
            assert(self@.peers =~= all.filter(keep));
            lemma_filter_distinct(all, keep);
        }
    }

    fn handle_shutdown(&mut self, actions: &mut Vec<PeerAction>)
        requires
            old(self).wf(),
        ensures
            final(self).wf(),
            ({
                let out = old(self)@.sweep(shutdown_of());
                final(self)@ == out.registry && extends(old(actions)@, final(actions)@, out.actions)
            }),
    {
        let ghost start = self@.peers;
        let mut i: usize = 0;
        while i < self.peers.len()
            invariant
                i <= self.peers@.len(),
                start == old(self)@.peers,
                self.peers@.len() == start.len(),
                self.verified_prefixes == old(self).verified_prefixes,
                self.my_prefix == old(self).my_prefix,
                self.my_endpoint == old(self).my_endpoint,
                self.l2cap_policy == old(self).l2cap_policy,
                forall|j: int|
                    0 <= j < i ==> (#[trigger] self.peers@[j])@ == start[j].shut_down().peer,
                forall|j: int| i <= j < start.len() ==> (#[trigger] self.peers@[j])@ == start[j],
                extends(old(actions)@, actions@, sweep_actions(start, shutdown_of(), i as nat)),
            decreases self.peers@.len() - i,
        {
            self.peers[i].on_shutdown(actions);
            i = i + 1;
        }
        proof {
            assert(self@.peers =~= swept(start, shutdown_of()));
            lemma_distinct_map(start, self@.peers);
        }
    }

    fn record_key(&mut self, at: Clock, prefix: KeyPrefix, key: EndpointId)
        requires
            old(self).wf(),
            prefix == endpoint_prefix(key),
        ensures
            final(self).wf(),
            final(self)@ == old(self)@.key_recorded(at, key),
    {
        let _ = self.verified_prefixes.insert(prefix, key);
        let ghost start = self@.peers;
        let ghost table = self.verified_prefixes;
        let mut i: usize = 0;
        while i < self.peers.len()
            invariant
                i <= self.peers@.len(),
                self.peers@.len() == start.len(),
                self.verified_prefixes == table,
                self.my_prefix == old(self).my_prefix,
                self.my_endpoint == old(self).my_endpoint,
                self.l2cap_policy == old(self).l2cap_policy,
                forall|j: int|
                    0 <= j < i ==> (#[trigger] self.peers@[j])@ == start[j].stamped(
                        at.now,
                        prefix,
                        key,
                    ),
                forall|j: int| i <= j < start.len() ==> (#[trigger] self.peers@[j])@ == start[j],
            decreases self.peers@.len() - i,
        {
            self.peers[i].stamp(at.now, &prefix, key);
            i = i + 1;
        }
        proof {
            assert(self@.peers =~= old(self)@.key_recorded(at, key).peers);
            lemma_distinct_map(start, self@.peers);
        }
    }

    fn cancel_dials(&mut self, at: Clock, prefix: KeyPrefix, actions: &mut Vec<PeerAction>)
        requires
            old(self).wf(),
        ensures
            final(self).wf(),
            ({
                let out = old(self)@.dials_cancelled(at, prefix);
                final(self)@ == out.registry && extends(old(actions)@, final(actions)@, out.actions)
            }),
    {
        let ghost start = self@.peers;
        let mut i: usize = 0;
        while i < self.peers.len()
            invariant
                i <= self.peers@.len(),
                start == old(self)@.peers,
                self.peers@.len() == start.len(),
                self.verified_prefixes == old(self).verified_prefixes,
                self.my_prefix == old(self).my_prefix,
                self.my_endpoint == old(self).my_endpoint,
                self.l2cap_policy == old(self).l2cap_policy,
                forall|j: int|
                    0 <= j < i ==> (#[trigger] self.peers@[j])@ == start[j].dial_cancelled(
                        at,
                        prefix,
                    ).peer,
                forall|j: int| i <= j < start.len() ==> (#[trigger] self.peers@[j])@ == start[j],
                extends(
                    old(actions)@,
                    actions@,
                    sweep_actions(start, cancel_of(at, prefix), i as nat),
                ),
            decreases self.peers@.len() - i,
        {
            self.peers[i].cancel_dial(at, &prefix, actions);
            i = i + 1;
        }
        proof {
            assert(self@.peers =~= swept(start, cancel_of(at, prefix)));
            lemma_distinct_map(start, self@.peers);
        }
    }

    fn is_candidate(&self, i: usize, prefix: &KeyPrefix) -> (r: bool)
        requires
            i < self@.peers.len(),
        ensures
            r == candidate(self@.peers[i as int], *prefix),
    {
        let entry = &self.peers[i];
        assert(entry@ == self@.peers[i as int]);
        matches!(entry.phase, PeerPhase::Connected { .. }) && entry.has_prefix(prefix)
    }

    /// Whether two or more live links lead to the peer with this prefix.
    fn is_contested(&self, prefix: &KeyPrefix) -> (r: bool)
        ensures
            r == contested(self@.peers, *prefix),
    {
        let mut first: Option<usize> = None;
        let mut i: usize = 0;
        while i < self.peers.len()
            invariant
                i <= self.peers@.len(),
                match first {
                    None => forall|j: int| 0 <= j < i ==> !candidate(#[trigger] self@.peers[j], *prefix),
                    Some(f) => f < i && candidate(self@.peers[f as int], *prefix) && forall|j: int|
                        0 <= j < i && j != f ==> !candidate(#[trigger] self@.peers[j], *prefix),
                },
            decreases self.peers@.len() - i,
        {
            if self.is_candidate(i, prefix) {
                match first {
                    Some(f) => {
                        assert(candidate(self@.peers[f as int], *prefix));
                        return true;
                    },
                    None => {
                        first = Some(i);
                    },
                }
            }
            i = i + 1;
        }
        false
    }

    /// The link that is kept, if any may be.
    fn kept_link(&self, prefix: &KeyPrefix, theirs: &EndpointId) -> (r: Option<usize>)
        ensures
            match r {
                Some(k) => kept(self@.peers, *prefix, self@.my_endpoint@, theirs@, k as int),
                None => forall|i: int|
                    !(#[trigger] keeper(
                        self@.peers,
                        *prefix,
                        self@.my_endpoint@,
                        theirs@,
                        i,
                    )),
            },
    {
        let mut i: usize = 0;
        while i < self.peers.len()
            invariant
                i <= self.peers@.len(),
                forall|j: int|
                    0 <= j < i ==> !(#[trigger] keeper(
                        self@.peers,
                        *prefix,
                        self@.my_endpoint@,
                        theirs@,
                        j,
                    )),
            decreases self.peers@.len() - i,
        {
            assert(self@.peers[i as int] == self.peers@[i as int]@);
            if self.is_candidate(i, prefix) && should_win(
                self.peers[i].role,
                &self.my_endpoint,
                theirs,
            ) {
                return Some(i);
            }
            assert(!keeper(self@.peers, *prefix, self@.my_endpoint@, theirs@, i as int));
            i = i + 1;
        }
        None
    }

    fn deduplicate(
        &mut self,
        at: Clock,
        prefix: KeyPrefix,
        key: EndpointId,
        actions: &mut Vec<PeerAction>,
    )
        requires
            old(self).wf(),
            prefix == endpoint_prefix(key),
        ensures
            final(self).wf(),
            ({
                let out = old(self)@.deduplicated(at, key);
                final(self)@ == out.registry && extends(old(actions)@, final(actions)@, out.actions)
            }),
    {
        if !self.is_contested(&prefix) {
            return;
        }
        let winner = self.kept_link(&prefix, &key);
        let ghost start = self@.peers;
        let ghost mine = self@.my_endpoint@;
        let ghost f = dedup_of(start, at, prefix, mine, key@);
        let mut i: usize = 0;
        while i < self.peers.len()
            invariant
                i <= self.peers@.len(),
                start == old(self)@.peers,
                f == dedup_of(start, at, prefix, mine, key@),
                self.peers@.len() == start.len(),
                self.verified_prefixes == old(self).verified_prefixes,
                self.my_prefix == old(self).my_prefix,
                self.my_endpoint == old(self).my_endpoint,
                self.l2cap_policy == old(self).l2cap_policy,
                match winner {
                    Some(k) => kept(start, prefix, mine, key@, k as int),
                    None => forall|j: int|
                        !(#[trigger] keeper(start, prefix, mine, key@, j)),
                },
                forall|j: int| 0 <= j < i ==> (#[trigger] self.peers@[j])@ == f(j, start[j]).peer,
                forall|j: int| i <= j < start.len() ==> (#[trigger] self.peers@[j])@ == start[j],
                extends(old(actions)@, actions@, sweep_actions(start, f, i as nat)),
            decreases self.peers@.len() - i,
        {
            let is_winner = match winner {
                Some(k) => k == i,
                None => false,
            };
            proof {
                let n = i as int;
                assert(is_winner == kept(start, prefix, mine, key@, n)) by {
                    if kept(start, prefix, mine, key@, n) {
                        assert(keeper(start, prefix, mine, key@, n));
                        if let Some(k) = winner {
                            assert(keeper(start, prefix, mine, key@, k as int));
                        }
                    }
                }
                assert(self@.peers[n] == start[n]);
            }
            if !is_winner && self.is_candidate(i, &prefix) {
                self.peers[i].drain_to_draining(at, DisconnectReason::DedupLoser, actions);
            }
            i = i + 1;
        }
        proof {
            assert(self@.peers =~= swept(start, f));
            lemma_distinct_map(start, self@.peers);
        }
    }

    fn start_upgrades(&mut self, prefix: KeyPrefix, actions: &mut Vec<PeerAction>)
        requires
            old(self).wf(),
        ensures
            final(self).wf(),
            ({
                let out = old(self)@.upgrades_started(prefix);
                final(self)@ == out.registry && extends(old(actions)@, final(actions)@, out.actions)
            }),
    {
        if !matches!(self.l2cap_policy, L2capPolicy::PreferL2cap) {
            return;
        }
        let ghost start = self@.peers;
        let mut i: usize = 0;
        while i < self.peers.len()
            invariant
                i <= self.peers@.len(),
                start == old(self)@.peers,
                self.peers@.len() == start.len(),
                self.verified_prefixes == old(self).verified_prefixes,
                self.my_prefix == old(self).my_prefix,
                self.my_endpoint == old(self).my_endpoint,
                self.l2cap_policy == old(self).l2cap_policy,
                forall|j: int|
                    0 <= j < i ==> (#[trigger] self.peers@[j])@ == start[j].upgrade_started(
                        prefix,
                    ).peer,
                forall|j: int| i <= j < start.len() ==> (#[trigger] self.peers@[j])@ == start[j],
                extends(old(actions)@, actions@, sweep_actions(start, upgrade_of(prefix), i as nat)),
            decreases self.peers@.len() - i,
        {
            self.peers[i].start_upgrade(&prefix, actions);
            i = i + 1;
        }
        proof {
            assert(self@.peers =~= swept(start, upgrade_of(prefix)));
            lemma_distinct_map(start, self@.peers);
        }
    }

    fn handle_verified_endpoint(
        &mut self,
        at: Clock,
        endpoint_id: EndpointId,
        actions: &mut Vec<PeerAction>,
    )
        requires
            old(self).wf(),
        ensures
            final(self).wf(),
            ({
                let out = old(self)@.verified_endpoint(at, endpoint_id);
                final(self)@ == out.registry && extends(old(actions)@, final(actions)@, out.actions)
            }),
    {
        let prefix = prefix_from_endpoint(&endpoint_id);
        self.record_key(at, prefix, endpoint_id);
        self.cancel_dials(at, prefix, actions);
        self.deduplicate(at, prefix, endpoint_id, actions);
        self.start_upgrades(prefix, actions);
    }

    /// Carries out a command and returns the actions that follow from it.
    ///
    /// What happens is [`RegistryView::step`]; it leaves open only how the
    /// channels of a data pipe answer, and only for the commands that use one.
    pub fn handle(&mut self, cmd: PeerCommand, at: Clock) -> (actions: Vec<PeerAction>)
        requires
            old(self).wf(),
            old(self)@.can_handle(cmd, at),
        ensures
            final(self).wf(),
            exists|a: ChannelAnswers|
                {
                    let out = #[trigger] old(self)@.step(cmd, at, a);
                    final(self)@ == out.registry && actions_view(actions@) == out.actions
                },
    {
        let ghost before = self@;
        let ghost any = ChannelAnswers {
            inbound_taken: 0,
            outbound_taken: 0,
            outbound_closed: false,
            direct: crate::channel::TrySend::Full,
        };
        let mut actions: Vec<PeerAction> = Vec::new();
        assert(actions_view(actions@) =~= Seq::empty());
        let ghost empty = actions@;
        match cmd {
            PeerCommand::Advertised { prefix, device, .. } => {
                self.handle_advertised(at, prefix, device, &mut actions);
            },
            PeerCommand::SendDatagram { device_id, tx_gen, datagram, waker } => {
                let ghost id = device_id@;
                let ghost send = PendingSendView { tx_gen, datagram: datagram@, waker };
                self.handle_send_datagram(at, device_id, tx_gen, datagram, waker, &mut actions);
                proof {
                    let a = choose|a: ChannelAnswers|
                        {
                            let out = #[trigger] before.sent(at, id, send, a);
                            self@ == out.registry && extends(empty, actions@, out.actions)
                        };
                    assert(before.step(cmd, at, a) == before.sent(at, id, send, a));
                    assert(actions_view(actions@) =~= before.step(cmd, at, a).actions);
                }
                return actions;
            },
            PeerCommand::ConnectSucceeded { device_id, channel } => {
                self.handle_connect_succeeded(at, device_id, channel, &mut actions);
            },
            PeerCommand::ConnectFailed { device_id, error } => {
                self.handle_connect_failed(at, device_id, error.as_str(), &mut actions);
            },
            PeerCommand::InboundGattFragment { device_id, bytes, .. } => {
                let ghost id = device_id@;
                let ghost fragment = bytes@;
                self.handle_inbound_gatt_fragment(at, device_id, bytes, &mut actions);
                proof {
                    let a = choose|a: ChannelAnswers|
                        {
                            let out = #[trigger] before.fragment_received(at, id, fragment, a);
                            self@ == out.registry && extends(empty, actions@, out.actions)
                        };
                    assert(before.step(cmd, at, a) == before.fragment_received(at, id, fragment, a));
                    assert(actions_view(actions@) =~= before.step(cmd, at, a).actions);
                }
                return actions;
            },
            PeerCommand::CentralDisconnected { device_id, cause } => {
                self.handle_central_disconnected(at, device_id, cause, &mut actions);
            },
            PeerCommand::AdapterStateChanged { powered } => {
                self.handle_adapter_state_changed(at, powered, &mut actions);
            },
            PeerCommand::RestoreFromAdapter { devices } => {
                self.handle_restore_from_adapter(at, devices, &mut actions);
            },
            PeerCommand::Tick(tick_now) => {
                self.handle_tick(tick_now, &mut actions);
            },
            PeerCommand::Forget { device_id } => {
                self.handle_forget(at, device_id, &mut actions);
            },
            PeerCommand::Stalled { device_id } => {
                self.handle_stalled(at, device_id, &mut actions);
            },
            PeerCommand::Shutdown => {
                self.handle_shutdown(&mut actions);
            },
            PeerCommand::DataPipeReady { device_id, handles, .. } => {
                let ghost id = device_id@;
                let ghost pipe = handles@;
                self.handle_data_pipe_ready(device_id, handles);
                proof {
                    let a = choose|a: ChannelAnswers|
                        self@ == (#[trigger] before.pipe_ready(id, pipe, a)).registry;
                    assert(before.step(cmd, at, a) == before.pipe_ready(id, pipe, a));
                    assert(actions_view(actions@) =~= before.step(cmd, at, a).actions);
                }
                return actions;
            },
            PeerCommand::OpenL2capSucceeded { device_id, channel } => {
                self.handle_open_l2cap_succeeded(at, device_id, channel, &mut actions);
            },
            PeerCommand::OpenL2capFailed { device_id, error } => {
                self.handle_open_l2cap_failed(at, device_id, error.as_str(), &mut actions);
            },
            PeerCommand::InboundL2capChannel { device_id, channel } => {
                self.handle_inbound_l2cap_channel(at, device_id, channel, &mut actions);
            },
            PeerCommand::CentralConnected { .. } => {
                // The link layer came up. What counts is ConnectSucceeded, which
                // comes once the characteristics are subscribed.
            },
            PeerCommand::ProtocolVersionMismatch { device_id, got, want } => {
                self.handle_protocol_version_mismatch(at, device_id, got, want, &mut actions);
            },
            PeerCommand::VerifiedEndpoint { endpoint_id } => {
                self.handle_verified_endpoint(at, endpoint_id, &mut actions);
            },
            PeerCommand::PeripheralClientSubscribed { client_id, .. } => {
                self.handle_peripheral_client_subscribed(at, client_id, &mut actions);
            },
            PeerCommand::L2capHandoverTimeout { device_id } => {
                self.handle_l2cap_handover_timeout(device_id, &mut actions);
            },
        }
        proof {
            let out = before.step(cmd, at, any);
            assert(self@ == out.registry);
            assert(actions_view(actions@) =~= out.actions);
        }
        actions
    }

    /// Whether [`handle`](Registry::handle) can carry the command out: no
    /// counter runs past its highest value, no deadline past the end of the
    /// clock.
    pub fn can_handle(&self, cmd: &PeerCommand, at: Clock) -> (r: bool)
        requires
            self.wf(),
        ensures
            r == self@.can_handle(*cmd, at),
    {
        match cmd {
            PeerCommand::Advertised { prefix, device, .. } => match self.peer(&device.id) {
                Some(entry) => entry.can_advertise(
                    at.now,
                    *prefix,
                    self.has_verified_live(prefix),
                    self.must_defer(prefix),
                ),
                None => true,
            },
            PeerCommand::ConnectSucceeded { device_id, .. } => match self.peer(device_id) {
                Some(entry) => entry.can_connect(),
                None => true,
            },
            PeerCommand::ConnectFailed { device_id, .. } => match self.peer(device_id) {
                Some(entry) => entry.can_fail(at.now),
                None => true,
            },
            PeerCommand::InboundGattFragment { device_id, .. } => match self.peer(device_id) {
                Some(entry) => entry.can_hear(),
                None => true,
            },
            PeerCommand::OpenL2capSucceeded { device_id, .. } => match self.peer(device_id) {
                Some(entry) => entry.can_open_l2cap(),
                None => true,
            },
            PeerCommand::OpenL2capFailed { device_id, .. } => match self.peer(device_id) {
                Some(entry) => entry.can_open_l2cap(),
                None => true,
            },
            PeerCommand::InboundL2capChannel { device_id, .. } => match self.peer(device_id) {
                Some(entry) => entry.can_accept_l2cap(),
                None => true,
            },
            PeerCommand::PeripheralClientSubscribed { client_id, .. } => match self.peer(client_id) {
                Some(entry) => entry.can_subscribe(),
                None => true,
            },
            _ => true,
        }
    }

    /// The names of the known devices, in the order in which they came in.
    pub fn devices(&self) -> (names: Vec<DeviceId>)
        ensures
            names@.len() == self@.peers.len(),
            forall|i: int|
                0 <= i < names@.len() ==> (#[trigger] names@[i])@ == self@.peers[i].device_id,
    {
        let mut names: Vec<DeviceId> = Vec::new();
        let mut i: usize = 0;
        while i < self.peers.len()
            invariant
                i <= self.peers@.len(),
                names@.len() == i,
                forall|j: int|
                    0 <= j < i ==> (#[trigger] names@[j])@ == self@.peers[j].device_id,
            decreases self.peers@.len() - i,
        {
            names.push(self.peers[i].device_id.clone());
            i = i + 1;
        }
        names
    }

    /// A summary of every peer, for readers outside the actor.
    pub fn snapshot(&self) -> (maps: SnapshotMaps)
        requires
            self.wf(),
        ensures
            maps@ == summaries(self@.peers),
            maps.wf(),
    {
        let mut peer_states: Vec<(DeviceId, PeerStateSummary)> = Vec::new();
        let mut i: usize = 0;
        while i < self.peers.len()
            invariant
                i <= self.peers@.len(),
                peer_states@.len() == i,
                forall|j: int|
                    0 <= j < i ==> (#[trigger] peer_states@[j]).0@ == self@.peers[j].device_id
                        && peer_states@[j].1 == self@.peers[j].summary(),
            decreases self.peers@.len() - i,
        {
            let entry = &self.peers[i];
            assert(entry@ == self@.peers[i as int]);
            let connect_path = match entry.phase {
                PeerPhase::Connected { channel, .. } => Some(channel.path),
                _ => None,
            };
            peer_states.push(
                (
                    entry.device_id.clone(),
                    PeerStateSummary {
                        phase_kind: PhaseKind::from(&entry.phase),
                        tx_gen: entry.tx_gen,
                        consecutive_failures: entry.consecutive_failures,
                        connect_path,
                        role: entry.role,
                        l2cap_upgrade_failed: entry.l2cap_upgrade_failed,
                        verified_endpoint: entry.verified_endpoint,
                    },
                ),
            );
            i = i + 1;
        }
        let maps = SnapshotMaps { peer_states };
        proof {
            assert(maps@ =~= summaries(self@.peers));
            assert forall|a: int, b: int| 0 <= a < b < maps@.len() implies (#[trigger] maps@[a]).0
                != (#[trigger] maps@[b]).0 by {
                assert(self@.peers[a].device_id != self@.peers[b].device_id);
            }
        }
        maps
    }
}

/// The name of a phase.
#[derive(Clone, Copy, PartialEq, Eq, Structural, Debug)]
pub enum PhaseKind {
    Unknown,
    Discovered,
    PendingDial,
    Connecting,
    Handshaking,
    Connected,
    Draining,
    Reconnecting,
    Dead,
    Restoring,
}

impl PhaseKind {
    pub open spec fn of(phase: PeerPhase) -> PhaseKind {
        match phase {
            PeerPhase::Unknown => PhaseKind::Unknown,
            PeerPhase::Discovered { .. } => PhaseKind::Discovered,
            PeerPhase::PendingDial { .. } => PhaseKind::PendingDial,
            PeerPhase::Connecting { .. } => PhaseKind::Connecting,
            PeerPhase::Handshaking { .. } => PhaseKind::Handshaking,
            PeerPhase::Connected { .. } => PhaseKind::Connected,
            PeerPhase::Draining { .. } => PhaseKind::Draining,
            PeerPhase::Reconnecting { .. } => PhaseKind::Reconnecting,
            PeerPhase::Dead { .. } => PhaseKind::Dead,
            PeerPhase::Restoring { .. } => PhaseKind::Restoring,
        }
    }
}

impl From<&PeerPhase> for PhaseKind {
    fn from(phase: &PeerPhase) -> (kind: Self) {
        match phase {
            PeerPhase::Unknown => PhaseKind::Unknown,
            PeerPhase::Discovered { .. } => PhaseKind::Discovered,
            PeerPhase::PendingDial { .. } => PhaseKind::PendingDial,
            PeerPhase::Connecting { .. } => PhaseKind::Connecting,
            PeerPhase::Handshaking { .. } => PhaseKind::Handshaking,
            PeerPhase::Connected { .. } => PhaseKind::Connected,
            PeerPhase::Draining { .. } => PhaseKind::Draining,
            PeerPhase::Reconnecting { .. } => PhaseKind::Reconnecting,
            PeerPhase::Dead { .. } => PhaseKind::Dead,
            PeerPhase::Restoring { .. } => PhaseKind::Restoring,
        }
    }
}

impl vstd::std_specs::convert::FromSpecImpl<&PeerPhase> for PhaseKind {
    open spec fn obeys_from_spec() -> bool {
        true
    }

    open spec fn from_spec(phase: &PeerPhase) -> Self {
        PhaseKind::of(*phase)
    }
}

/// What readers outside the actor see of a peer.
#[derive(Clone, Copy, Debug)]
pub struct PeerStateSummary {
    pub phase_kind: PhaseKind,
    pub tx_gen: u64,
    pub consecutive_failures: u32,
    pub connect_path: Option<ConnectPath>,
    pub role: ConnectRole,
    pub l2cap_upgrade_failed: bool,
    pub verified_endpoint: Option<EndpointId>,
}

impl PeerView {
    pub open spec fn summary(self) -> PeerStateSummary {
        PeerStateSummary {
            phase_kind: PhaseKind::of(self.phase),
            tx_gen: self.tx_gen,
            consecutive_failures: self.consecutive_failures,
            connect_path: match self.phase {
                PeerPhase::Connected { channel, .. } => Some(channel.path),
                _ => None,
            },
            role: self.role,
            l2cap_upgrade_failed: self.l2cap_upgrade_failed,
            verified_endpoint: self.verified_endpoint,
        }
    }
}

pub open spec fn summaries(peers: Seq<PeerView>) -> Seq<(Seq<char>, PeerStateSummary)> {
    Seq::new(peers.len(), |i: int| (peers[i].device_id, peers[i].summary()))
}

/// A summary of every peer at one moment.
#[derive(Debug)]
pub struct SnapshotMaps {
    peer_states: Vec<(DeviceId, PeerStateSummary)>,
}

impl View for SnapshotMaps {
    type V = Seq<(Seq<char>, PeerStateSummary)>;

    closed spec fn view(&self) -> Seq<(Seq<char>, PeerStateSummary)> {
        Seq::new(
            self.peer_states@.len(),
            |i: int| (self.peer_states@[i].0@, self.peer_states@[i].1),
        )
    }
}

/// The summary of a device in a snapshot.
pub open spec fn summary_in(
    snapshot: Seq<(Seq<char>, PeerStateSummary)>,
    id: Seq<char>,
) -> Option<PeerStateSummary> {
    if exists|i: int| 0 <= i < snapshot.len() && (#[trigger] snapshot[i]).0 == id {
        let i = choose|i: int| 0 <= i < snapshot.len() && (#[trigger] snapshot[i]).0 == id;
        Some(snapshot[i].1)
    } else {
        None
    }
}

impl SnapshotMaps {
    /// No device name occurs twice.
    pub open spec fn wf(self) -> bool {
        forall|i: int, j: int|
            0 <= i < j < self@.len() ==> (#[trigger] self@[i]).0 != (#[trigger] self@[j]).0
    }

    /// A snapshot of no peers.
    pub fn new() -> (maps: Self)
        ensures
            maps@ == Seq::<(Seq<char>, PeerStateSummary)>::empty(),
            maps.wf(),
    {
        let maps = SnapshotMaps { peer_states: Vec::new() };
        assert(maps@ =~= Seq::<(Seq<char>, PeerStateSummary)>::empty());
        maps
    }

    pub fn len(&self) -> (n: usize)
        ensures
            n == self@.len(),
    {
        self.peer_states.len()
    }

    /// The device at a place in the order, with its summary.
    pub fn at(&self, i: usize) -> (r: (&DeviceId, &PeerStateSummary))
        requires
            i < self@.len(),
        ensures
            self@[i as int] == (r.0@, *r.1),
    {
        (&self.peer_states[i].0, &self.peer_states[i].1)
    }

    /// The summary of a device.
    pub fn get(&self, device_id: &DeviceId) -> (r: Option<&PeerStateSummary>)
        requires
            self.wf(),
        ensures
            match r {
                Some(summary) => summary_in(self@, device_id@) == Some(*summary),
                None => summary_in(self@, device_id@) is None,
            },
    {
        let mut i: usize = 0;
        while i < self.peer_states.len()
            invariant
                self.wf(),
                i <= self.peer_states@.len(),
                forall|j: int| 0 <= j < i ==> (#[trigger] self@[j]).0 != device_id@,
            decreases self.peer_states@.len() - i,
        {
            if self.peer_states[i].0.same(device_id) {
                proof {
                    assert(self@[i as int].0 == device_id@);
                    let k = choose|k: int| 0 <= k < self@.len() && (#[trigger] self@[k]).0 == device_id@;
                    if k < i {
                        assert(self@[k].0 != self@[i as int].0);
                    } else if i < k {
                        assert(self@[i as int].0 != self@[k].0);
                    }
                }
                return Some(&self.peer_states[i].1);
            }
            assert(self@[i as int].0 != device_id@);
            i = i + 1;
        }
        None
    }
}

impl Registry {
    /// A registry with L2CAP off and a fixed key.
    pub fn new_for_test() -> (r: Self)
        ensures
            r.wf(),
            r@.peers == Seq::<PeerView>::empty(),
            r@.verified == Map::<Seq<u8>, Seq<u8>>::empty(),
            r@.l2cap_policy is Disabled,
            r@.my_endpoint@ == public_key(Seq::new(32, |i: int| 0u8)),
    {
        Registry::new_for_test_with_policy(L2capPolicy::Disabled)
    }

    /// A registry with the given policy and a fixed key.
    pub fn new_for_test_with_policy(l2cap_policy: L2capPolicy) -> (r: Self)
        ensures
            r.wf(),
            r@.peers == Seq::<PeerView>::empty(),
            r@.verified == Map::<Seq<u8>, Seq<u8>>::empty(),
            r@.l2cap_policy == l2cap_policy,
            r@.my_endpoint@ == public_key(Seq::new(32, |i: int| 0u8)),
    {
        let secret: [u8; 32] = [0; 32];
        assert(secret@ =~= Seq::new(32, |i: int| 0u8));
        Registry::new(l2cap_policy, endpoint_of_secret(&secret))
    }

    /// A registry with L2CAP off and the given key.
    pub fn new_for_test_with_endpoint(endpoint: EndpointId) -> (r: Self)
        ensures
            r.wf(),
            r@ == (RegistryView {
                peers: Seq::empty(),
                l2cap_policy: L2capPolicy::Disabled,
                verified: Map::empty(),
                my_endpoint: endpoint,
            }),
    {
        Registry::new(L2capPolicy::Disabled, endpoint)
    }

    /// A registry with the given policy and key.
    pub fn new_for_test_with_policy_and_endpoint(l2cap_policy: L2capPolicy, endpoint: EndpointId) -> (r:
        Self)
        ensures
            r.wf(),
            r@ == (RegistryView {
                peers: Seq::empty(),
                l2cap_policy,
                verified: Map::empty(),
                my_endpoint: endpoint,
            }),
    {
        Registry::new(l2cap_policy, endpoint)
    }

    /// The key that a handshake has proved for a prefix.
    pub fn verified_prefix(&self, prefix: &KeyPrefix) -> (key: Option<EndpointId>)
        requires
            self.wf(),
        ensures
            match key {
                Some(k) => self@.verified.contains_key(prefix@) && self@.verified[prefix@] == k@,
                None => !self@.verified.contains_key(prefix@),
            },
    {
        match self.verified_prefixes.get(prefix) {
            Some(key) => Some(*key),
            None => None,
        }
    }

    /// Every peer, in the order in which they came in.
    pub fn peer_iter_for_test(&self) -> (peers: &[PeerEntry])
        ensures
            Seq::new(peers@.len(), |i: int| peers@[i]@) == self@.peers,
    {
        self.peers.as_slice()
    }
}

} // verus!
