//! What happens to all peers at once: the adapter goes off and on, links are
//! handed back, the node shuts down, and a peer proves its key.

use vstd::prelude::*;

use crate::bytes::smaller_at;
use crate::dedup::the_higher_key_is_the_central;
use crate::keys::endpoint_prefix;
use crate::lifecycle::{ChannelAnswers, Step};
use crate::link_laws::{lemma_refusals, refusals, remembered};
use crate::peer::{
    ActionView, BleDevice, DisconnectReason, EndpointId, ErrorKind, PeerCommand, PeerPhase,
    PeerView,
};
use crate::peer_laws::lemma_prefix_of_key;
use crate::registry::{
    cancel_of, candidate, contested, dedup_of, keeper, kept, known, lemma_place, place,
    shutdown_of, sweep_actions, upgrade_of, RegistryView,
};
use crate::time::Clock;

verus! {

/// The first `n` lists of actions, one after the other.
pub open spec fn gathered(lists: spec_fn(int) -> Seq<ActionView>, n: nat) -> Seq<ActionView>
    decreases n,
{
    if n == 0 {
        seq![]
    } else {
        gathered(lists, (n - 1) as nat) + lists(n - 1)
    }
}

proof fn lemma_gathered(
    peers: Seq<PeerView>,
    f: spec_fn(int, PeerView) -> Step,
    lists: spec_fn(int) -> Seq<ActionView>,
    n: nat,
)
    requires
        n <= peers.len(),
        forall|i: int| 0 <= i < n ==> f(i, #[trigger] peers[i]).actions == lists(i),
    ensures
        sweep_actions(peers, f, n) == gathered(lists, n),
    decreases n,
{
    if n > 0 {
        lemma_gathered(peers, f, lists, (n - 1) as nat);
        assert(f(n - 1, peers[n - 1]).actions == lists(n - 1));
    }
}

proof fn lemma_gathered_nothing(lists: spec_fn(int) -> Seq<ActionView>, n: nat)
    requires
        forall|i: int| 0 <= i < n ==> (#[trigger] lists(i)).len() == 0,
    ensures
        gathered(lists, n).len() == 0,
    decreases n,
{
    if n > 0 {
        lemma_gathered_nothing(lists, (n - 1) as nat);
        assert(lists(n - 1).len() == 0);
    }
}

/// When the adapter goes off, every peer waits to be restored and what waited to
/// be sent to it is dropped; nothing is asked for. When it comes on, every peer
/// that waits to be restored is to be dialled at once, from the first attempt,
/// and the server, the advertising and, where L2CAP is preferred, the listener
/// are set up again. No peer comes or goes, and nothing else changes.
pub proof fn the_adapter_takes_all_links_with_it(
    r: RegistryView,
    cmd: PeerCommand,
    at: Clock,
    a: ChannelAnswers,
    on: bool,
)
    requires
        cmd matches PeerCommand::AdapterStateChanged { powered } && powered == on,
    ensures
        ({
            let o = r.step(cmd, at, a);
            &&& o.registry == RegistryView { peers: o.registry.peers, ..r }
            &&& o.registry.peers.len() == r.peers.len()
            &&& forall|i: int|
                0 <= i < r.peers.len() ==> #[trigger] o.registry.peers[i] == {
                    let p = r.peers[i];
                    if !on {
                        PeerView {
                            phase: PeerPhase::Restoring { since: at.now },
                            pending_sends: seq![],
                            ..p
                        }
                    } else if p.phase is Restoring {
                        PeerView {
                            phase: PeerPhase::Reconnecting {
                                attempt: 0,
                                next_at: at.now,
                                reason: DisconnectReason::AdapterOff,
                            },
                            ..p
                        }
                    } else {
                        p
                    }
                }
            &&& !on ==> o.actions.len() == 0
            &&& on && r.l2cap_policy is PreferL2cap ==> o.actions == seq![
                ActionView::RebuildGattServer,
                ActionView::RestartAdvertising,
                ActionView::RestartL2capListener,
            ]
            &&& on && !(r.l2cap_policy is PreferL2cap) ==> o.actions == seq![
                ActionView::RebuildGattServer,
                ActionView::RestartAdvertising,
            ]
        }),
{
}

/// The refusals of what waits for each peer.
pub open spec fn all_refused(r: RegistryView) -> spec_fn(int) -> Seq<ActionView> {
    |i: int| refusals(r.peers[i].pending_sends, ErrorKind::ConnectionAborted)
}

/// A shutdown refuses every send that waits, peer by peer and in order. Nothing
/// else changes.
#[verifier::rlimit(30)]
pub proof fn shutdown_answers_every_send(
    r: RegistryView,
    cmd: PeerCommand,
    at: Clock,
    a: ChannelAnswers,
)
    requires
        cmd is Shutdown,
    ensures
        ({
            let o = r.step(cmd, at, a);
            &&& o.registry == RegistryView { peers: o.registry.peers, ..r }
            &&& o.registry.peers.len() == r.peers.len()
            &&& forall|i: int|
                0 <= i < r.peers.len() ==> #[trigger] o.registry.peers[i] == (PeerView {
                    pending_sends: seq![],
                    ..r.peers[i]
                })
            &&& o.actions == gathered(all_refused(r), r.peers.len())
        }),
{
    let lists = all_refused(r);
    assert forall|i: int| 0 <= i < r.peers.len() implies shutdown_of()(
        i,
        #[trigger] r.peers[i],
    ).actions == lists(i) by {
        lemma_refusals(r.peers[i].pending_sends, ErrorKind::ConnectionAborted);
    }
    lemma_gathered(r.peers, shutdown_of(), lists, r.peers.len());
}

/// One of the devices has this name.
pub open spec fn listed(devices: Seq<BleDevice>, id: Seq<char>) -> bool {
    exists|j: int| 0 <= j < devices.len() && (#[trigger] devices[j]).id@ == id
}

/// A report for each of the first `n` devices that is not known, in order.
pub open spec fn strangers(r: RegistryView, devices: Seq<BleDevice>, n: nat) -> Seq<ActionView>
    decreases n,
{
    if n == 0 {
        seq![]
    } else {
        let id = devices[n - 1].id@;
        strangers(r, devices, (n - 1) as nat) + if r.peer(id) is None {
            seq![ActionView::EmitMetric("restore_unknown_device="@ + id)]
        } else {
            seq![]
        }
    }
}

/// What becomes of a peer whose link is handed back.
pub open spec fn handed_back(p: PeerView, at: Clock) -> PeerView {
    if p.phase is Connected || p.phase is Handshaking {
        p
    } else {
        PeerView { phase: PeerPhase::Restoring { since: at.now }, ..p }
    }
}

proof fn lemma_listed(devices: Seq<BleDevice>, n: int, id: Seq<char>)
    requires
        0 < n <= devices.len(),
    ensures
        listed(devices.take(n), id) <==> listed(devices.take(n - 1), id) || devices[n - 1].id@ == id,
{
    let now = devices.take(n);
    let before = devices.take(n - 1);
    if listed(now, id) {
        let j = choose|j: int| 0 <= j < now.len() && (#[trigger] now[j]).id@ == id;
        if j < n - 1 {
            assert(before[j].id@ == id);
        }
    }
    if listed(before, id) {
        let j = choose|j: int| 0 <= j < before.len() && (#[trigger] before[j]).id@ == id;
        assert(now[j].id@ == id);
    }
    if devices[n - 1].id@ == id {
        assert(now[n - 1].id@ == id);
    }
}

proof fn lemma_handed_back(r: RegistryView, at: Clock, devices: Seq<BleDevice>, n: nat)
    requires
        r.wf(),
        n <= devices.len(),
    ensures
        ({
            let o = r.restored(at, devices, n);
            &&& o.registry == RegistryView { peers: o.registry.peers, ..r }
            &&& o.registry.peers.len() == r.peers.len()
            &&& forall|i: int|
                0 <= i < r.peers.len() ==> #[trigger] o.registry.peers[i] == if listed(
                    devices.take(n as int),
                    r.peers[i].device_id,
                ) {
                    handed_back(r.peers[i], at)
                } else {
                    r.peers[i]
                }
            &&& o.actions == strangers(r, devices, n)
        }),
    decreases n,
{
    if n > 0 {
        lemma_handed_back(r, at, devices, (n - 1) as nat);
        let before = r.restored(at, devices, (n - 1) as nat).registry;
        let id = devices[n - 1].id@;
        let o = r.restored(at, devices, n);
        assert forall|i: int, j: int| 0 <= i < j < before.peers.len() implies (
        #[trigger] before.peers[i]).device_id != (#[trigger] before.peers[j]).device_id by {
            assert(r.peers[i].device_id != r.peers[j].device_id);
        }
        if known(r.peers, id) {
            let k = place(r.peers, id);
            assert(before.peers[k].device_id == id);
            lemma_place(before.peers, id, k);
        } else if known(before.peers, id) {
            let k = place(before.peers, id);
            assert(r.peers[k].device_id == id);
        }
        assert forall|i: int| 0 <= i < r.peers.len() implies #[trigger] o.registry.peers[i]
            == if listed(devices.take(n as int), r.peers[i].device_id) {
            handed_back(r.peers[i], at)
        } else {
            r.peers[i]
        } by {
            lemma_listed(devices, n as int, r.peers[i].device_id);
            assert(before.peers[i] == before.peers[i]);
            if r.peers[i].device_id == id {
                lemma_place(before.peers, id, i);
            }
        }
    }
}

/// Links that the platform hands back from an earlier run wait to be restored,
/// unless the peer has a link already; a device that is not known is reported.
/// Peers that are not in the list are left alone.
pub proof fn links_are_handed_back(
    r: RegistryView,
    cmd: PeerCommand,
    at: Clock,
    a: ChannelAnswers,
    devices: Seq<BleDevice>,
)
    requires
        r.wf(),
        cmd matches PeerCommand::RestoreFromAdapter { devices: list } && list@ == devices,
    ensures
        ({
            let o = r.step(cmd, at, a);
            &&& o.registry == RegistryView { peers: o.registry.peers, ..r }
            &&& o.registry.peers.len() == r.peers.len()
            &&& forall|i: int|
                0 <= i < r.peers.len() ==> #[trigger] o.registry.peers[i] == if listed(
                    devices,
                    r.peers[i].device_id,
                ) {
                    handed_back(r.peers[i], at)
                } else {
                    r.peers[i]
                }
            &&& o.actions == strangers(r, devices, devices.len())
        }),
{
    lemma_handed_back(r, at, devices, devices.len());
    assert(devices.take(devices.len() as int) =~= devices);
}

/// The peer is known under the first twelve bytes of the key.
pub open spec fn under(p: PeerView, key: EndpointId) -> bool {
    p.prefix matches Some(prefix) && prefix@ == key@.take(12)
}

/// A dial of the peer is held back for a peer with this key.
pub open spec fn held_back(p: PeerView, key: EndpointId) -> bool {
    p.phase matches PeerPhase::PendingDial { prefix, .. } && prefix@ == key@.take(12)
}

/// A live link leads to the peer with this key.
pub open spec fn live(p: PeerView, key: EndpointId) -> bool {
    under(p, key) && p.phase is Connected
}

/// In this link the endpoint with the higher key is the central.
pub open spec fn well_dialled(p: PeerView, mine: EndpointId, key: EndpointId) -> bool {
    if p.role is Central {
        exists|k: int| #[trigger] smaller_at(key@, mine@, k)
    } else {
        exists|k: int| #[trigger] smaller_at(mine@, key@, k)
    }
}

/// The link at `i` is kept: it is the only one, or the first in which the
/// endpoint with the higher key is the central.
pub open spec fn stays(r: RegistryView, key: EndpointId, i: int) -> bool {
    ||| forall|j: int| 0 <= j < r.peers.len() && live(#[trigger] r.peers[j], key) ==> j == i
    ||| well_dialled(r.peers[i], r.my_endpoint, key) && forall|j: int|
        0 <= j < i && live(#[trigger] r.peers[j], key) ==> !well_dialled(
            r.peers[j],
            r.my_endpoint,
            key,
        )
}

/// The key is on record, with the time, where the peer is known under it.
pub open spec fn with_key(p: PeerView, key: EndpointId, at: Clock) -> PeerView {
    if under(p, key) {
        PeerView { verified_endpoint: Some(key), verified_at: Some(at.now), ..p }
    } else {
        p
    }
}

/// The link is given up in favour of another.
pub open spec fn given_up(p: PeerView, at: Clock) -> PeerView {
    PeerView {
        phase: PeerPhase::Draining { since: at.now, reason: DisconnectReason::DedupLoser },
        pipe: None,
        pending_sends: seq![],
        ..p
    }
}

/// The peer is to move to L2CAP: that is preferred, it is connected over GATT,
/// and it is not moving and has not failed to.
pub open spec fn moves(r: RegistryView, p: PeerView) -> bool {
    &&& r.l2cap_policy is PreferL2cap
    &&& !p.l2cap_upgrade_failed
    &&& p.phase matches PeerPhase::Connected { channel, upgrading, .. } && channel.path is Gatt
        && !upgrading
}

/// What becomes of the peer at `i`.
pub open spec fn proved(r: RegistryView, key: EndpointId, at: Clock, i: int) -> PeerView {
    let p = r.peers[i];
    if held_back(p, key) || (live(p, key) && !stays(r, key, i)) {
        given_up(with_key(p, key, at), at)
    } else if live(p, key) && moves(r, p) {
        PeerView {
            phase: PeerPhase::Connected {
                since: p.phase->Connected_since,
                channel: p.phase->Connected_channel,
                tx_gen: p.phase->Connected_tx_gen,
                upgrading: true,
            },
            ..with_key(p, key, at)
        }
    } else {
        with_key(p, key, at)
    }
}

proof fn lemma_contested(r: RegistryView, peers: Seq<PeerView>, key: EndpointId)
    requires
        peers.len() == r.peers.len(),
        forall|i: int|
            0 <= i < peers.len() ==> candidate(#[trigger] peers[i], endpoint_prefix(key)) == live(
                r.peers[i],
                key,
            ),
    ensures
        !contested(peers, endpoint_prefix(key)) ==> forall|i: int|
            0 <= i < r.peers.len() && live(#[trigger] r.peers[i], key) ==> stays(r, key, i),
        contested(peers, endpoint_prefix(key)) ==> forall|i: int|
            0 <= i < r.peers.len() && live(#[trigger] r.peers[i], key) ==> exists|j: int|
                0 <= j < r.peers.len() && live(#[trigger] r.peers[j], key) && j != i,
{
    let prefix = endpoint_prefix(key);
    if !contested(peers, prefix) {
        assert forall|i: int| 0 <= i < r.peers.len() && live(#[trigger] r.peers[i], key) implies stays(
            r,
            key,
            i,
        ) by {
            assert forall|j: int|
                0 <= j < r.peers.len() && live(#[trigger] r.peers[j], key) implies j == i by {
                assert(candidate(peers[i], prefix) && candidate(peers[j], prefix));
            }
        }
    } else {
        let (x, y) = choose|x: int, y: int|
            0 <= x < y < peers.len() && candidate(#[trigger] peers[x], prefix) && candidate(
                #[trigger] peers[y],
                prefix,
            );
        assert(live(r.peers[x], key) && live(r.peers[y], key));
    }
}

proof fn lemma_kept(r: RegistryView, peers: Seq<PeerView>, key: EndpointId, i: int)
    requires
        peers.len() == r.peers.len(),
        0 <= i < peers.len(),
        live(r.peers[i], key),
        contested(peers, endpoint_prefix(key)),
        forall|i: int|
            0 <= i < peers.len() ==> candidate(#[trigger] peers[i], endpoint_prefix(key)) == live(
                r.peers[i],
                key,
            ) && peers[i].role == r.peers[i].role,
    ensures
        kept(peers, endpoint_prefix(key), r.my_endpoint@, key@, i) == stays(r, key, i),
{
    let prefix = endpoint_prefix(key);
    let mine = r.my_endpoint@;
    lemma_contested(r, peers, key);
    assert forall|j: int| 0 <= j < peers.len() implies #[trigger] keeper(
        peers,
        prefix,
        mine,
        key@,
        j,
    ) == (live(r.peers[j], key) && well_dialled(r.peers[j], r.my_endpoint, key)) by {
        the_higher_key_is_the_central(peers[j].role, mine, key@);
        assert(candidate(peers[j], prefix) == live(r.peers[j], key));
    }
    assert(keeper(peers, prefix, mine, key@, i) == well_dialled(r.peers[i], r.my_endpoint, key));
    if stays(r, key, i) {
        assert forall|j: int| 0 <= j < i implies !keeper(peers, prefix, mine, key@, j) by {
            assert(keeper(peers, prefix, mine, key@, j) == (live(r.peers[j], key) && well_dialled(
                r.peers[j],
                r.my_endpoint,
                key,
            )));
        }
    }
    if kept(peers, prefix, mine, key@, i) {
        assert forall|j: int| 0 <= j < i && live(#[trigger] r.peers[j], key) implies !well_dialled(
            r.peers[j],
            r.my_endpoint,
            key,
        ) by {
            assert(!keeper(peers, prefix, mine, key@, j));
        }
    }
}

/// What a dial that is given up leads to.
pub open spec fn held_actions(r: RegistryView, key: EndpointId) -> spec_fn(int) -> Seq<ActionView> {
    |i: int|
        if held_back(r.peers[i], key) {
            refusals(r.peers[i].pending_sends, ErrorKind::BrokenPipe)
        } else {
            seq![]
        }
}

/// What a link that is given up leads to.
pub open spec fn lost_actions(r: RegistryView, key: EndpointId, at: Clock) -> spec_fn(int) -> Seq<
    ActionView,
> {
    |i: int|
        if live(r.peers[i], key) && !stays(r, key, i) {
            refusals(r.peers[i].pending_sends, ErrorKind::BrokenPipe) + remembered(
                with_key(r.peers[i], key, at),
                at,
            )
        } else {
            seq![]
        }
}

/// What a link that is to move leads to.
pub open spec fn moved_actions(r: RegistryView, key: EndpointId) -> spec_fn(int) -> Seq<
    ActionView,
> {
    |i: int|
        if live(r.peers[i], key) && stays(r, key, i) && moves(r, r.peers[i]) {
            seq![ActionView::UpgradeToL2cap { device_id: r.peers[i].device_id }]
        } else {
            seq![]
        }
}

/// The peer at `i` once the dials that were held back are given up.
spec fn undialled(r: RegistryView, key: EndpointId, at: Clock, i: int) -> PeerView {
    if held_back(r.peers[i], key) {
        given_up(with_key(r.peers[i], key, at), at)
    } else {
        with_key(r.peers[i], key, at)
    }
}

/// The peer at `i` once the links that lose are given up too.
spec fn unlinked(r: RegistryView, key: EndpointId, at: Clock, i: int) -> PeerView {
    if held_back(r.peers[i], key) || (live(r.peers[i], key) && !stays(r, key, i)) {
        given_up(with_key(r.peers[i], key, at), at)
    } else {
        with_key(r.peers[i], key, at)
    }
}

proof fn lemma_recorded(r: RegistryView, key: EndpointId, at: Clock)
    ensures
        ({
            let r1 = r.key_recorded(at, key);
            &&& r1.peers.len() == r.peers.len()
            &&& r1.l2cap_policy == r.l2cap_policy
            &&& r1.my_endpoint == r.my_endpoint
            &&& r1.verified == r.verified.insert(key@.take(12), key@)
            &&& forall|i: int|
                0 <= i < r.peers.len() ==> #[trigger] r1.peers[i] == with_key(r.peers[i], key, at)
        }),
{
    crate::peer_laws::lemma_prefix_bytes(key);
    let r1 = r.key_recorded(at, key);
    assert forall|i: int| 0 <= i < r.peers.len() implies #[trigger] r1.peers[i] == with_key(
        r.peers[i],
        key,
        at,
    ) by {
        if r.peers[i].prefix is Some {
            lemma_prefix_of_key(key, r.peers[i].prefix->0);
        }
    }
}

proof fn lemma_undialled(r: RegistryView, r1: RegistryView, key: EndpointId, at: Clock)
    requires
        r1.peers.len() == r.peers.len(),
        forall|i: int|
            0 <= i < r.peers.len() ==> #[trigger] r1.peers[i] == with_key(r.peers[i], key, at),
    ensures
        ({
            let o = r1.dials_cancelled(at, endpoint_prefix(key));
            &&& o.registry == RegistryView { peers: o.registry.peers, ..r1 }
            &&& o.registry.peers.len() == r.peers.len()
            &&& forall|i: int|
                0 <= i < r.peers.len() ==> #[trigger] o.registry.peers[i] == undialled(
                    r,
                    key,
                    at,
                    i,
                )
            &&& o.actions == gathered(held_actions(r, key), r.peers.len())
        }),
{
    let prefix = endpoint_prefix(key);
    let f = cancel_of(at, prefix);
    assert forall|i: int| 0 <= i < r.peers.len() implies f(i, #[trigger] r1.peers[i]).peer
        == undialled(r, key, at, i) && f(i, r1.peers[i]).actions == held_actions(r, key)(i) by {
        if r.peers[i].phase is PendingDial {
            lemma_prefix_of_key(key, r.peers[i].phase->PendingDial_prefix);
        }
        lemma_refusals(r.peers[i].pending_sends, ErrorKind::BrokenPipe);
        assert(f(i, r1.peers[i]).actions =~= held_actions(r, key)(i));
    }
    lemma_gathered(r1.peers, f, held_actions(r, key), r.peers.len());
    let o = r1.dials_cancelled(at, prefix);
    assert forall|i: int| 0 <= i < r.peers.len() implies #[trigger] o.registry.peers[i]
        == undialled(r, key, at, i) by {
        assert(f(i, r1.peers[i]).peer == undialled(r, key, at, i));
    }
}

proof fn lemma_unlinked(r: RegistryView, r2: RegistryView, key: EndpointId, at: Clock)
    requires
        r2.my_endpoint == r.my_endpoint,
        r2.peers.len() == r.peers.len(),
        forall|i: int|
            0 <= i < r.peers.len() ==> #[trigger] r2.peers[i] == undialled(r, key, at, i),
    ensures
        ({
            let o = r2.deduplicated(at, key);
            &&& o.registry == RegistryView { peers: o.registry.peers, ..r2 }
            &&& o.registry.peers.len() == r.peers.len()
            &&& forall|i: int|
                0 <= i < r.peers.len() ==> #[trigger] o.registry.peers[i] == unlinked(r, key, at, i)
            &&& o.actions == gathered(lost_actions(r, key, at), r.peers.len())
        }),
{
    let prefix = endpoint_prefix(key);
    let n = r.peers.len();
    let o = r2.deduplicated(at, key);
    let lost = lost_actions(r, key, at);
    assert forall|i: int| 0 <= i < n implies candidate(#[trigger] r2.peers[i], prefix) == live(
        r.peers[i],
        key,
    ) && r2.peers[i].role == r.peers[i].role by {
        if r.peers[i].prefix is Some {
            lemma_prefix_of_key(key, r.peers[i].prefix->0);
        }
    }
    lemma_contested(r, r2.peers, key);
    if contested(r2.peers, prefix) {
        let f = dedup_of(r2.peers, at, prefix, r.my_endpoint@, key@);
        assert forall|i: int| 0 <= i < n implies f(i, #[trigger] r2.peers[i]).peer == unlinked(
            r,
            key,
            at,
            i,
        ) && f(i, r2.peers[i]).actions == lost(i) by {
            if live(r.peers[i], key) {
                lemma_kept(r, r2.peers, key, i);
                lemma_refusals(r.peers[i].pending_sends, ErrorKind::BrokenPipe);
            }
            assert(f(i, r2.peers[i]).actions =~= lost(i));
        }
        lemma_gathered(r2.peers, f, lost, n);
        assert forall|i: int| 0 <= i < n implies #[trigger] o.registry.peers[i] == unlinked(
            r,
            key,
            at,
            i,
        ) by {
            assert(f(i, r2.peers[i]).peer == unlinked(r, key, at, i));
        }
    } else {
        assert forall|i: int| 0 <= i < n implies (#[trigger] lost(i)).len() == 0 by {
            if live(r.peers[i], key) {
                assert(stays(r, key, i));
            }
        }
        lemma_gathered_nothing(lost, n);
        assert(o.actions =~= gathered(lost, n));
        assert forall|i: int| 0 <= i < n implies #[trigger] o.registry.peers[i] == unlinked(
            r,
            key,
            at,
            i,
        ) by {
            if live(r.peers[i], key) {
                assert(stays(r, key, i));
            }
        }
    }
}

proof fn lemma_upgraded(r: RegistryView, r3: RegistryView, key: EndpointId, at: Clock)
    requires
        r3.l2cap_policy == r.l2cap_policy,
        r3.peers.len() == r.peers.len(),
        forall|i: int|
            0 <= i < r.peers.len() ==> #[trigger] r3.peers[i] == unlinked(r, key, at, i),
    ensures
        ({
            let o = r3.upgrades_started(endpoint_prefix(key));
            &&& o.registry == RegistryView { peers: o.registry.peers, ..r3 }
            &&& o.registry.peers.len() == r.peers.len()
            &&& forall|i: int|
                0 <= i < r.peers.len() ==> #[trigger] o.registry.peers[i] == proved(r, key, at, i)
            &&& o.actions == gathered(moved_actions(r, key), r.peers.len())
        }),
{
    let prefix = endpoint_prefix(key);
    let n = r.peers.len();
    let o = r3.upgrades_started(prefix);
    let moved = moved_actions(r, key);
    if r.l2cap_policy is PreferL2cap {
        let f = upgrade_of(prefix);
        assert forall|i: int| 0 <= i < n implies f(i, #[trigger] r3.peers[i]).peer == proved(
            r,
            key,
            at,
            i,
        ) && f(i, r3.peers[i]).actions == moved(i) by {
            if r.peers[i].prefix is Some {
                lemma_prefix_of_key(key, r.peers[i].prefix->0);
            }
            assert(f(i, r3.peers[i]).actions =~= moved(i));
        }
        lemma_gathered(r3.peers, f, moved, n);
        assert forall|i: int| 0 <= i < n implies #[trigger] o.registry.peers[i] == proved(
            r,
            key,
            at,
            i,
        ) by {
            assert(f(i, r3.peers[i]).peer == proved(r, key, at, i));
        }
    } else {
        assert forall|i: int| 0 <= i < n implies (#[trigger] moved(i)).len() == 0 by {}
        lemma_gathered_nothing(moved, n);
        assert(o.actions =~= gathered(moved, n));
    }
}

/// What a proof of a key does. The key is on record under its first twelve
/// bytes, and with every peer known under them, with the time. A dial that is
/// held back for them is given up. Of several live links to the key one stays at
/// most: the first in which the endpoint with the higher key is the central; a
/// single one stays as it is. A link that stays over GATT starts to move to
/// L2CAP where that is preferred. The sends of what is given up are refused, and
/// the links among it are remembered. Other peers are left alone.
#[verifier::rlimit(30)]
pub proof fn proofs_settle_the_links(
    r: RegistryView,
    cmd: PeerCommand,
    at: Clock,
    a: ChannelAnswers,
    key: EndpointId,
)
    requires
        cmd matches PeerCommand::VerifiedEndpoint { endpoint_id } && endpoint_id == key,
    ensures
        ({
            let o = r.step(cmd, at, a);
            let n = r.peers.len();
            &&& o.registry.l2cap_policy == r.l2cap_policy
            &&& o.registry.my_endpoint == r.my_endpoint
            &&& o.registry.verified == r.verified.insert(key@.take(12), key@)
            &&& o.registry.peers.len() == n
            &&& forall|i: int|
                0 <= i < n ==> #[trigger] o.registry.peers[i] == proved(r, key, at, i)
            &&& o.actions == gathered(held_actions(r, key), n) + gathered(
                lost_actions(r, key, at),
                n,
            ) + gathered(moved_actions(r, key), n)
        }),
{
    let prefix = endpoint_prefix(key);
    let r1 = r.key_recorded(at, key);
    let r2 = r1.dials_cancelled(at, prefix).registry;
    let r3 = r2.deduplicated(at, key).registry;
    lemma_recorded(r, key, at);
    lemma_undialled(r, r1, key, at);
    lemma_unlinked(r, r2, key, at);
    lemma_upgraded(r, r3, key, at);
}

/// Only a proof of a key changes which keys are proved, and nothing changes our
/// own key or what is preferred.
pub proof fn only_proofs_change_what_is_proved(
    r: RegistryView,
    cmd: PeerCommand,
    at: Clock,
    a: ChannelAnswers,
)
    requires
        r.wf(),
    ensures
        cmd !is VerifiedEndpoint ==> r.step(cmd, at, a).registry.verified == r.verified,
        r.step(cmd, at, a).registry.my_endpoint == r.my_endpoint,
        r.step(cmd, at, a).registry.l2cap_policy == r.l2cap_policy,
{
    if let PeerCommand::RestoreFromAdapter { devices } = cmd {
        links_are_handed_back(r, cmd, at, a, devices@);
    }
    if let PeerCommand::VerifiedEndpoint { endpoint_id } = cmd {
        proofs_settle_the_links(r, cmd, at, a, endpoint_id);
    }
}

} // verus!
