//! What holds of the registry across commands.

use vstd::prelude::*;

use crate::channel::{PipeView, TrySend};
use crate::keys::endpoint_prefix;
use crate::lifecycle::{
    acks, at_most, offers, ChannelAnswers, Step, MAX_CONNECT_ATTEMPTS, RX_BACKLOG_CAP,
};
use crate::peer::{
    ActionView, BleDevice, ConnectRole, DeadReason, DisconnectReason, EndpointId, ErrorKind, KeyPrefix,
    PeerCommand, PeerPhase, PeerView, PendingSendView, SnapshotView,
};
use crate::registry::{
    cancel_of, candidate, contested, dedup_of, distinct, kept, keeper, known,
    lemma_filter_distinct, lemma_place, place, summaries, sweep_actions, swept, tick_of,
    upgrade_of, RegistryView,
};
use crate::time::{Clock, Instant};

verus! {

/// The device that a command is about, for commands about one device.
pub open spec fn target(cmd: PeerCommand) -> Option<Seq<char>> {
    match cmd {
        PeerCommand::Advertised { device, .. } => Some(device.id@),
        PeerCommand::CentralConnected { device_id } => Some(device_id@),
        PeerCommand::CentralDisconnected { device_id, .. } => Some(device_id@),
        PeerCommand::InboundGattFragment { device_id, .. } => Some(device_id@),
        PeerCommand::InboundL2capChannel { device_id, .. } => Some(device_id@),
        PeerCommand::SendDatagram { device_id, .. } => Some(device_id@),
        PeerCommand::ConnectSucceeded { device_id, .. } => Some(device_id@),
        PeerCommand::ConnectFailed { device_id, .. } => Some(device_id@),
        PeerCommand::OpenL2capSucceeded { device_id, .. } => Some(device_id@),
        PeerCommand::OpenL2capFailed { device_id, .. } => Some(device_id@),
        PeerCommand::Stalled { device_id } => Some(device_id@),
        PeerCommand::Forget { device_id } => Some(device_id@),
        PeerCommand::DataPipeReady { device_id, .. } => Some(device_id@),
        PeerCommand::ProtocolVersionMismatch { device_id, .. } => Some(device_id@),
        PeerCommand::PeripheralClientSubscribed { client_id, .. } => Some(client_id@),
        PeerCommand::L2capHandoverTimeout { device_id } => Some(device_id@),
        PeerCommand::AdapterStateChanged { .. } | PeerCommand::RestoreFromAdapter { .. }
        | PeerCommand::Tick(_) | PeerCommand::Shutdown | PeerCommand::VerifiedEndpoint { .. } => None,
    }
}

/// The command makes sense only for a device that is already known.
pub open spec fn needs_known_device(cmd: PeerCommand) -> bool {
    match cmd {
        PeerCommand::CentralDisconnected { .. } | PeerCommand::ConnectSucceeded { .. }
        | PeerCommand::ConnectFailed { .. } | PeerCommand::OpenL2capSucceeded { .. }
        | PeerCommand::OpenL2capFailed { .. } | PeerCommand::Stalled { .. }
        | PeerCommand::Forget { .. } | PeerCommand::DataPipeReady { .. }
        | PeerCommand::ProtocolVersionMismatch { .. } => true,
        _ => false,
    }
}

/// A report about a device that the registry does not know changes nothing.
pub proof fn unknown_devices_are_left_alone(
    r: RegistryView,
    cmd: PeerCommand,
    at: Clock,
    a: ChannelAnswers,
)
    requires
        needs_known_device(cmd),
        target(cmd) matches Some(id) && !known(r.peers, id),
    ensures
        r.step(cmd, at, a) == r.unchanged(),
{
}

/// `q` is the same device as `p`, in the same transmit generation or a later one.
pub open spec fn keeps(p: PeerView, q: PeerView) -> bool {
    p.device_id == q.device_id && p.tx_gen <= q.tx_gen
}

/// A dial never counts more attempts than are allowed.
pub open spec fn attempts_bounded(p: PeerView) -> bool {
    match p.phase {
        PeerPhase::Connecting { attempt, .. } => attempt < MAX_CONNECT_ATTEMPTS,
        PeerPhase::Reconnecting { attempt, .. } => attempt < MAX_CONNECT_ATTEMPTS,
        _ => true,
    }
}

/// A peer that is connected is so in its own transmit generation.
pub open spec fn generation_agrees(p: PeerView) -> bool {
    p.phase matches PeerPhase::Connected { tx_gen, .. } ==> tx_gen == p.tx_gen
}

/// What is right about `p` is right about `q`.
spec fn stays_right(p: PeerView, q: PeerView) -> bool {
    &&& attempts_bounded(p) ==> attempts_bounded(q)
    &&& generation_agrees(p) ==> generation_agrees(q)
}

/// The two hold the same peers, but for those with the given name.
spec fn same_but(before: Seq<PeerView>, after: Seq<PeerView>, id: Seq<char>) -> bool {
    &&& before.len() <= after.len() <= before.len() + 1
    &&& forall|i: int|
        0 <= i < before.len() ==> (#[trigger] after[i]) == before[i] || (before[i].device_id == id
            && after[i].device_id == id && stays_right(before[i], after[i]))
    &&& after.len() > before.len() ==> {
        &&& after[before.len() as int].device_id == id
        &&& attempts_bounded(after[before.len() as int])
        &&& generation_agrees(after[before.len() as int])
        &&& !known(before, id)
    }
}

proof fn lemma_same_but(before: Seq<PeerView>, after: Seq<PeerView>, id: Seq<char>)
    requires
        distinct(before),
        same_but(before, after, id),
    ensures
        distinct(after),
        forall|other: Seq<char>|
            other != id ==> #[trigger] known(after, other) == known(before, other) && (known(
                before,
                other,
            ) ==> after[place(after, other)] == before[place(before, other)]),
{
    assert forall|i: int, j: int| 0 <= i < j < after.len() implies (#[trigger] after[i]).device_id
        != (#[trigger] after[j]).device_id by {
        if j < before.len() {
            assert(before[i].device_id != before[j].device_id);
        } else {
            assert(before[i].device_id != id);
        }
    }
    assert forall|other: Seq<char>| other != id implies #[trigger] known(after, other) == known(
        before,
        other,
    ) && (known(before, other) ==> after[place(after, other)] == before[place(before, other)]) by {
        if known(before, other) {
            let i = place(before, other);
            assert(after[i] == before[i]);
            lemma_place(after, other, i);
        }
        if known(after, other) {
            let i = place(after, other);
            if i < before.len() {
                assert(after[i] == before[i]);
                assert(before[i].device_id == other);
            }
        }
    }
}

/// Device names stay distinct, and a command about one device leaves every
/// other peer exactly as it was.
pub proof fn other_peers_are_untouched(
    r: RegistryView,
    cmd: PeerCommand,
    at: Clock,
    a: ChannelAnswers,
    other: Seq<char>,
)
    requires
        r.wf(),
        target(cmd) matches Some(id) && id != other,
    ensures
        r.step(cmd, at, a).registry.peer(other) == r.peer(other),
        r.step(cmd, at, a).registry.wf(),
{
    lemma_step_same_but(r, cmd, at, a);
    lemma_same_but(r.peers, r.step(cmd, at, a).registry.peers, target(cmd)->0);
    assert(known(r.step(cmd, at, a).registry.peers, other) == known(r.peers, other));
}

proof fn lemma_at_known_same_but(r: RegistryView, id: Seq<char>, f: spec_fn(PeerView) -> Step)
    requires
        forall|p: PeerView|
            p.device_id == (#[trigger] f(p)).peer.device_id && stays_right(p, f(p).peer),
    ensures
        same_but(r.peers, r.at_known(id, f).registry.peers, id),
{
}

proof fn lemma_at_any_same_but(
    r: RegistryView,
    id: Seq<char>,
    f: spec_fn(PeerView) -> Step,
    fresh: Step,
)
    requires
        forall|p: PeerView|
            p.device_id == (#[trigger] f(p)).peer.device_id && stays_right(p, f(p).peer),
        fresh.peer.device_id == id,
        attempts_bounded(fresh.peer),
        generation_agrees(fresh.peer),
    ensures
        same_but(r.peers, r.at_any(id, f, fresh).registry.peers, id),
{
}

proof fn lemma_step_same_but(r: RegistryView, cmd: PeerCommand, at: Clock, a: ChannelAnswers)
    requires
        target(cmd) is Some,
    ensures
        same_but(r.peers, r.step(cmd, at, a).registry.peers, target(cmd)->0),
{
    let id = target(cmd)->0;
    match cmd {
        PeerCommand::Advertised { prefix, .. } => {
            let suppressed = r.has_verified_live(prefix);
            let defer = r.defers_to(prefix);
            lemma_at_any_same_but(
                r,
                id,
                |p: PeerView| p.advertised(at.now, prefix, suppressed, defer),
                PeerView::fresh(id).advertised(at.now, prefix, suppressed, defer),
            );
        },
        PeerCommand::CentralDisconnected { cause, .. } => {
            lemma_at_known_same_but(r, id, |p: PeerView| p.central_disconnected(at, cause));
        },
        PeerCommand::InboundGattFragment { bytes, .. } => {
            lemma_at_any_same_but(
                r,
                id,
                |p: PeerView| p.fragment_received(at.now, bytes@, a),
                PeerView { last_rx: Some(at.now), ..PeerView::fresh(id) }.answering(at.now, bytes@),
            );
        },
        PeerCommand::InboundL2capChannel { channel, .. } => {
            lemma_at_any_same_but(
                r,
                id,
                |p: PeerView| p.l2cap_accepted(at.now, channel),
                PeerView { role: ConnectRole::Peripheral, ..PeerView::fresh(id) }.l2cap_promoted(
                    at.now,
                    channel,
                ),
            );
        },
        PeerCommand::SendDatagram { tx_gen, datagram, waker, .. } => {
            let send = PendingSendView { tx_gen, datagram: datagram@, waker };
            lemma_at_any_same_but(
                r,
                id,
                |p: PeerView| p.sent(at.now, send, a),
                PeerView::fresh(id).sent(at.now, send, a),
            );
        },
        PeerCommand::ConnectSucceeded { channel, .. } => {
            lemma_at_known_same_but(r, id, |p: PeerView| p.connect_succeeded(at.now, channel));
        },
        PeerCommand::ConnectFailed { error, .. } => {
            lemma_at_known_same_but(r, id, |p: PeerView| p.connect_failed(at.now, error@));
        },
        PeerCommand::OpenL2capSucceeded { channel, .. } => {
            lemma_at_known_same_but(r, id, |p: PeerView| p.l2cap_opened(at.now, channel));
        },
        PeerCommand::OpenL2capFailed { error, .. } => {
            lemma_at_known_same_but(r, id, |p: PeerView| p.l2cap_open_failed(at.now, error@));
        },
        PeerCommand::Stalled { .. } => {
            lemma_at_known_same_but(r, id, |p: PeerView| p.stalled(at));
        },
        PeerCommand::Forget { .. } => {
            lemma_at_known_same_but(r, id, |p: PeerView| p.forgotten(at.now));
        },
        PeerCommand::DataPipeReady { handles, .. } => {
            lemma_at_known_same_but(
                r,
                id,
                |p: PeerView| p.pipe_ready(handles@, a).unchanged(),
            );
        },
        PeerCommand::ProtocolVersionMismatch { got, want, .. } => {
            lemma_at_known_same_but(r, id, |p: PeerView| p.version_mismatched(at, got, want));
        },
        PeerCommand::PeripheralClientSubscribed { .. } => {
            lemma_at_any_same_but(
                r,
                id,
                |p: PeerView| p.client_subscribed(at.now),
                PeerView::fresh(id).client_subscribed(at.now),
            );
        },
        PeerCommand::L2capHandoverTimeout { .. } => {
            lemma_at_known_same_but(r, id, |p: PeerView| p.handover_timed_out());
        },
        _ => {},
    }
}

pub open spec fn all_attempts_bounded(peers: Seq<PeerView>) -> bool {
    forall|i: int| 0 <= i < peers.len() ==> attempts_bounded(#[trigger] peers[i])
}

proof fn lemma_restored_attempts(r: RegistryView, at: Clock, devices: Seq<BleDevice>, n: nat)
    requires
        all_attempts_bounded(r.peers),
    ensures
        all_attempts_bounded(r.restored(at, devices, n).registry.peers),
    decreases n,
{
    if n > 0 {
        lemma_restored_attempts(r, at, devices, (n - 1) as nat);
        let mid = r.restored(at, devices, (n - 1) as nat).registry;
        let after = mid.restored_one(at, devices[n - 1].id@).registry;
        assert forall|i: int| 0 <= i < after.peers.len() implies attempts_bounded(
            #[trigger] after.peers[i],
        ) by {
            assert(attempts_bounded(mid.peers[i]));
        }
    }
}

/// The number of attempts stays bounded whatever is commanded: after the last
/// allowed attempt a peer is given up, never dialled again on its own.
pub proof fn attempts_stay_bounded(r: RegistryView, cmd: PeerCommand, at: Clock, a: ChannelAnswers)
    requires
        r.wf(),
        all_attempts_bounded(r.peers),
    ensures
        all_attempts_bounded(r.step(cmd, at, a).registry.peers),
{
    let after = r.step(cmd, at, a).registry;
    match cmd {
        PeerCommand::RestoreFromAdapter { devices } => {
            lemma_restored_attempts(r, at, devices@, devices@.len());
        },
        PeerCommand::Tick(now) => {
            let moved = swept(r.peers, tick_of(now));
            let keep = |p: PeerView| !p.expired(now);
            assert forall|i: int| 0 <= i < moved.len() implies attempts_bounded(
                #[trigger] moved[i],
            ) by {
                assert(attempts_bounded(r.peers[i]));
            }
            lemma_swept_distinct(r.peers, now);
            lemma_filter_distinct(moved, keep);
            assert(after.peers == moved.filter(keep));
            assert forall|i: int| 0 <= i < after.peers.len() implies attempts_bounded(
                #[trigger] after.peers[i],
            ) by {
                assert(moved.contains(after.peers[i]));
            }
        },
        PeerCommand::VerifiedEndpoint { endpoint_id } => {
            let prefix = endpoint_prefix(endpoint_id);
            let p1 = r.key_recorded(at, endpoint_id);
            let p2 = p1.dials_cancelled(at, prefix).registry;
            let p3 = p2.deduplicated(at, endpoint_id).registry;
            let p4 = p3.upgrades_started(prefix).registry;
            assert(after == p4);
            assert forall|i: int| 0 <= i < after.peers.len() implies attempts_bounded(
                #[trigger] after.peers[i],
            ) by {
                assert(attempts_bounded(r.peers[i]));
                assert(attempts_bounded(p1.peers[i]));
                assert(attempts_bounded(p2.peers[i]));
                assert(attempts_bounded(p3.peers[i]));
            }
        },
        _ => {
            if target(cmd) is Some {
                lemma_step_same_but(r, cmd, at, a);
            }
            assert forall|i: int| 0 <= i < after.peers.len() implies attempts_bounded(
                #[trigger] after.peers[i],
            ) by {
                if i < r.peers.len() {
                    assert(attempts_bounded(r.peers[i]));
                }
            }
        },
    }
}

pub open spec fn all_generations_agree(peers: Seq<PeerView>) -> bool {
    forall|i: int| 0 <= i < peers.len() ==> generation_agrees(#[trigger] peers[i])
}

proof fn lemma_restored_generations(r: RegistryView, at: Clock, devices: Seq<BleDevice>, n: nat)
    requires
        all_generations_agree(r.peers),
    ensures
        all_generations_agree(r.restored(at, devices, n).registry.peers),
    decreases n,
{
    if n > 0 {
        lemma_restored_generations(r, at, devices, (n - 1) as nat);
        let mid = r.restored(at, devices, (n - 1) as nat).registry;
        let after = mid.restored_one(at, devices[n - 1].id@).registry;
        assert forall|i: int| 0 <= i < after.peers.len() implies generation_agrees(
            #[trigger] after.peers[i],
        ) by {
            assert(generation_agrees(mid.peers[i]));
        }
    }
}

/// Whatever is commanded, the generation in which a peer is connected is its
/// own transmit generation.
pub proof fn generations_stay_in_agreement(
    r: RegistryView,
    cmd: PeerCommand,
    at: Clock,
    a: ChannelAnswers,
)
    requires
        r.wf(),
        all_generations_agree(r.peers),
    ensures
        all_generations_agree(r.step(cmd, at, a).registry.peers),
{
    let after = r.step(cmd, at, a).registry;
    match cmd {
        PeerCommand::RestoreFromAdapter { devices } => {
            lemma_restored_generations(r, at, devices@, devices@.len());
        },
        PeerCommand::Tick(now) => {
            let moved = swept(r.peers, tick_of(now));
            let keep = |p: PeerView| !p.expired(now);
            assert forall|i: int| 0 <= i < moved.len() implies generation_agrees(
                #[trigger] moved[i],
            ) by {
                assert(generation_agrees(r.peers[i]));
            }
            lemma_swept_distinct(r.peers, now);
            lemma_filter_distinct(moved, keep);
            assert(after.peers == moved.filter(keep));
            assert forall|i: int| 0 <= i < after.peers.len() implies generation_agrees(
                #[trigger] after.peers[i],
            ) by {
                assert(moved.contains(after.peers[i]));
            }
        },
        PeerCommand::VerifiedEndpoint { endpoint_id } => {
            let prefix = endpoint_prefix(endpoint_id);
            let p1 = r.key_recorded(at, endpoint_id);
            let p2 = p1.dials_cancelled(at, prefix).registry;
            let p3 = p2.deduplicated(at, endpoint_id).registry;
            assert(after == p3.upgrades_started(prefix).registry);
            assert forall|i: int| 0 <= i < after.peers.len() implies generation_agrees(
                #[trigger] after.peers[i],
            ) by {
                assert(generation_agrees(r.peers[i]));
                assert(generation_agrees(p1.peers[i]));
                assert(generation_agrees(p2.peers[i]));
                assert(generation_agrees(p3.peers[i]));
            }
        },
        _ => {
            if target(cmd) is Some {
                lemma_step_same_but(r, cmd, at, a);
            }
            assert forall|i: int| 0 <= i < after.peers.len() implies generation_agrees(
                #[trigger] after.peers[i],
            ) by {
                if i < r.peers.len() {
                    assert(generation_agrees(r.peers[i]));
                }
            }
        },
    }
}

pub(crate) proof fn lemma_swept_distinct(peers: Seq<PeerView>, now: Instant)
    requires
        distinct(peers),
    ensures
        distinct(swept(peers, tick_of(now))),
{
    let after = swept(peers, tick_of(now));
    assert forall|i: int, j: int| 0 <= i < j < after.len() implies (#[trigger] after[i]).device_id
        != (#[trigger] after[j]).device_id by {
        assert(peers[i].device_id != peers[j].device_id);
    }
}

/// Every peer of `after` was there before, in the same generation or an
/// earlier one, or is new.
pub open spec fn gens_grow(before: Seq<PeerView>, after: Seq<PeerView>) -> bool {
    forall|i: int|
        0 <= i < after.len() ==> !known(before, (#[trigger] after[i]).device_id) || keeps(
            before[place(before, after[i].device_id)],
            after[i],
        )
}

proof fn lemma_indexwise_gens(before: Seq<PeerView>, after: Seq<PeerView>)
    requires
        distinct(before),
        before.len() == after.len(),
        forall|i: int| 0 <= i < after.len() ==> keeps(before[i], #[trigger] after[i]),
    ensures
        gens_grow(before, after),
        distinct(after),
{
    assert forall|i: int| 0 <= i < after.len() implies !known(
        before,
        (#[trigger] after[i]).device_id,
    ) || keeps(before[place(before, after[i].device_id)], after[i]) by {
        assert(keeps(before[i], after[i]));
        lemma_place(before, after[i].device_id, i);
    }
    assert forall|i: int, j: int| 0 <= i < j < after.len() implies (#[trigger] after[i]).device_id
        != (#[trigger] after[j]).device_id by {
        assert(keeps(before[i], after[i]) && keeps(before[j], after[j]));
        assert(before[i].device_id != before[j].device_id);
    }
}

proof fn lemma_restored_keeps(r: RegistryView, at: Clock, devices: Seq<BleDevice>, n: nat)
    ensures
        r.restored(at, devices, n).registry.peers.len() == r.peers.len(),
        forall|i: int|
            0 <= i < r.peers.len() ==> keeps(
                r.peers[i],
                #[trigger] r.restored(at, devices, n).registry.peers[i],
            ),
    decreases n,
{
    if n > 0 {
        lemma_restored_keeps(r, at, devices, (n - 1) as nat);
        let mid = r.restored(at, devices, (n - 1) as nat).registry;
        let after = r.restored(at, devices, n).registry;
        assert forall|i: int| 0 <= i < r.peers.len() implies keeps(
            r.peers[i],
            #[trigger] after.peers[i],
        ) by {
            assert(keeps(r.peers[i], mid.peers[i]));
        }
    }
}

/// The peer that a command is about does not fall back.
proof fn lemma_target_grows(r: RegistryView, cmd: PeerCommand, at: Clock, a: ChannelAnswers)
    requires
        r.can_handle(cmd, at),
        target(cmd) matches Some(id) && known(r.peers, id),
    ensures
        ({
            let i = place(r.peers, target(cmd)->0);
            r.peers[i].tx_gen <= r.step(cmd, at, a).registry.peers[i].tx_gen
        }),
{
    let i = place(r.peers, target(cmd)->0);
    let p = r.peers[i];
    assert(r.peer(target(cmd)->0) == Some(p));
}

/// Whatever is commanded, device names stay distinct and no peer falls back to
/// an earlier transmit generation. A send stamped with an old generation is
/// therefore recognised as stale for as long as the peer is remembered.
pub proof fn generations_never_fall_back(
    r: RegistryView,
    cmd: PeerCommand,
    at: Clock,
    a: ChannelAnswers,
)
    requires
        r.wf(),
        r.can_handle(cmd, at),
    ensures
        r.step(cmd, at, a).registry.wf(),
        gens_grow(r.peers, r.step(cmd, at, a).registry.peers),
{
    let after = r.step(cmd, at, a).registry;
    match cmd {
        PeerCommand::RestoreFromAdapter { devices } => {
            lemma_restored_keeps(r, at, devices@, devices@.len());
            lemma_indexwise_gens(r.peers, after.peers);
        },
        PeerCommand::Tick(now) => {
            let moved = swept(r.peers, tick_of(now));
            let keep = |p: PeerView| !p.expired(now);
            assert forall|i: int| 0 <= i < moved.len() implies keeps(
                r.peers[i],
                #[trigger] moved[i],
            ) by {}
            lemma_indexwise_gens(r.peers, moved);
            lemma_filter_distinct(moved, keep);
            assert(after.peers == moved.filter(keep));
            assert forall|i: int| 0 <= i < after.peers.len() implies !known(
                r.peers,
                (#[trigger] after.peers[i]).device_id,
            ) || keeps(r.peers[place(r.peers, after.peers[i].device_id)], after.peers[i]) by {
                assert(moved.contains(after.peers[i]));
                let j = choose|j: int| 0 <= j < moved.len() && moved[j] == after.peers[i];
                assert(keeps(r.peers[place(r.peers, moved[j].device_id)], moved[j]) || !known(
                    r.peers,
                    moved[j].device_id,
                ));
            }
        },
        PeerCommand::VerifiedEndpoint { endpoint_id } => {
            let prefix = endpoint_prefix(endpoint_id);
            let p1 = r.key_recorded(at, endpoint_id);
            let p2 = p1.dials_cancelled(at, prefix).registry;
            let p3 = p2.deduplicated(at, endpoint_id).registry;
            assert forall|i: int| 0 <= i < after.peers.len() implies keeps(
                r.peers[i],
                #[trigger] after.peers[i],
            ) by {
                assert(keeps(r.peers[i], p1.peers[i]));
                assert(keeps(r.peers[i], p2.peers[i]));
                assert(keeps(r.peers[i], p3.peers[i]));
            }
            lemma_indexwise_gens(r.peers, after.peers);
        },
        PeerCommand::AdapterStateChanged { .. } | PeerCommand::Shutdown => {
            assert forall|i: int| 0 <= i < after.peers.len() implies keeps(
                r.peers[i],
                #[trigger] after.peers[i],
            ) by {}
            lemma_indexwise_gens(r.peers, after.peers);
        },
        _ => {
            let id = target(cmd)->0;
            lemma_step_same_but(r, cmd, at, a);
            lemma_same_but(r.peers, after.peers, id);
            assert forall|i: int| 0 <= i < after.peers.len() implies !known(
                r.peers,
                (#[trigger] after.peers[i]).device_id,
            ) || keeps(r.peers[place(r.peers, after.peers[i].device_id)], after.peers[i]) by {
                if i < r.peers.len() {
                    assert(r.peers[i].device_id == after.peers[i].device_id);
                    lemma_place(r.peers, after.peers[i].device_id, i);
                    if after.peers[i] != r.peers[i] {
                        lemma_target_grows(r, cmd, at, a);
                    }
                }
            }
        },
    }
}

/// When the adapter loses power every peer waits for it, and nothing is sent.
/// When it comes back every waiting peer is dialled again at once, from the
/// first attempt.
pub proof fn adapter_cycle_redials_everyone(
    r: RegistryView,
    off: PeerCommand,
    on: PeerCommand,
    t0: Clock,
    t1: Clock,
    a: ChannelAnswers,
)
    requires
        off == (PeerCommand::AdapterStateChanged { powered: false }),
        on == (PeerCommand::AdapterStateChanged { powered: true }),
    ensures
        ({
            let down = r.step(off, t0, a);
            let up = down.registry.step(on, t1, a);
            &&& down.actions.len() == 0
            &&& down.registry.peers.len() == r.peers.len()
            &&& up.registry.peers.len() == r.peers.len()
            &&& forall|i: int|
                0 <= i < r.peers.len() ==> (#[trigger] down.registry.peers[i]).phase
                    == (PeerPhase::Restoring { since: t0.now })
                    && down.registry.peers[i].pending_sends.len() == 0
            &&& forall|i: int|
                0 <= i < r.peers.len() ==> (#[trigger] up.registry.peers[i]).phase == (
                PeerPhase::Reconnecting {
                    attempt: 0,
                    next_at: t1.now,
                    reason: DisconnectReason::AdapterOff,
                })
        }),
{
}

/// After a tick no peer is remembered that has been dead for too long.
pub proof fn ticks_leave_no_expired_peer(r: RegistryView, now: Instant)
    ensures
        forall|i: int|
            0 <= i < r.ticked(now).registry.peers.len() ==> !(
            #[trigger] r.ticked(now).registry.peers[i]).expired(now),
{
    let moved = swept(r.peers, tick_of(now));
    let keep = |p: PeerView| !p.expired(now);
    assert forall|i: int| 0 <= i < moved.filter(keep).len() implies keep(
        #[trigger] moved.filter(keep)[i],
    ) by {
        lemma_filter_keeps(moved, keep, i);
    }
    assert(r.ticked(now).registry.peers == moved.filter(keep));
    assert forall|i: int| 0 <= i < r.ticked(now).registry.peers.len() implies !(
    #[trigger] r.ticked(now).registry.peers[i]).expired(now) by {
        assert(keep(moved.filter(keep)[i]));
    }
}

proof fn lemma_filter_keeps(peers: Seq<PeerView>, keep: spec_fn(PeerView) -> bool, i: int)
    requires
        0 <= i < peers.filter(keep).len(),
    ensures
        keep(peers.filter(keep)[i]),
        peers.contains(peers.filter(keep)[i]),
    decreases peers.len(),
{
    reveal(Seq::filter);
    if peers.len() > 0 {
        let rest = peers.drop_last();
        if i < rest.filter(keep).len() {
            lemma_filter_keeps(rest, keep, i);
            let k = choose|k: int| 0 <= k < rest.len() && rest[k] == rest.filter(keep)[i];
            assert(peers[k] == peers.filter(keep)[i]);
        } else {
            assert(peers[peers.len() - 1] == peers.filter(keep)[i]);
        }
    }
}

proof fn lemma_sweep_actions_none(
    peers: Seq<PeerView>,
    f: spec_fn(int, PeerView) -> Step,
    n: nat,
)
    requires
        n <= peers.len(),
        forall|i: int| 0 <= i < peers.len() ==> f(i, #[trigger] peers[i]) == peers[i].unchanged(),
    ensures
        sweep_actions(peers, f, n) == Seq::<ActionView>::empty(),
    decreases n,
{
    if n > 0 {
        lemma_sweep_actions_none(peers, f, (n - 1) as nat);
        assert(f(n - 1, peers[n - 1]) == peers[n - 1].unchanged());
    }
}

/// A sweep that moves no peer does nothing.
proof fn lemma_sweep_unchanged(r: RegistryView, f: spec_fn(int, PeerView) -> Step)
    requires
        forall|i: int|
            0 <= i < r.peers.len() ==> f(i, #[trigger] r.peers[i]) == r.peers[i].unchanged(),
    ensures
        r.sweep(f) == r.unchanged(),
{
    lemma_sweep_actions_none(r.peers, f, r.peers.len());
    assert forall|i: int| 0 <= i < r.peers.len() implies swept(r.peers, f)[i]
        == #[trigger] r.peers[i] by {
        assert(f(i, r.peers[i]) == r.peers[i].unchanged());
    }
    assert(swept(r.peers, f) =~= r.peers);
}

proof fn lemma_filter_all(peers: Seq<PeerView>, keep: spec_fn(PeerView) -> bool)
    requires
        forall|i: int| 0 <= i < peers.len() ==> keep(#[trigger] peers[i]),
    ensures
        peers.filter(keep) == peers,
    decreases peers.len(),
{
    reveal(Seq::filter);
    if peers.len() > 0 {
        let rest = peers.drop_last();
        assert forall|i: int| 0 <= i < rest.len() implies keep(#[trigger] rest[i]) by {
            assert(rest[i] == peers[i]);
        }
        lemma_filter_all(rest, keep);
        assert(keep(peers[peers.len() - 1]));
        assert(rest.push(peers.last()) =~= peers);
    }
}

/// Two ticks at the same instant are one: the second changes nothing and asks
/// for nothing.
pub proof fn ticking_twice_is_ticking_once(r: RegistryView, now: Instant)
    ensures
        r.ticked(now).registry.ticked(now) == r.ticked(now).registry.unchanged(),
{
    let moved = swept(r.peers, tick_of(now));
    let keep = |p: PeerView| !p.expired(now);
    let after = r.ticked(now).registry;
    assert(after.peers == moved.filter(keep));
    ticks_leave_no_expired_peer(r, now);
    assert forall|i: int| 0 <= i < after.peers.len() implies tick_of(now)(
        i,
        #[trigger] after.peers[i],
    ) == after.peers[i].unchanged() by {
        lemma_filter_keeps(moved, keep, i);
        let k = choose|k: int| 0 <= k < moved.len() && moved[k] == after.peers[i];
        assert(after.peers[i] == r.peers[k].ticked(now).peer);
    }
    lemma_sweep_unchanged(after, tick_of(now));
    lemma_filter_all(after.peers, keep);
}

/// The second proof of the same key asks for nothing. It only moves the time at
/// which the key was last proved, so at the same instant it changes nothing.
pub proof fn verifying_twice_is_verifying_once(
    r: RegistryView,
    at: Clock,
    later: Clock,
    key: EndpointId,
)
    requires
        r.wf(),
    ensures
        ({
            let first = r.verified_endpoint(at, key).registry;
            let second = first.verified_endpoint(later, key);
            &&& second.actions == Seq::<ActionView>::empty()
            &&& second.registry == first.key_recorded(later, key)
            &&& at.now == later.now ==> second.registry == first
        }),
{
    let prefix = endpoint_prefix(key);
    let p1 = r.key_recorded(at, key);
    let p2 = p1.dials_cancelled(at, prefix).registry;
    let p3 = p2.deduplicated(at, key).registry;
    let first = p3.upgrades_started(prefix).registry;
    assert(r.verified_endpoint(at, key).registry == first);
    let again = first.key_recorded(later, key);
    assert forall|i: int| 0 <= i < first.peers.len() implies {
        &&& (#[trigger] first.peers[i]).dial_cancelled(later, prefix) == first.peers[i].unchanged()
        &&& first.l2cap_policy is PreferL2cap ==> !first.peers[i].can_upgrade(prefix)
        &&& at.now == later.now ==> first.peers[i].stamped(later.now, prefix, key) == first.peers[i]
    } by {
        assert(p1.peers[i] == r.peers[i].stamped(at.now, prefix, key));
        assert(p2.peers[i] == p1.peers[i].dial_cancelled(at, prefix).peer);
        assert(p3.peers[i] == p2.peers[i] || p3.peers[i] == p2.peers[i].drained(
            at,
            DisconnectReason::DedupLoser,
        ).peer);
        assert(first.peers[i] == p3.peers[i] || first.peers[i] == p3.peers[i].upgrade_started(
            prefix,
        ).peer);
    }
    assert forall|i: int| 0 <= i < again.peers.len() implies cancel_of(later, prefix)(
        i,
        #[trigger] again.peers[i],
    ) == again.peers[i].unchanged() by {
        assert(again.peers[i] == first.peers[i].stamped(later.now, prefix, key));
    }
    lemma_sweep_unchanged(again, cancel_of(later, prefix));
    verification_leaves_one_live_link(r, at, key);
    assert(!contested(again.peers, prefix)) by {
        assert forall|i: int, j: int|
            0 <= i < j < again.peers.len() && candidate(#[trigger] again.peers[i], prefix)
                && candidate(#[trigger] again.peers[j], prefix) implies false by {
            assert(candidate(first.peers[i], prefix) && candidate(first.peers[j], prefix));
            assert(contested(first.peers, prefix));
        }
    }
    assert(again.deduplicated(later, key) == again.unchanged());
    if again.l2cap_policy is PreferL2cap {
        assert forall|i: int| 0 <= i < again.peers.len() implies upgrade_of(prefix)(
            i,
            #[trigger] again.peers[i],
        ) == again.peers[i].unchanged() by {
            assert(again.peers[i] == first.peers[i].stamped(later.now, prefix, key));
        }
        lemma_sweep_unchanged(again, upgrade_of(prefix));
    }
    assert(Seq::<ActionView>::empty() + Seq::<ActionView>::empty() =~= Seq::<ActionView>::empty());
    if at.now == later.now {
        assert(again.peers =~= first.peers);
        assert(again.verified =~= first.verified);
    }
}

/// The second subscription of the same central changes nothing.
pub proof fn subscribing_twice_is_subscribing_once(
    r: RegistryView,
    at: Clock,
    later: Clock,
    id: Seq<char>,
)
    requires
        r.wf(),
    ensures
        ({
            let once = r.client_subscribed(at, id);
            once.registry.client_subscribed(later, id) == once.registry.unchanged()
        }),
{
    let once = r.client_subscribed(at, id).registry;
    let step = |p: PeerView| p.client_subscribed(at.now);
    lemma_at_any_same_but(r, id, step, PeerView::fresh(id).client_subscribed(at.now));
    lemma_same_but(r.peers, once.peers, id);
    let i = if known(r.peers, id) {
        place(r.peers, id)
    } else {
        r.peers.len() as int
    };
    assert(once.peers[i].device_id == id);
    lemma_place(once.peers, id, i);
    assert(once.peers.update(i, once.peers[i]) =~= once.peers);
}

/// A pipe that comes up gets the buffered sends in order; together with those
/// that keep waiting they are the sends that were buffered, none lost, doubled
/// or overtaken.
pub proof fn a_new_pipe_keeps_sends_in_order(p: PeerView, pipe: PipeView, a: ChannelAnswers)
    ensures
        ({
            let q = p.pipe_ready(pipe, a);
            q.pipe matches Some(filled) && filled.outbound + q.pending_sends == pipe.outbound
                + p.pending_sends
        }),
{
    let tx = at_most(a.outbound_taken, p.pending_sends.len()) as int;
    assert(p.pending_sends.take(tx) + p.pending_sends.skip(tx) =~= p.pending_sends);
    assert(pipe.outbound + p.pending_sends.take(tx) + p.pending_sends.skip(tx) =~= pipe.outbound
        + p.pending_sends);
}

/// A pipe that comes up gets the waiting fragments in order, without gaps. If
/// it takes all, none is left waiting; otherwise exactly one is lost, the first
/// that it did not take.
pub proof fn a_new_pipe_keeps_fragments_in_order(p: PeerView, pipe: PipeView, a: ChannelAnswers)
    ensures
        ({
            let q = p.pipe_ready(pipe, a);
            let n = at_most(a.inbound_taken, p.rx_backlog.len()) as int;
            &&& q.pipe matches Some(filled) && filled.inbound == pipe.inbound + p.rx_backlog.take(n)
            &&& n == p.rx_backlog.len() ==> q.rx_backlog.len() == 0
            &&& n < p.rx_backlog.len() ==> p.rx_backlog.take(n) + seq![p.rx_backlog[n]]
                + q.rx_backlog == p.rx_backlog
        }),
{
    let n = at_most(a.inbound_taken, p.rx_backlog.len()) as int;
    if n < p.rx_backlog.len() {
        assert(p.rx_backlog.take(n) + seq![p.rx_backlog[n]] + p.rx_backlog.skip(n + 1)
            =~= p.rx_backlog);
    }
}

/// A pipe that has room gets everything that waited for it: every send and
/// every fragment is offered and taken, in order, and nothing is left waiting.
pub proof fn a_new_pipe_with_room_gets_everything(p: PeerView, pipe: PipeView, a: ChannelAnswers)
    requires
        a.outbound_taken >= p.pending_sends.len(),
        a.inbound_taken >= p.rx_backlog.len(),
    ensures
        ({
            let q = p.pipe_ready(pipe, a);
            &&& q.pending_sends.len() == 0
            &&& q.rx_backlog.len() == 0
            &&& q.pipe matches Some(filled) && filled.outbound == pipe.outbound + p.pending_sends
                && filled.inbound == pipe.inbound + p.rx_backlog
            &&& q.phase == p.phase
            &&& q.tx_gen == p.tx_gen
        }),
{
    let sends = p.pending_sends;
    assert(sends.take(sends.len() as int) =~= sends);
    assert(p.rx_backlog.take(p.rx_backlog.len() as int) =~= p.rx_backlog);
}

/// What a new pipe takes is what it was offered up to the first refusal. So a
/// pipe that takes less than waited has refused something.
pub proof fn only_a_refusal_stops_a_new_pipe(p: PeerView, pipe: PipeView, a: ChannelAnswers)
    ensures
        ({
            let q = p.pipe_ready(pipe, a);
            let sends = pipe.outbound_offered.len() as int;
            let fragments = pipe.inbound_offered.len() as int;
            &&& q.pending_sends.len() > 0 ==> (q.pipe matches Some(filled)
                && filled.outbound_offered.len() > sends && !(
            filled.outbound_offered.last().1 is Accepted))
            &&& q.pipe->0.inbound.len() < pipe.inbound.len() + p.rx_backlog.len() ==> (
            q.pipe matches Some(filled) && filled.inbound_offered.len() > fragments
                && !filled.inbound_offered.last().1)
        }),
{
}

/// On a live link sends reach the pipe in the order in which they came: those
/// that were buffered first, in order, and the new one last.
///
/// The one way in which a send could overtake is left out: that the channel
/// refuses a buffered send for want of room and, a moment later, has room for
/// the new one.
pub proof fn sends_stay_in_order(
    p: PeerView,
    now: Instant,
    send: PendingSendView,
    a: ChannelAnswers,
)
    requires
        p.phase matches PeerPhase::Connected { tx_gen, .. } && tx_gen == send.tx_gen,
        p.pipe is Some,
        a.outbound_taken < p.pending_sends.len() && !a.outbound_closed ==> a.direct !is Accepted,
    ensures
        ({
            let q = p.sent(now, send, a).peer;
            let all = p.pipe->0.outbound + p.pending_sends;
            let taken = at_most(a.outbound_taken, p.pending_sends.len()) as int;
            match q.pipe {
                Some(pipe) => pipe.outbound + q.pending_sends == if a.direct is Accepted {
                    all.push(send)
                } else {
                    all
                },
                None => q.pending_sends == p.pending_sends.push(send).skip(taken),
            }
        }),
        ({
            let step = p.sent(now, send, a);
            forall|i: int|
                0 <= i < step.actions.len() ==> ((#[trigger] step.actions[i])
                    matches ActionView::AckSend { result, .. } && (result is Err <==> (
                step.peer.pipe is Some && a.direct is Full)))
        }),
{
    let taken = at_most(a.outbound_taken, p.pending_sends.len()) as int;
    let out = p.pipe->0.outbound;
    assert(p.pending_sends.take(taken) + p.pending_sends.skip(taken) =~= p.pending_sends);
    assert(out + p.pending_sends.take(taken) + p.pending_sends.skip(taken) =~= out
        + p.pending_sends);
    assert(p.pending_sends.skip(taken).push(send) =~= p.pending_sends.push(send).skip(taken));
    if taken == p.pending_sends.len() {
        assert(p.pending_sends.skip(taken) =~= Seq::empty());
        assert((out + p.pending_sends.take(taken)).push(send) + p.pending_sends.skip(taken) =~= (out
            + p.pending_sends).push(send));
    }
}

/// On a live link every buffered send is offered to the pipe before the new one
/// is, and a refusal is the pipe's own answer: what was offered, with the
/// answers, is on record in the pipe or, if it was found closed, in the end that
/// is left of it.
pub proof fn live_sends_are_offered(
    p: PeerView,
    now: Instant,
    send: PendingSendView,
    a: ChannelAnswers,
)
    requires
        p.phase matches PeerPhase::Connected { tx_gen, .. } && tx_gen == send.tx_gen,
        p.pipe is Some,
    ensures
        ({
            let q = p.sent(now, send, a).peer;
            let taken = at_most(a.outbound_taken, p.pending_sends.len());
            let flushed = p.pipe->0.outbound_offered + offers(
                p.pending_sends,
                taken,
                a.outbound_closed,
            );
            match q.pipe {
                Some(pipe) => pipe.outbound_offered == flushed.push((send, a.direct)),
                None => q.closed == Some(
                    if taken < p.pending_sends.len() && a.outbound_closed {
                        flushed
                    } else {
                        flushed.push((send, TrySend::Closed))
                    },
                ),
            }
        }),
{
}

/// A send of another generation than the live one is refused and leaves no
/// trace.
pub proof fn stale_sends_are_refused(
    p: PeerView,
    now: Instant,
    send: PendingSendView,
    a: ChannelAnswers,
)
    requires
        p.phase matches PeerPhase::Connected { tx_gen, .. } && tx_gen != send.tx_gen,
    ensures
        p.sent(now, send, a).peer == p,
        p.sent(now, send, a).actions == seq![
            ActionView::AckSend {
                tx_gen: send.tx_gen,
                waker: send.waker,
                result: Err(ErrorKind::WouldBlock),
            },
        ],
{
}

/// Giving a link up answers every buffered send with a broken pipe, once and
/// in order, leaves none behind, drops the pipe, and remembers the peer if it
/// was connected under a known prefix.
pub proof fn draining_answers_every_send(p: PeerView, at: Clock, reason: DisconnectReason)
    ensures
        ({
            let step = p.drained(at, reason);
            let n = p.pending_sends.len() as int;
            let stored = p.phase is Connected && p.prefix is Some;
            &&& step.peer.pending_sends.len() == 0
            &&& step.peer.pipe is None
            &&& step.peer.phase == (PeerPhase::Draining { since: at.now, reason })
            &&& step.actions.take(n) == acks(p.pending_sends, Err(ErrorKind::BrokenPipe))
            &&& step.actions.len() == n + (if stored {
                1int
            } else {
                0int
            })
            &&& stored ==> step.actions[n] == (ActionView::PutPeerStore {
                prefix: p.prefix->0,
                snapshot: SnapshotView {
                    endpoint_id: p.verified_endpoint,
                    last_device_id: p.device_id,
                    last_seen: at.wall,
                },
            })
        }),
{
    let step = p.drained(at, reason);
    assert(step.actions.take(p.pending_sends.len() as int) =~= acks(
        p.pending_sends,
        Err(ErrorKind::BrokenPipe),
    ));
}

/// While a link waits for its pipe the fragments kept for it are bounded.
pub proof fn backlog_stays_bounded(p: PeerView, now: Instant, fragment: Seq<u8>, a: ChannelAnswers)
    requires
        p.phase is Connected,
    ensures
        p.fragment_received(now, fragment, a).peer.rx_backlog.len() <= if p.rx_backlog.len()
            <= RX_BACKLOG_CAP {
            RX_BACKLOG_CAP as nat
        } else {
            p.rx_backlog.len()
        },
{
}

/// Once a peer has proved its key, at most one live link leads to it.
pub proof fn verification_leaves_one_live_link(r: RegistryView, at: Clock, key: EndpointId)
    requires
        r.wf(),
    ensures
        !contested(r.verified_endpoint(at, key).registry.peers, endpoint_prefix(key)),
{
    let prefix = endpoint_prefix(key);
    let p2 = r.key_recorded(at, key).dials_cancelled(at, prefix).registry;
    let p3 = p2.deduplicated(at, key).registry;
    let p4 = p3.upgrades_started(prefix).registry;
    assert(r.verified_endpoint(at, key).registry == p4);
    let mine = p2.my_endpoint@;
    assert forall|i: int, j: int|
        0 <= i < j < p4.peers.len() && candidate(#[trigger] p4.peers[i], prefix) && candidate(
            #[trigger] p4.peers[j],
            prefix,
        ) implies false by {
        assert(candidate(p3.peers[i], prefix) && candidate(p3.peers[j], prefix));
        assert(candidate(p2.peers[i], prefix) && candidate(p2.peers[j], prefix));
        assert(contested(p2.peers, prefix));
        assert(kept(p2.peers, prefix, mine, key@, i));
        assert(kept(p2.peers, prefix, mine, key@, j));
        assert(keeper(p2.peers, prefix, mine, key@, i));
    }
}

/// Once a peer has proved its key, every entry known under its prefix carries
/// the key, and the prefix counts as verified from then on.
pub proof fn verification_stamps_the_prefix(r: RegistryView, at: Clock, key: EndpointId)
    ensures
        ({
            let after = r.verified_endpoint(at, key).registry;
            &&& after.verified == r.verified.insert(endpoint_prefix(key)@, key@)
            &&& !after.defers_to(endpoint_prefix(key))
            &&& forall|i: int|
                0 <= i < after.peers.len() && (#[trigger] after.peers[i]).prefix == Some(
                    endpoint_prefix(key),
                ) ==> after.peers[i].verified_endpoint == Some(key)
        }),
{
    let prefix = endpoint_prefix(key);
    let p1 = r.key_recorded(at, key);
    let p2 = p1.dials_cancelled(at, prefix).registry;
    let p3 = p2.deduplicated(at, key).registry;
    let after = r.verified_endpoint(at, key).registry;
    assert forall|i: int|
        0 <= i < after.peers.len() && (#[trigger] after.peers[i]).prefix == Some(
            prefix,
        ) implies after.peers[i].verified_endpoint == Some(key) by {
        assert(p3.peers[i].prefix == after.peers[i].prefix);
        assert(p2.peers[i].prefix == p3.peers[i].prefix);
        assert(p1.peers[i].prefix == p2.peers[i].prefix);
    }
}

/// An advertisement of a peer to which a verified live link leads never starts
/// a dial.
pub proof fn verified_live_peers_are_not_dialled(
    r: RegistryView,
    at: Clock,
    id: Seq<char>,
    prefix: KeyPrefix,
)
    requires
        r.has_verified_live(prefix),
    ensures
        r.advertised(at, id, prefix).actions.len() == 0,
{
}

/// Towards a peer with a higher key that has not proved it yet, an
/// advertisement never starts a first dial: the other side is to dial.
pub proof fn lower_side_does_not_dial_first(
    r: RegistryView,
    at: Clock,
    id: Seq<char>,
    prefix: KeyPrefix,
)
    requires
        r.defers_to(prefix),
        r.peer(id) matches Some(p) ==> p.phase !is Reconnecting,
    ensures
        r.advertised(at, id, prefix).actions.len() == 0,
{
}

/// A send is answered at most once, and nothing but a dial follows from it
/// besides.
pub proof fn a_send_is_answered_at_most_once(
    p: PeerView,
    now: Instant,
    send: PendingSendView,
    a: ChannelAnswers,
)
    ensures
        p.sent(now, send, a).actions.len() <= 1,
        forall|i: int|
            0 <= i < p.sent(now, send, a).actions.len() ==> ((#[trigger] p.sent(
                now,
                send,
                a,
            ).actions[i]) is StartConnect || (p.sent(now, send, a).actions[i]
                matches ActionView::AckSend { tx_gen, waker, .. } && tx_gen == send.tx_gen && waker
                == send.waker)),
{
}

/// Among the actions is one that remembers the device under the prefix.
pub open spec fn remembers(
    actions: Seq<ActionView>,
    prefix: KeyPrefix,
    id: Seq<char>,
    at: Clock,
) -> bool {
    exists|k: int|
        0 <= k < actions.len() && ((#[trigger] actions[k]) matches ActionView::PutPeerStore {
            prefix: under,
            snapshot,
        } && under == prefix && snapshot.last_device_id == id && snapshot.last_seen == at.wall)
}

proof fn lemma_drained_remembers(p: PeerView, at: Clock, reason: DisconnectReason, more: Seq<ActionView>)
    requires
        p.phase is Connected,
        p.prefix is Some,
    ensures
        remembers(p.drained(at, reason).actions, p.prefix->0, p.device_id, at),
        remembers(p.drained(at, reason).actions + more, p.prefix->0, p.device_id, at),
{
    let actions = p.drained(at, reason).actions;
    let k = p.pending_sends.len() as int;
    assert(actions[k] is PutPeerStore);
    assert((actions + more)[k] == actions[k]);
}

proof fn lemma_sweep_remembers(
    peers: Seq<PeerView>,
    f: spec_fn(int, PeerView) -> Step,
    n: nat,
    i: int,
    prefix: KeyPrefix,
    at: Clock,
)
    requires
        0 <= i < n <= peers.len(),
        remembers(f(i, peers[i]).actions, prefix, peers[i].device_id, at),
    ensures
        remembers(sweep_actions(peers, f, n), prefix, peers[i].device_id, at),
    decreases n,
{
    let before = sweep_actions(peers, f, (n - 1) as nat);
    let own = f(n - 1, peers[n - 1]).actions;
    if i == n - 1 {
        let k = choose|k: int|
            0 <= k < own.len() && ((#[trigger] own[k]) matches ActionView::PutPeerStore {
                prefix: under,
                snapshot,
            } && under == prefix && snapshot.last_device_id == peers[i].device_id
                && snapshot.last_seen == at.wall);
        assert((before + own)[before.len() + k] == own[k]);
    } else {
        lemma_sweep_remembers(peers, f, (n - 1) as nat, i, prefix, at);
        lemma_remembers_in(before, own, prefix, peers[i].device_id, at);
    }
}

proof fn lemma_remembers_in(
    first: Seq<ActionView>,
    next: Seq<ActionView>,
    prefix: KeyPrefix,
    id: Seq<char>,
    at: Clock,
)
    ensures
        remembers(first, prefix, id, at) ==> remembers(first + next, prefix, id, at),
        remembers(next, prefix, id, at) ==> remembers(first + next, prefix, id, at),
{
    if remembers(first, prefix, id, at) {
        let k = choose|k: int|
            0 <= k < first.len() && ((#[trigger] first[k]) matches ActionView::PutPeerStore {
                prefix: under,
                snapshot,
            } && under == prefix && snapshot.last_device_id == id && snapshot.last_seen == at.wall);
        assert((first + next)[k] == first[k]);
    }
    if remembers(next, prefix, id, at) {
        let k = choose|k: int|
            0 <= k < next.len() && ((#[trigger] next[k]) matches ActionView::PutPeerStore {
                prefix: under,
                snapshot,
            } && under == prefix && snapshot.last_device_id == id && snapshot.last_seen == at.wall);
        assert((first + next)[first.len() + k] == next[k]);
    }
}

proof fn lemma_restored_connected(
    r: RegistryView,
    at: Clock,
    devices: Seq<BleDevice>,
    n: nat,
    i: int,
)
    requires
        0 <= i < r.peers.len(),
        r.peers[i].phase is Connected,
    ensures
        r.restored(at, devices, n).registry.peers.len() == r.peers.len(),
        r.restored(at, devices, n).registry.peers[i] == r.peers[i],
    decreases n,
{
    if n > 0 {
        lemma_restored_connected(r, at, devices, (n - 1) as nat, i);
    }
}

/// A peer that was connected under a known prefix is remembered when its link
/// is lost: whenever a command takes it out of its connected phase, the actions
/// put it into the store. Only two commands take a peer out without a trace: to
/// forget it, and that the adapter went off.
#[verifier::spinoff_prover]
pub proof fn lost_links_are_remembered(
    r: RegistryView,
    cmd: PeerCommand,
    at: Clock,
    a: ChannelAnswers,
    id: Seq<char>,
)
    requires
        r.wf(),
        cmd !is Forget,
        cmd != (PeerCommand::AdapterStateChanged { powered: false }),
        r.peer(id) matches Some(p) && p.phase is Connected && p.prefix is Some,
        r.step(cmd, at, a).registry.peer(id) matches Some(q) ==> q.phase !is Connected,
    ensures
        remembers(r.step(cmd, at, a).actions, r.peer(id)->0.prefix->0, id, at),
{
    let i = place(r.peers, id);
    let p = r.peers[i];
    let prefix = p.prefix->0;
    let after = r.step(cmd, at, a).registry;
    if target(cmd) is Some {
        if target(cmd) != Some(id) {
            other_peers_are_untouched(r, cmd, at, a, id);
        } else {
            lemma_step_same_but(r, cmd, at, a);
            lemma_same_but(r.peers, after.peers, id);
            assert(after.peers[i].device_id == id);
            lemma_place(after.peers, id, i);
            match cmd {
                PeerCommand::CentralDisconnected { cause, .. } => {
                    let reason = DisconnectReason::of_cause(cause);
                    let drained = p.drained(at, reason);
                    lemma_drained_remembers(p, at, reason, p.close_channel(reason));
                    lemma_remembers_in(
                        drained.actions + p.close_channel(reason),
                        if reason is Gatt133 {
                            seq![ActionView::Refresh { device_id: p.device_id }]
                        } else {
                            Seq::empty()
                        },
                        prefix,
                        id,
                        at,
                    );
                },
                PeerCommand::Stalled { .. } => {
                    let reason = DisconnectReason::LinkDead;
                    lemma_drained_remembers(p, at, reason, p.close_channel(reason));
                },
                PeerCommand::ProtocolVersionMismatch { .. } => {
                    let reason = DisconnectReason::ProtocolMismatch;
                    lemma_drained_remembers(p, at, reason, p.close_channel(reason));
                },
                _ => {},
            }
        }
    } else {
        match cmd {
            PeerCommand::Tick(now) => {
                let moved = swept(r.peers, tick_of(now));
                let keep = |p: PeerView| !p.expired(now);
                lemma_swept_distinct(r.peers, now);
                lemma_filter_distinct(moved, keep);
                assert(after.peers == moved.filter(keep));
                assert(moved[i] == p && keep(moved[i]));
                moved.lemma_filter_contains(keep, i);
                assert(after.peers.contains(moved[i]));
                let j = choose|j: int| 0 <= j < after.peers.len() && after.peers[j] == moved[i];
                lemma_place(after.peers, id, j);
            },
            PeerCommand::RestoreFromAdapter { devices } => {
                lemma_restored_keeps(r, at, devices@, devices@.len());
                lemma_indexwise_gens(r.peers, after.peers);
                lemma_restored_connected(r, at, devices@, devices@.len(), i);
                lemma_place(after.peers, id, i);
            },
            PeerCommand::AdapterStateChanged { .. } | PeerCommand::Shutdown => {
                assert forall|k: int| 0 <= k < after.peers.len() implies keeps(
                    r.peers[k],
                    #[trigger] after.peers[k],
                ) by {}
                lemma_indexwise_gens(r.peers, after.peers);
                assert(keeps(r.peers[i], after.peers[i]));
                lemma_place(after.peers, id, i);
            },
            PeerCommand::VerifiedEndpoint { endpoint_id } => {
                let key = endpoint_prefix(endpoint_id);
                let p1 = r.key_recorded(at, endpoint_id);
                let cancelled = p1.dials_cancelled(at, key);
                let p2 = cancelled.registry;
                let dedup = p2.deduplicated(at, endpoint_id);
                let p3 = dedup.registry;
                let upgrades = p3.upgrades_started(key);
                assert(p2.peers[i].phase is Connected);
                assert(p2.peers[i].prefix == Some(prefix));
                assert(p2.peers[i].device_id == id);
                assert forall|k: int| 0 <= k < after.peers.len() implies keeps(
                    r.peers[k],
                    #[trigger] after.peers[k],
                ) by {
                    assert(keeps(r.peers[k], p1.peers[k]));
                    assert(keeps(r.peers[k], p2.peers[k]));
                    assert(keeps(r.peers[k], p3.peers[k]));
                }
                lemma_indexwise_gens(r.peers, after.peers);
                assert(keeps(r.peers[i], after.peers[i]));
                lemma_place(after.peers, id, i);
                let f = dedup_of(p2.peers, at, key, p2.my_endpoint@, endpoint_id@);
                assert(contested(p2.peers, key));
                assert(f(i, p2.peers[i]).peer == p3.peers[i]);
                assert(p3.peers[i].phase !is Connected);
                lemma_drained_remembers(
                    p2.peers[i],
                    at,
                    DisconnectReason::DedupLoser,
                    Seq::empty(),
                );
                lemma_sweep_remembers(p2.peers, f, p2.peers.len(), i, prefix, at);
                lemma_remembers_in(cancelled.actions, dedup.actions, prefix, id, at);
                lemma_remembers_in(
                    cancelled.actions + dedup.actions,
                    upgrades.actions,
                    prefix,
                    id,
                    at,
                );
            },
            _ => {},
        }
    }
}

/// A peer that is given up after the last attempt to reach it is dropped from
/// the store.
pub proof fn unreachable_peers_are_dropped_from_the_store(
    p: PeerView,
    now: Instant,
    error: Seq<char>,
)
    requires
        p.phase !is Dead,
        p.connect_failed(now, error).peer.phase is Dead,
        p.prefix is Some,
    ensures
        p.connect_failed(now, error).peer.phase == (PeerPhase::Dead {
            reason: DeadReason::MaxRetries,
            at: now,
        }),
        p.connect_failed(now, error).actions.contains(
            ActionView::ForgetPeerStore { prefix: p.prefix->0 },
        ),
{
    let actions = p.connect_failed(now, error).actions;
    assert(actions[1] == (ActionView::ForgetPeerStore { prefix: p.prefix->0 }));
}

/// Trouble with L2CAP falls back to GATT: during a handshake the pipe starts
/// over GATT; a live link keeps its channel; and after a handover that did not
/// get through, the pipe starts over GATT again.
pub proof fn l2cap_trouble_falls_back_to_gatt(p: PeerView, now: Instant, error: Seq<char>)
    ensures
        p.phase matches PeerPhase::Handshaking { channel, .. } ==> {
            let step = p.l2cap_open_failed(now, error);
            &&& step.peer.phase matches PeerPhase::Connected { channel: live, .. } && live
                == channel
            &&& step.actions[0] matches ActionView::StartDataPipe { path, .. } && path is Gatt
        },
        p.phase matches PeerPhase::Connected { since, channel, tx_gen, upgrading: true } ==> {
            let step = p.l2cap_open_failed(now, error);
            &&& step.peer.phase == (PeerPhase::Connected {
                since,
                channel,
                tx_gen,
                upgrading: false,
            })
            &&& step.actions.len() == 0
        },
        p.handover_timed_out().actions[0] is RevertToGattPipe,
{
}

/// A live link whose upgrade failed does not try again, whatever is proved
/// about its peer.
pub proof fn failed_upgrades_are_not_repeated(
    p: PeerView,
    now: Instant,
    error: Seq<char>,
    prefix: KeyPrefix,
)
    requires
        p.phase matches PeerPhase::Connected { upgrading: true, .. },
    ensures
        p.l2cap_open_failed(now, error).peer.upgrade_started(prefix).actions.len() == 0,
        p.handover_timed_out().peer.upgrade_started(prefix).actions.len() == 0,
{
}

/// What a snapshot says of each peer, in order: the name of its phase, its
/// generation, how often it failed in a row, its role, whether a move to L2CAP
/// failed, its key, and, while it is connected, its path.
pub proof fn snapshots_say_how_peers_stand(peers: Seq<PeerView>, i: int)
    requires
        0 <= i < peers.len(),
    ensures
        ({
            let p = peers[i];
            let (id, s) = summaries(peers)[i];
            &&& summaries(peers).len() == peers.len()
            &&& id == p.device_id
            &&& s.tx_gen == p.tx_gen
            &&& s.consecutive_failures == p.consecutive_failures
            &&& s.role == p.role
            &&& s.l2cap_upgrade_failed == p.l2cap_upgrade_failed
            &&& s.verified_endpoint == p.verified_endpoint
            &&& match p.phase {
                PeerPhase::Connected { channel, .. } => s.connect_path == Some(channel.path),
                _ => s.connect_path is None,
            }
            &&& s.phase_kind is Unknown <==> p.phase is Unknown
            &&& s.phase_kind is Discovered <==> p.phase is Discovered
            &&& s.phase_kind is PendingDial <==> p.phase is PendingDial
            &&& s.phase_kind is Connecting <==> p.phase is Connecting
            &&& s.phase_kind is Handshaking <==> p.phase is Handshaking
            &&& s.phase_kind is Connected <==> p.phase is Connected
            &&& s.phase_kind is Draining <==> p.phase is Draining
            &&& s.phase_kind is Reconnecting <==> p.phase is Reconnecting
            &&& s.phase_kind is Dead <==> p.phase is Dead
            &&& s.phase_kind is Restoring <==> p.phase is Restoring
        }),
{
}

/// Far from the end of every counter and of the clock, any command can be
/// handled.
pub proof fn ordinary_commands_can_be_handled(r: RegistryView, cmd: PeerCommand, at: Clock)
    requires
        r.wf(),
        at.now.nanos + 30_000_000_000 <= u64::MAX,
        forall|i: int|
            0 <= i < r.peers.len() ==> (#[trigger] r.peers[i]).tx_gen < u64::MAX
                && r.peers[i].consecutive_failures < u32::MAX && (r.peers[i].phase
                matches PeerPhase::Connecting { attempt, .. } ==> attempt < u32::MAX),
    ensures
        r.can_handle(cmd, at),
{
    assert forall|id: Seq<char>|
        known(r.peers, id) implies (#[trigger] r.peer(id))->0.tx_gen < u64::MAX && r.peer(
        id,
    )->0.consecutive_failures < u32::MAX && (r.peer(id)->0.phase matches PeerPhase::Connecting {
        attempt,
        ..
    } ==> attempt < u32::MAX) by {
        let i = place(r.peers, id);
        assert(r.peers[i].tx_gen < u64::MAX);
    }
    if let PeerCommand::ConnectFailed { device_id, .. } = cmd {
        if let Some(p) = r.peer(device_id@) {
            if let PeerPhase::Connecting { attempt, .. } = p.phase {
                crate::lifecycle::backoff_never_shrinks(
                    (attempt + 1) as u32,
                    (attempt + 1) as u32,
                );
            }
        }
    }
    if let PeerCommand::Advertised { prefix, .. } = cmd {
        crate::dedup::dials_are_held_back_for_about_two_seconds(at.now, prefix);
    }
}

} // verus!
