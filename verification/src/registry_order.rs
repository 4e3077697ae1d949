//! How dials, pipes and transmit generations go together across commands.

use vstd::prelude::*;

use crate::keys::endpoint_prefix;
use crate::lifecycle::{acks, next_generation, ChannelAnswers, Step};
use crate::peer::{
    ActionView, BleDevice, ChannelHandle, ConnectPath, ConnectRole, DisconnectCause,
    DisconnectReason, EndpointId, ErrorKind, KeyPrefix, L2capChannel, PeerCommand, PeerPhase,
    PeerView, PendingSendView, SnapshotView,
};
use crate::registry::{
    cancel_of, dedup_of, distinct, known, lemma_filter_distinct, lemma_place, place, shutdown_of,
    sweep_actions, swept, tick_of, upgrade_of, Outcome, RegistryView,
};
use crate::registry_laws::{
    all_attempts_bounded, all_generations_agree, attempts_stay_bounded,
    generations_never_fall_back, generations_stay_in_agreement, lemma_swept_distinct,
    other_peers_are_untouched, target,
};
use crate::time::{Clock, Instant};

verus! {

/// How many of the actions are of a kind.
pub open spec fn count(actions: Seq<ActionView>, kind: spec_fn(ActionView) -> bool) -> nat
    decreases actions.len(),
{
    if actions.len() == 0 {
        0
    } else {
        count(actions.drop_last(), kind) + if kind(actions.last()) {
            1nat
        } else {
            0
        }
    }
}

/// The actions that start a pipe to a device.
pub open spec fn starts_pipe_to(id: Seq<char>) -> spec_fn(ActionView) -> bool {
    |x: ActionView| x matches ActionView::StartDataPipe { device_id, .. } && device_id == id
}

/// The actions that dial a device.
pub open spec fn dials(id: Seq<char>) -> spec_fn(ActionView) -> bool {
    |x: ActionView| x matches ActionView::StartConnect { device_id, .. } && device_id == id
}

/// How many pipes to a device the actions start.
pub open spec fn pipes_started(actions: Seq<ActionView>, id: Seq<char>) -> nat {
    count(actions, starts_pipe_to(id))
}

/// How often the actions dial a device.
pub open spec fn dials_made(actions: Seq<ActionView>, id: Seq<char>) -> nat {
    count(actions, dials(id))
}

/// The action dials a device for the given attempt.
pub open spec fn dial(id: Seq<char>, attempt: u32) -> ActionView {
    ActionView::StartConnect { device_id: id, attempt }
}

proof fn lemma_count_none(actions: Seq<ActionView>, kind: spec_fn(ActionView) -> bool)
    requires
        forall|k: int| 0 <= k < actions.len() ==> !kind(#[trigger] actions[k]),
    ensures
        count(actions, kind) == 0,
    decreases actions.len(),
{
    if actions.len() > 0 {
        let rest = actions.drop_last();
        assert forall|k: int| 0 <= k < rest.len() implies !kind(#[trigger] rest[k]) by {
            assert(rest[k] == actions[k]);
        }
        lemma_count_none(rest, kind);
        assert(!kind(actions[actions.len() - 1]));
    }
}

proof fn lemma_count_one(actions: Seq<ActionView>, kind: spec_fn(ActionView) -> bool, at: int)
    requires
        0 <= at < actions.len(),
        kind(actions[at]),
        forall|k: int| 0 <= k < actions.len() && k != at ==> !kind(#[trigger] actions[k]),
    ensures
        count(actions, kind) == 1,
    decreases actions.len(),
{
    let rest = actions.drop_last();
    assert forall|k: int| 0 <= k < rest.len() && k != at implies !kind(#[trigger] rest[k]) by {
        assert(rest[k] == actions[k]);
    }
    if at == actions.len() - 1 {
        lemma_count_none(rest, kind);
    } else {
        assert(rest[at] == actions[at]);
        lemma_count_one(rest, kind, at);
        assert(!kind(actions[actions.len() - 1]));
    }
}

proof fn lemma_count_concat(
    a: Seq<ActionView>,
    b: Seq<ActionView>,
    kind: spec_fn(ActionView) -> bool,
)
    ensures
        count(a + b, kind) == count(a, kind) + count(b, kind),
    decreases b.len(),
{
    if b.len() == 0 {
        assert(a + b =~= a);
    } else {
        assert((a + b).drop_last() =~= a + b.drop_last());
        assert((a + b).last() == b.last());
        lemma_count_concat(a, b.drop_last(), kind);
    }
}

/// An action is among others exactly if it is counted there.
proof fn lemma_count_contains(actions: Seq<ActionView>, x: ActionView)
    ensures
        actions.contains(x) <==> count(actions, |y: ActionView| y == x) > 0,
    decreases actions.len(),
{
    let kind = |y: ActionView| y == x;
    if actions.len() > 0 {
        let rest = actions.drop_last();
        lemma_count_contains(rest, x);
        if rest.contains(x) {
            let k = choose|k: int| 0 <= k < rest.len() && rest[k] == x;
            assert(actions[k] == x);
        }
        if actions.last() == x {
            assert(actions[actions.len() - 1] == x);
        }
        if actions.contains(x) {
            let k = choose|k: int| 0 <= k < actions.len() && actions[k] == x;
            if k < rest.len() {
                assert(rest[k] == x);
            }
        }
    }
}

/// The device that an action dials or starts a pipe to.
pub open spec fn moved_device(x: ActionView) -> Option<Seq<char>> {
    match x {
        ActionView::StartDataPipe { device_id, .. } => Some(device_id),
        ActionView::StartConnect { device_id, .. } => Some(device_id),
        _ => None,
    }
}

/// The actions dial no other device than this one and start pipes to no other.
spec fn only_about(actions: Seq<ActionView>, id: Seq<char>) -> bool {
    forall|k: int|
        0 <= k < actions.len() ==> (moved_device(#[trigger] actions[k]) matches Some(d) ==> d == id)
}

/// The actions dial nothing and start no pipe.
spec fn still(actions: Seq<ActionView>) -> bool {
    forall|k: int| 0 <= k < actions.len() ==> moved_device(#[trigger] actions[k]) is None
}

/// The attempt with which a peer has come to be dialled between two phases.
pub open spec fn newly_dialed(before: PeerPhase, after: PeerPhase) -> Option<u32> {
    match after {
        PeerPhase::Connecting { attempt, path: ConnectPath::Gatt, .. } => if before is Connecting {
            None
        } else {
            Some(attempt)
        },
        _ => None,
    }
}

/// What a peer's event starts goes with what becomes of the peer.
spec fn tidy(p: PeerView, s: Step) -> bool {
    let id = p.device_id;
    &&& s.peer.device_id == id
    &&& only_about(s.actions, id)
    &&& pipes_started(s.actions, id) <= 1
    &&& s.peer.tx_gen == if pipes_started(s.actions, id) == 1 {
        p.next_gen()
    } else {
        p.tx_gen
    }
    &&& pipes_started(s.actions, id) == 1 ==> s.peer.phase is Connected
    &&& dials_made(s.actions, id) <= 1
    &&& forall|n: u32| #[trigger]
        s.actions.contains(dial(id, n)) <==> newly_dialed(p.phase, s.peer.phase) == Some(n)
}

/// An event that starts nothing leaves the generation as it is and does not
/// bring the peer to be dialled.
spec fn quiet_step(p: PeerView, s: Step) -> bool {
    &&& still(s.actions)
    &&& s.peer.device_id == p.device_id
    &&& s.peer.tx_gen == p.tx_gen
    &&& s.peer.phase is Connecting ==> p.phase is Connecting
}

proof fn lemma_still(actions: Seq<ActionView>, id: Seq<char>)
    requires
        still(actions),
    ensures
        only_about(actions, id),
        pipes_started(actions, id) == 0,
        dials_made(actions, id) == 0,
        forall|n: u32| !#[trigger] actions.contains(dial(id, n)),
{
    assert forall|k: int| 0 <= k < actions.len() implies !starts_pipe_to(id)(
        #[trigger] actions[k],
    ) && !dials(id)(actions[k]) by {
        assert(moved_device(actions[k]) is None);
    }
    lemma_count_none(actions, starts_pipe_to(id));
    lemma_count_none(actions, dials(id));
    assert forall|n: u32| !#[trigger] actions.contains(dial(id, n)) by {
        if actions.contains(dial(id, n)) {
            let k = choose|k: int| 0 <= k < actions.len() && actions[k] == dial(id, n);
            assert(moved_device(actions[k]) is None);
        }
    }
}

/// Actions that are all about one device count for no other.
proof fn lemma_about_another(actions: Seq<ActionView>, id: Seq<char>, other: Seq<char>)
    requires
        only_about(actions, id),
        id != other,
    ensures
        pipes_started(actions, other) == 0,
        dials_made(actions, other) == 0,
        forall|n: u32| !#[trigger] actions.contains(dial(other, n)),
{
    assert forall|k: int| 0 <= k < actions.len() implies !starts_pipe_to(other)(
        #[trigger] actions[k],
    ) && !dials(other)(actions[k]) by {
        assert(moved_device(actions[k]) matches Some(d) ==> d == id);
    }
    lemma_count_none(actions, starts_pipe_to(other));
    lemma_count_none(actions, dials(other));
    assert forall|n: u32| !#[trigger] actions.contains(dial(other, n)) by {
        if actions.contains(dial(other, n)) {
            let k = choose|k: int| 0 <= k < actions.len() && actions[k] == dial(other, n);
            assert(moved_device(actions[k]) == Some(other));
        }
    }
}

proof fn lemma_quiet_tidy(p: PeerView, s: Step)
    requires
        quiet_step(p, s),
    ensures
        tidy(p, s),
{
    lemma_still(s.actions, p.device_id);
}

/// The actions but the one at `at` dial nothing and start no pipe.
spec fn still_but(actions: Seq<ActionView>, at: int) -> bool {
    &&& 0 <= at < actions.len()
    &&& forall|k: int|
        0 <= k < actions.len() && k != at ==> moved_device(#[trigger] actions[k]) is None
}

proof fn lemma_pipe_tidy(p: PeerView, s: Step, at: int)
    requires
        still_but(s.actions, at),
        s.actions[at] matches ActionView::StartDataPipe { device_id, .. } && device_id
            == p.device_id,
        s.peer.device_id == p.device_id,
        s.peer.tx_gen == p.next_gen(),
        s.peer.phase is Connected,
    ensures
        tidy(p, s),
{
    let id = p.device_id;
    assert forall|k: int| 0 <= k < s.actions.len() && k != at implies !starts_pipe_to(id)(
        #[trigger] s.actions[k],
    ) by {
        assert(moved_device(s.actions[k]) is None);
    }
    assert forall|k: int| 0 <= k < s.actions.len() implies !dials(id)(#[trigger] s.actions[k]) by {
        if k != at {
            assert(moved_device(s.actions[k]) is None);
        }
    }
    lemma_count_one(s.actions, starts_pipe_to(id), at);
    lemma_count_none(s.actions, dials(id));
    assert forall|n: u32| !#[trigger] s.actions.contains(dial(id, n)) by {
        if s.actions.contains(dial(id, n)) {
            let k = choose|k: int| 0 <= k < s.actions.len() && s.actions[k] == dial(id, n);
            assert(!dials(id)(s.actions[k]));
        }
    }
}

/// A dial is the only action, and the peer is dialled for that attempt.
proof fn lemma_dial_tidy(p: PeerView, q: PeerView, now: Instant, attempt: u32)
    requires
        p.phase !is Connecting,
        q.device_id == p.device_id,
        q.tx_gen == p.tx_gen,
    ensures
        tidy(p, q.dialed(now, attempt)),
{
    let id = p.device_id;
    let s = q.dialed(now, attempt);
    assert(s.actions[0] == dial(id, attempt));
    assert forall|k: int| 0 <= k < s.actions.len() implies !starts_pipe_to(id)(
        #[trigger] s.actions[k],
    ) by {}
    lemma_count_none(s.actions, starts_pipe_to(id));
    lemma_count_one(s.actions, dials(id), 0);
    assert forall|n: u32| #[trigger] s.actions.contains(dial(id, n)) <==> n == attempt by {
        if n == attempt {
            assert(s.actions[0] == dial(id, n));
        }
    }
}

proof fn lemma_still_concat(a: Seq<ActionView>, b: Seq<ActionView>)
    requires
        still(a),
        still(b),
    ensures
        still(a + b),
{
    assert forall|k: int| 0 <= k < (a + b).len() implies moved_device(
        #[trigger] (a + b)[k],
    ) is None by {
        if k >= a.len() {
            assert((a + b)[k] == b[k - a.len()]);
        } else {
            assert((a + b)[k] == a[k]);
        }
    }
}

proof fn lemma_drained_quiet(p: PeerView, at: Clock, reason: DisconnectReason)
    ensures
        quiet_step(p, p.drained(at, reason)),
        still(p.close_channel(reason)),
{
    let failed = acks(p.pending_sends, Err(ErrorKind::BrokenPipe));
    let more = match p.prefix {
        Some(prefix) if p.phase is Connected => seq![
            ActionView::PutPeerStore {
                prefix,
                snapshot: SnapshotView {
                    endpoint_id: p.verified_endpoint,
                    last_device_id: p.device_id,
                    last_seen: at.wall,
                },
            },
        ],
        _ => Seq::empty(),
    };
    assert(p.drained(at, reason).actions == failed + more);
    lemma_still_concat(failed, more);
}

proof fn lemma_disconnected_tidy(p: PeerView, at: Clock, cause: DisconnectCause)
    ensures
        tidy(p, p.central_disconnected(at, cause)),
{
    let reason = DisconnectReason::of_cause(cause);
    lemma_drained_quiet(p, at, reason);
    let drained = p.drained(at, reason).actions;
    let more = if reason is Gatt133 {
        seq![ActionView::Refresh { device_id: p.device_id }]
    } else {
        Seq::empty()
    };
    lemma_still_concat(drained, p.close_channel(reason));
    lemma_still_concat(drained + p.close_channel(reason), more);
    lemma_quiet_tidy(p, p.central_disconnected(at, cause));
}

proof fn lemma_stalled_tidy(p: PeerView, at: Clock)
    ensures
        tidy(p, p.stalled(at)),
{
    let reason = DisconnectReason::LinkDead;
    lemma_drained_quiet(p, at, reason);
    lemma_still_concat(p.drained(at, reason).actions, p.close_channel(reason));
    lemma_quiet_tidy(p, p.stalled(at));
}

proof fn lemma_mismatched_tidy(p: PeerView, at: Clock, got: u8, want: u8)
    ensures
        tidy(p, p.version_mismatched(at, got, want)),
{
    let reason = DisconnectReason::ProtocolMismatch;
    lemma_drained_quiet(p, at, reason);
    lemma_still_concat(p.drained(at, reason).actions, p.close_channel(reason));
    lemma_quiet_tidy(p, p.version_mismatched(at, got, want));
}

proof fn lemma_forgotten_tidy(p: PeerView, now: Instant)
    ensures
        tidy(p, p.forgotten(now)),
{
    let failed = acks(p.pending_sends, Err(ErrorKind::ConnectionAborted));
    lemma_still_concat(failed, p.close_channel(DisconnectReason::LocalClose));
    lemma_quiet_tidy(p, p.forgotten(now));
}

proof fn lemma_advertised_tidy(
    p: PeerView,
    now: Instant,
    prefix: KeyPrefix,
    suppressed: bool,
    defer: bool,
)
    ensures
        tidy(p, p.advertised(now, prefix, suppressed, defer)),
{
    let s = p.advertised(now, prefix, suppressed, defer);
    let seen = PeerView { last_adv: Some(now), prefix: Some(prefix), ..p };
    if s == seen.dialed(now, 0) && p.phase !is Connecting {
        lemma_dial_tidy(p, seen, now, 0);
    } else {
        match p.phase {
            PeerPhase::Reconnecting { attempt, next_at, .. } if !suppressed && next_at.nanos
                <= now.nanos => {
                lemma_dial_tidy(p, seen, now, attempt);
            },
            _ => {
                lemma_quiet_tidy(p, s);
            },
        }
    }
}

proof fn lemma_sent_tidy(p: PeerView, now: Instant, send: PendingSendView, a: ChannelAnswers)
    ensures
        tidy(p, p.sent(now, send, a)),
{
    if p.phase is Discovered {
        let buffered = PeerView { pending_sends: p.pending_sends.push(send), ..p };
        lemma_dial_tidy(p, buffered, now, 0);
    } else {
        lemma_quiet_tidy(p, p.sent(now, send, a));
    }
}

proof fn lemma_connect_succeeded_tidy(p: PeerView, now: Instant, channel: ChannelHandle)
    ensures
        tidy(p, p.connect_succeeded(now, channel)),
{
    let s = p.connect_succeeded(now, channel);
    if p.phase is Connecting {
        lemma_pipe_tidy(p, s, 1);
    } else {
        lemma_quiet_tidy(p, s);
    }
}

proof fn lemma_connect_failed_tidy(p: PeerView, now: Instant, error: Seq<char>)
    ensures
        tidy(p, p.connect_failed(now, error)),
{
    lemma_quiet_tidy(p, p.connect_failed(now, error));
}

proof fn lemma_fragment_tidy(p: PeerView, now: Instant, fragment: Seq<u8>, a: ChannelAnswers)
    ensures
        tidy(p, p.fragment_received(now, fragment, a)),
{
    let s = p.fragment_received(now, fragment, a);
    if p.phase is Connected || p.phase is Restoring {
        lemma_quiet_tidy(p, s);
    } else {
        lemma_pipe_tidy(p, s, 0);
    }
}

proof fn lemma_l2cap_opened_tidy(p: PeerView, now: Instant, opened: L2capChannel)
    ensures
        tidy(p, p.l2cap_opened(now, opened)),
{
    let s = p.l2cap_opened(now, opened);
    if p.phase is Handshaking {
        lemma_pipe_tidy(p, s, 0);
    } else {
        lemma_quiet_tidy(p, s);
    }
}

proof fn lemma_l2cap_failed_tidy(p: PeerView, now: Instant, error: Seq<char>)
    ensures
        tidy(p, p.l2cap_open_failed(now, error)),
{
    let s = p.l2cap_open_failed(now, error);
    if p.phase is Handshaking {
        lemma_pipe_tidy(p, s, 0);
    } else {
        lemma_quiet_tidy(p, s);
    }
}

proof fn lemma_l2cap_accepted_tidy(p: PeerView, now: Instant, channel: L2capChannel)
    ensures
        tidy(p, p.l2cap_accepted(now, channel)),
{
    let s = p.l2cap_accepted(now, channel);
    if p.pipe is Some {
        lemma_quiet_tidy(p, s);
    } else {
        lemma_pipe_tidy(p, s, 0);
    }
}

proof fn lemma_subscribed_tidy(p: PeerView, now: Instant)
    ensures
        tidy(p, p.client_subscribed(now)),
{
    let s = p.client_subscribed(now);
    if p.phase is Connected && p.role is Peripheral {
        lemma_quiet_tidy(p, s);
    } else {
        lemma_pipe_tidy(p, s, 0);
    }
}

proof fn lemma_ticked_tidy(p: PeerView, now: Instant)
    ensures
        tidy(p, p.ticked(now)),
{
    match p.phase {
        PeerPhase::Reconnecting { attempt, next_at, .. } if next_at.nanos <= now.nanos => {
            lemma_dial_tidy(p, p, now, attempt);
        },
        PeerPhase::PendingDial { deadline, .. } if deadline.nanos <= now.nanos => {
            lemma_dial_tidy(p, p, now, 0);
        },
        _ => {
            lemma_quiet_tidy(p, p.ticked(now));
        },
    }
}

/// The phase of a device; that of a blank entry if it is not known.
pub open spec fn phase_of(r: RegistryView, id: Seq<char>) -> PeerPhase {
    match r.peer(id) {
        Some(p) => p.phase,
        None => PeerPhase::Unknown,
    }
}

/// The transmit generation of a device; zero if it is not known.
pub open spec fn generation_of(r: RegistryView, id: Seq<char>) -> u64 {
    match r.peer(id) {
        Some(p) => p.tx_gen,
        None => 0,
    }
}

/// What a command starts for a device goes with what becomes of the device.
spec fn orderly(r: RegistryView, o: Outcome, id: Seq<char>) -> bool {
    &&& pipes_started(o.actions, id) <= 1
    &&& (o.registry.peer(id) matches Some(q) ==> {
        &&& q.tx_gen == if pipes_started(o.actions, id) == 1 {
            next_generation(generation_of(r, id))
        } else {
            generation_of(r, id)
        }
        &&& pipes_started(o.actions, id) == 1 ==> q.phase is Connected
    })
    &&& dials_made(o.actions, id) <= 1
    &&& forall|n: u32| #[trigger]
        o.actions.contains(dial(id, n)) <==> newly_dialed(phase_of(r, id), phase_of(o.registry, id))
            == Some(n)
}

/// Nothing is started, and peer by peer nothing changes that would go with it.
spec fn quiet(r: RegistryView, o: Outcome) -> bool {
    &&& still(o.actions)
    &&& o.registry.peers.len() == r.peers.len()
    &&& forall|i: int|
        0 <= i < r.peers.len() ==> {
            let q = #[trigger] o.registry.peers[i];
            &&& q.device_id == r.peers[i].device_id
            &&& q.tx_gen == r.peers[i].tx_gen
            &&& q.phase is Connecting ==> r.peers[i].phase is Connecting
        }
}

proof fn lemma_quiet_orderly(r: RegistryView, o: Outcome, id: Seq<char>)
    requires
        r.wf(),
        quiet(r, o),
    ensures
        orderly(r, o, id),
        o.registry.wf(),
{
    let after = o.registry;
    lemma_still(o.actions, id);
    assert forall|i: int, j: int| 0 <= i < j < after.peers.len() implies (
    #[trigger] after.peers[i]).device_id != (#[trigger] after.peers[j]).device_id by {
        assert(r.peers[i].device_id != r.peers[j].device_id);
    }
    if known(after.peers, id) {
        let i = place(after.peers, id);
        assert(after.peers[i].device_id == id);
        lemma_place(r.peers, id, i);
    }
}

proof fn lemma_quiet_after(r: RegistryView, first: Outcome, next: Outcome)
    requires
        quiet(r, first),
        quiet(first.registry, next),
    ensures
        quiet(r, RegistryView::after(first, next)),
{
    lemma_still_concat(first.actions, next.actions);
    let after = next.registry;
    assert forall|i: int| 0 <= i < r.peers.len() implies {
        let q = #[trigger] after.peers[i];
        &&& q.device_id == r.peers[i].device_id
        &&& q.tx_gen == r.peers[i].tx_gen
        &&& q.phase is Connecting ==> r.peers[i].phase is Connecting
    } by {
        assert(first.registry.peers[i].device_id == r.peers[i].device_id);
    }
}

proof fn lemma_sweep_still(peers: Seq<PeerView>, f: spec_fn(int, PeerView) -> Step, n: nat)
    requires
        n <= peers.len(),
        forall|i: int| 0 <= i < peers.len() ==> quiet_step(#[trigger] peers[i], f(i, peers[i])),
    ensures
        still(sweep_actions(peers, f, n)),
    decreases n,
{
    if n > 0 {
        lemma_sweep_still(peers, f, (n - 1) as nat);
        assert(quiet_step(peers[n - 1], f(n - 1, peers[n - 1])));
        lemma_still_concat(
            sweep_actions(peers, f, (n - 1) as nat),
            f(n - 1, peers[n - 1]).actions,
        );
    }
}

proof fn lemma_sweep_quiet(r: RegistryView, f: spec_fn(int, PeerView) -> Step)
    requires
        forall|i: int|
            0 <= i < r.peers.len() ==> quiet_step(#[trigger] r.peers[i], f(i, r.peers[i])),
    ensures
        quiet(r, r.sweep(f)),
{
    lemma_sweep_still(r.peers, f, r.peers.len());
    let after = r.sweep(f).registry;
    assert forall|i: int| 0 <= i < r.peers.len() implies {
        let q = #[trigger] after.peers[i];
        &&& q.device_id == r.peers[i].device_id
        &&& q.tx_gen == r.peers[i].tx_gen
        &&& q.phase is Connecting ==> r.peers[i].phase is Connecting
    } by {
        assert(quiet_step(r.peers[i], f(i, r.peers[i])));
    }
}

proof fn lemma_restored_quiet(r: RegistryView, at: Clock, devices: Seq<BleDevice>, n: nat)
    ensures
        quiet(r, r.restored(at, devices, n)),
    decreases n,
{
    if n > 0 {
        lemma_restored_quiet(r, at, devices, (n - 1) as nat);
        let before = r.restored(at, devices, (n - 1) as nat);
        let next = before.registry.restored_one(at, devices[n - 1].id@);
        assert(quiet(before.registry, next));
        lemma_quiet_after(r, before, next);
    }
}

proof fn lemma_verified_quiet(r: RegistryView, at: Clock, key: EndpointId)
    ensures
        quiet(r, r.verified_endpoint(at, key)),
{
    let prefix = endpoint_prefix(key);
    let recorded = Outcome { registry: r.key_recorded(at, key), actions: Seq::empty() };
    let p1 = recorded.registry;
    assert(quiet(r, recorded));
    let cancelled = p1.dials_cancelled(at, prefix);
    assert forall|i: int| 0 <= i < p1.peers.len() implies quiet_step(
        #[trigger] p1.peers[i],
        cancel_of(at, prefix)(i, p1.peers[i]),
    ) by {
        lemma_drained_quiet(p1.peers[i], at, DisconnectReason::DedupLoser);
    }
    lemma_sweep_quiet(p1, cancel_of(at, prefix));
    lemma_quiet_after(r, recorded, cancelled);
    assert(Seq::<ActionView>::empty() + cancelled.actions =~= cancelled.actions);
    assert(quiet(r, cancelled));
    let p2 = cancelled.registry;
    let dedup = p2.deduplicated(at, key);
    let f = dedup_of(p2.peers, at, prefix, p2.my_endpoint@, key@);
    assert forall|i: int| 0 <= i < p2.peers.len() implies quiet_step(
        #[trigger] p2.peers[i],
        f(i, p2.peers[i]),
    ) by {
        lemma_drained_quiet(p2.peers[i], at, DisconnectReason::DedupLoser);
    }
    lemma_sweep_quiet(p2, f);
    assert(quiet(p2, dedup));
    lemma_quiet_after(r, cancelled, dedup);
    let settled = RegistryView::after(cancelled, dedup);
    let p3 = settled.registry;
    let upgrades = p3.upgrades_started(prefix);
    assert forall|i: int| 0 <= i < p3.peers.len() implies quiet_step(
        #[trigger] p3.peers[i],
        upgrade_of(prefix)(i, p3.peers[i]),
    ) by {}
    lemma_sweep_quiet(p3, upgrade_of(prefix));
    assert(quiet(p3, upgrades));
    lemma_quiet_after(r, settled, upgrades);
}

/// Of the actions of a sweep those about one device are that device's own.
proof fn lemma_sweep_count(
    peers: Seq<PeerView>,
    f: spec_fn(int, PeerView) -> Step,
    kind: spec_fn(ActionView) -> bool,
    id: Seq<char>,
    n: nat,
)
    requires
        distinct(peers),
        n <= peers.len(),
        forall|i: int|
            0 <= i < peers.len() ==> only_about(
                f(i, #[trigger] peers[i]).actions,
                peers[i].device_id,
            ),
        forall|x: ActionView| #[trigger] kind(x) ==> moved_device(x) == Some(id),
    ensures
        count(sweep_actions(peers, f, n), kind) == if known(peers, id) && place(peers, id) < n {
            count(f(place(peers, id), peers[place(peers, id)]).actions, kind)
        } else {
            0
        },
    decreases n,
{
    if n > 0 {
        let i = n - 1;
        let own = f(i, peers[i]).actions;
        lemma_sweep_count(peers, f, kind, id, i as nat);
        lemma_count_concat(sweep_actions(peers, f, i as nat), own, kind);
        assert(only_about(own, peers[i].device_id));
        if peers[i].device_id == id {
            lemma_place(peers, id, i);
        } else {
            assert forall|k: int| 0 <= k < own.len() implies !kind(#[trigger] own[k]) by {
                assert(moved_device(own[k]) matches Some(d) ==> d == peers[i].device_id);
            }
            lemma_count_none(own, kind);
        }
    }
}

proof fn lemma_ticked_orderly(r: RegistryView, now: Instant, id: Seq<char>)
    requires
        r.wf(),
    ensures
        orderly(r, r.ticked(now), id),
{
    let f = tick_of(now);
    let moved = swept(r.peers, f);
    let keep = |p: PeerView| !p.expired(now);
    let o = r.ticked(now);
    let after = o.registry;
    lemma_swept_distinct(r.peers, now);
    lemma_filter_distinct(moved, keep);
    assert(after.peers == moved.filter(keep));
    assert forall|i: int| 0 <= i < r.peers.len() implies tidy(
        #[trigger] r.peers[i],
        f(i, r.peers[i]),
    ) by {
        lemma_ticked_tidy(r.peers[i], now);
    }
    let len = r.peers.len();
    lemma_sweep_count(r.peers, f, starts_pipe_to(id), id, len);
    lemma_sweep_count(r.peers, f, dials(id), id, len);
    if known(r.peers, id) {
        let i = place(r.peers, id);
        let p = r.peers[i];
        let s = f(i, p);
        assert(tidy(p, s));
        assert(moved[i] == s.peer);
        if known(after.peers, id) {
            let j = place(after.peers, id);
            assert(moved.contains(after.peers[j]));
            let k = choose|k: int| 0 <= k < moved.len() && moved[k] == after.peers[j];
            lemma_place(moved, id, k);
            lemma_place(moved, id, i);
            assert(after.peers[j] == s.peer);
        } else if keep(s.peer) {
            moved.lemma_filter_contains(keep, i);
            assert(after.peers.contains(moved[i]));
            let j = choose|j: int| 0 <= j < after.peers.len() && after.peers[j] == moved[i];
            assert(after.peers[j].device_id == id);
        }
        assert(newly_dialed(phase_of(r, id), phase_of(after, id)) == newly_dialed(
            p.phase,
            s.peer.phase,
        ));
        assert forall|n: u32| #[trigger] o.actions.contains(dial(id, n)) <==> s.actions.contains(
            dial(id, n),
        ) by {
            let kind = |y: ActionView| y == dial(id, n);
            lemma_sweep_count(r.peers, f, kind, id, len);
            lemma_count_contains(o.actions, dial(id, n));
            lemma_count_contains(s.actions, dial(id, n));
        }
    } else {
        if known(after.peers, id) {
            let j = place(after.peers, id);
            assert(moved.contains(after.peers[j]));
            let k = choose|k: int| 0 <= k < moved.len() && moved[k] == after.peers[j];
            assert(tidy(r.peers[k], f(k, r.peers[k])));
            assert(r.peers[k].device_id == id);
        }
        assert forall|n: u32| !#[trigger] o.actions.contains(dial(id, n)) by {
            let kind = |y: ActionView| y == dial(id, n);
            lemma_sweep_count(r.peers, f, kind, id, len);
            lemma_count_contains(o.actions, dial(id, n));
        }
    }
}

proof fn lemma_at_known_orderly(r: RegistryView, id: Seq<char>, f: spec_fn(PeerView) -> Step)
    requires
        r.wf(),
        forall|p: PeerView| tidy(p, #[trigger] f(p)),
    ensures
        orderly(r, r.at_known(id, f), id),
        only_about(r.at_known(id, f).actions, id),
{
    if known(r.peers, id) {
        let i = place(r.peers, id);
        let p = r.peers[i];
        assert(tidy(p, f(p)));
        let after = r.at_known(id, f).registry;
        assert(after.peers[i].device_id == id);
        assert forall|a: int, b: int| 0 <= a < b < after.peers.len() implies (
        #[trigger] after.peers[a]).device_id != (#[trigger] after.peers[b]).device_id by {
            assert(r.peers[a].device_id != r.peers[b].device_id);
        }
        lemma_place(after.peers, id, i);
    } else {
        lemma_still(Seq::empty(), id);
    }
}

proof fn lemma_at_any_orderly(
    r: RegistryView,
    id: Seq<char>,
    f: spec_fn(PeerView) -> Step,
    blank: PeerView,
    fresh: Step,
)
    requires
        r.wf(),
        forall|p: PeerView| tidy(p, #[trigger] f(p)),
        tidy(blank, fresh),
        blank.device_id == id,
        blank.tx_gen == 0,
        blank.consecutive_failures == 0,
        blank.phase is Unknown,
    ensures
        orderly(r, r.at_any(id, f, fresh), id),
        only_about(r.at_any(id, f, fresh).actions, id),
{
    if known(r.peers, id) {
        lemma_at_known_orderly(r, id, f);
    } else {
        let after = r.at_any(id, f, fresh).registry;
        let n = r.peers.len() as int;
        assert(after.peers[n] == fresh.peer);
        assert forall|a: int, b: int| 0 <= a < b < after.peers.len() implies (
        #[trigger] after.peers[a]).device_id != (#[trigger] after.peers[b]).device_id by {
            if b < n {
                assert(r.peers[a].device_id != r.peers[b].device_id);
            } else {
                assert(r.peers[a].device_id != id);
            }
        }
        lemma_place(after.peers, id, n);
    }
}

/// What a command about one device starts goes with what becomes of it.
proof fn lemma_target_orderly(r: RegistryView, cmd: PeerCommand, at: Clock, a: ChannelAnswers)
    requires
        r.wf(),
        target(cmd) is Some,
    ensures
        orderly(r, r.step(cmd, at, a), target(cmd)->0),
        only_about(r.step(cmd, at, a).actions, target(cmd)->0),
{
    let id = target(cmd)->0;
    let now = at.now;
    let fresh = PeerView::fresh(id);
    match cmd {
        PeerCommand::Advertised { prefix, .. } => {
            let suppressed = r.has_verified_live(prefix);
            let defer = r.defers_to(prefix);
            let f = |p: PeerView| p.advertised(now, prefix, suppressed, defer);
            assert forall|p: PeerView| tidy(p, #[trigger] f(p)) by {
                lemma_advertised_tidy(p, now, prefix, suppressed, defer);
            }
            assert(tidy(fresh, f(fresh)));
            lemma_at_any_orderly(r, id, f, fresh, f(fresh));
        },
        PeerCommand::CentralDisconnected { cause, .. } => {
            let f = |p: PeerView| p.central_disconnected(at, cause);
            assert forall|p: PeerView| tidy(p, #[trigger] f(p)) by {
                lemma_disconnected_tidy(p, at, cause);
            }
            lemma_at_known_orderly(r, id, f);
        },
        PeerCommand::InboundGattFragment { bytes, .. } => {
            let f = |p: PeerView| p.fragment_received(now, bytes@, a);
            assert forall|p: PeerView| tidy(p, #[trigger] f(p)) by {
                lemma_fragment_tidy(p, now, bytes@, a);
            }
            let blank = PeerView { last_rx: Some(now), ..fresh };
            lemma_pipe_tidy(blank, blank.answering(now, bytes@), 0);
            lemma_at_any_orderly(r, id, f, blank, blank.answering(now, bytes@));
        },
        PeerCommand::InboundL2capChannel { channel, .. } => {
            let f = |p: PeerView| p.l2cap_accepted(now, channel);
            assert forall|p: PeerView| tidy(p, #[trigger] f(p)) by {
                lemma_l2cap_accepted_tidy(p, now, channel);
            }
            let blank = PeerView { role: ConnectRole::Peripheral, ..fresh };
            lemma_pipe_tidy(blank, blank.l2cap_promoted(now, channel), 0);
            lemma_at_any_orderly(r, id, f, blank, blank.l2cap_promoted(now, channel));
        },
        PeerCommand::SendDatagram { tx_gen, datagram, waker, .. } => {
            let send = PendingSendView { tx_gen, datagram: datagram@, waker };
            let f = |p: PeerView| p.sent(now, send, a);
            assert forall|p: PeerView| tidy(p, #[trigger] f(p)) by {
                lemma_sent_tidy(p, now, send, a);
            }
            assert(tidy(fresh, f(fresh)));
            lemma_at_any_orderly(r, id, f, fresh, f(fresh));
        },
        PeerCommand::ConnectSucceeded { channel, .. } => {
            let f = |p: PeerView| p.connect_succeeded(now, channel);
            assert forall|p: PeerView| tidy(p, #[trigger] f(p)) by {
                lemma_connect_succeeded_tidy(p, now, channel);
            }
            lemma_at_known_orderly(r, id, f);
        },
        PeerCommand::ConnectFailed { error, .. } => {
            let f = |p: PeerView| p.connect_failed(now, error@);
            assert forall|p: PeerView| tidy(p, #[trigger] f(p)) by {
                lemma_connect_failed_tidy(p, now, error@);
            }
            lemma_at_known_orderly(r, id, f);
        },
        PeerCommand::OpenL2capSucceeded { channel, .. } => {
            let f = |p: PeerView| p.l2cap_opened(now, channel);
            assert forall|p: PeerView| tidy(p, #[trigger] f(p)) by {
                lemma_l2cap_opened_tidy(p, now, channel);
            }
            lemma_at_known_orderly(r, id, f);
        },
        PeerCommand::OpenL2capFailed { error, .. } => {
            let f = |p: PeerView| p.l2cap_open_failed(now, error@);
            assert forall|p: PeerView| tidy(p, #[trigger] f(p)) by {
                lemma_l2cap_failed_tidy(p, now, error@);
            }
            lemma_at_known_orderly(r, id, f);
        },
        PeerCommand::Stalled { .. } => {
            let f = |p: PeerView| p.stalled(at);
            assert forall|p: PeerView| tidy(p, #[trigger] f(p)) by {
                lemma_stalled_tidy(p, at);
            }
            lemma_at_known_orderly(r, id, f);
        },
        PeerCommand::Forget { .. } => {
            let f = |p: PeerView| p.forgotten(now);
            assert forall|p: PeerView| tidy(p, #[trigger] f(p)) by {
                lemma_forgotten_tidy(p, now);
            }
            lemma_at_known_orderly(r, id, f);
        },
        PeerCommand::DataPipeReady { handles, .. } => {
            let f = |p: PeerView| p.pipe_ready(handles@, a).unchanged();
            assert forall|p: PeerView| tidy(p, #[trigger] f(p)) by {
                lemma_quiet_tidy(p, f(p));
            }
            lemma_at_known_orderly(r, id, f);
        },
        PeerCommand::ProtocolVersionMismatch { got, want, .. } => {
            let f = |p: PeerView| p.version_mismatched(at, got, want);
            assert forall|p: PeerView| tidy(p, #[trigger] f(p)) by {
                lemma_mismatched_tidy(p, at, got, want);
            }
            lemma_at_known_orderly(r, id, f);
        },
        PeerCommand::PeripheralClientSubscribed { .. } => {
            let f = |p: PeerView| p.client_subscribed(now);
            assert forall|p: PeerView| tidy(p, #[trigger] f(p)) by {
                lemma_subscribed_tidy(p, now);
            }
            assert(tidy(fresh, f(fresh)));
            lemma_at_any_orderly(r, id, f, fresh, f(fresh));
        },
        PeerCommand::L2capHandoverTimeout { .. } => {
            let f = |p: PeerView| p.handover_timed_out();
            assert forall|p: PeerView| tidy(p, #[trigger] f(p)) by {
                lemma_quiet_tidy(p, f(p));
            }
            if known(r.peers, id) {
                lemma_at_known_orderly(r, id, f);
            } else {
                let o = r.handover_timed_out(id);
                lemma_still(o.actions, id);
            }
        },
        _ => {
            lemma_still(Seq::empty(), id);
        },
    }
}

proof fn lemma_step_orderly(
    r: RegistryView,
    cmd: PeerCommand,
    at: Clock,
    a: ChannelAnswers,
    id: Seq<char>,
)
    requires
        r.wf(),
    ensures
        orderly(r, r.step(cmd, at, a), id),
{
    let o = r.step(cmd, at, a);
    if target(cmd) is Some {
        lemma_target_orderly(r, cmd, at, a);
        if target(cmd) != Some(id) {
            other_peers_are_untouched(r, cmd, at, a, id);
            lemma_about_another(o.actions, target(cmd)->0, id);
        }
    } else {
        match cmd {
            PeerCommand::Tick(now) => {
                lemma_ticked_orderly(r, now, id);
            },
            PeerCommand::RestoreFromAdapter { devices } => {
                lemma_restored_quiet(r, at, devices@, devices@.len());
                lemma_quiet_orderly(r, o, id);
            },
            PeerCommand::VerifiedEndpoint { endpoint_id } => {
                lemma_verified_quiet(r, at, endpoint_id);
                lemma_quiet_orderly(r, o, id);
            },
            PeerCommand::Shutdown => {
                assert forall|i: int| 0 <= i < r.peers.len() implies quiet_step(
                    #[trigger] r.peers[i],
                    shutdown_of()(i, r.peers[i]),
                ) by {}
                lemma_sweep_quiet(r, shutdown_of());
                lemma_quiet_orderly(r, o, id);
            },
            _ => {
                assert(quiet(r, o));
                lemma_quiet_orderly(r, o, id);
            },
        }
    }
}

/// Every new pipe gets a transmit generation of its own, and no generation
/// changes without a new pipe: however a command leaves a device, it has started
/// as many pipes to it as its generation has grown, which is at most one. The
/// device is connected then.
pub proof fn pipes_go_with_generations(
    r: RegistryView,
    cmd: PeerCommand,
    at: Clock,
    a: ChannelAnswers,
    id: Seq<char>,
)
    requires
        r.wf(),
        r.can_handle(cmd, at),
        r.step(cmd, at, a).registry.peer(id) is Some,
    ensures
        ({
            let o = r.step(cmd, at, a);
            let started = pipes_started(o.actions, id);
            &&& started <= 1
            &&& started == generation_of(o.registry, id) - generation_of(r, id)
            &&& started == 1 ==> phase_of(o.registry, id) is Connected
        }),
{
    lemma_step_orderly(r, cmd, at, a, id);
    if known(r.peers, id) {
        let after = r.step(cmd, at, a).registry;
        generations_never_fall_back(r, cmd, at, a);
        assert(after.peers[place(after.peers, id)].device_id == id);
    }
}

/// A device is dialled exactly when it comes to be connecting: a command asks
/// for an attempt if and only if the device was not connecting before and is
/// after, over GATT, in that attempt. It is dialled at most once.
pub proof fn dials_go_with_connecting(
    r: RegistryView,
    cmd: PeerCommand,
    at: Clock,
    a: ChannelAnswers,
    id: Seq<char>,
    attempt: u32,
)
    requires
        r.wf(),
    ensures
        ({
            let o = r.step(cmd, at, a);
            &&& dials_made(o.actions, id) <= 1
            &&& o.actions.contains(dial(id, attempt)) <==> newly_dialed(
                phase_of(r, id),
                phase_of(o.registry, id),
            ) == Some(attempt)
        }),
{
    lemma_step_orderly(r, cmd, at, a, id);
}

/// Commands with the clock readings at which they come in and the answers that
/// the channels then give, oldest first.
pub type History = Seq<(PeerCommand, Clock, ChannelAnswers)>;

/// What a history makes of a registry.
pub open spec fn reached(r: RegistryView, history: History) -> RegistryView
    decreases history.len(),
{
    if history.len() == 0 {
        r
    } else {
        let (cmd, at, a) = history.last();
        reached(r, history.drop_last()).step(cmd, at, a).registry
    }
}

/// Every command of a history can be carried out when its turn comes.
pub open spec fn can_handle_all(r: RegistryView, history: History) -> bool
    decreases history.len(),
{
    history.len() > 0 ==> {
        let (cmd, at, _) = history.last();
        can_handle_all(r, history.drop_last()) && reached(r, history.drop_last()).can_handle(cmd, at)
    }
}

/// Whatever a registry that starts without peers has been through, no device
/// occurs twice in it, every connected peer is so in its own transmit
/// generation, and no dial counts more attempts than are allowed.
pub proof fn every_history_keeps_the_registry_right(r: RegistryView, history: History)
    requires
        r.peers.len() == 0,
        can_handle_all(r, history),
    ensures
        reached(r, history).wf(),
        all_generations_agree(reached(r, history).peers),
        all_attempts_bounded(reached(r, history).peers),
    decreases history.len(),
{
    if history.len() > 0 {
        let (cmd, at, a) = history.last();
        let before = reached(r, history.drop_last());
        every_history_keeps_the_registry_right(r, history.drop_last());
        generations_never_fall_back(before, cmd, at, a);
        generations_stay_in_agreement(before, cmd, at, a);
        attempts_stay_bounded(before, cmd, at, a);
    }
}

/// A pipe that the action starts has an L2CAP channel exactly where it is to run
/// over L2CAP.
pub open spec fn channel_fits(x: ActionView) -> bool {
    x matches ActionView::StartDataPipe { path, l2cap_channel, .. } ==> (path is L2cap
        <==> l2cap_channel is Some)
}

spec fn channels_fit(actions: Seq<ActionView>) -> bool {
    forall|k: int| 0 <= k < actions.len() ==> channel_fits(#[trigger] actions[k])
}

proof fn lemma_still_fits(actions: Seq<ActionView>)
    requires
        still(actions),
    ensures
        channels_fit(actions),
{
    assert forall|k: int| 0 <= k < actions.len() implies channel_fits(#[trigger] actions[k]) by {
        assert(moved_device(actions[k]) is None);
    }
}

proof fn lemma_ends_fit(p: PeerView, at: Clock, cause: DisconnectCause, got: u8, want: u8)
    ensures
        channels_fit(p.central_disconnected(at, cause).actions),
        channels_fit(p.stalled(at).actions),
        channels_fit(p.forgotten(at.now).actions),
        channels_fit(p.version_mismatched(at, got, want).actions),
{
    let reason = DisconnectReason::of_cause(cause);
    let refresh = if reason is Gatt133 {
        seq![ActionView::Refresh { device_id: p.device_id }]
    } else {
        Seq::empty()
    };
    lemma_drained_quiet(p, at, reason);
    lemma_still_concat(p.drained(at, reason).actions, p.close_channel(reason));
    lemma_still_concat(p.drained(at, reason).actions + p.close_channel(reason), refresh);
    lemma_still_fits(p.central_disconnected(at, cause).actions);
    lemma_drained_quiet(p, at, DisconnectReason::LinkDead);
    lemma_still_concat(
        p.drained(at, DisconnectReason::LinkDead).actions,
        p.close_channel(DisconnectReason::LinkDead),
    );
    lemma_still_fits(p.stalled(at).actions);
    let failed = acks(p.pending_sends, Err(ErrorKind::ConnectionAborted));
    lemma_drained_quiet(p, at, DisconnectReason::LocalClose);
    lemma_still_concat(failed, p.close_channel(DisconnectReason::LocalClose));
    lemma_still_fits(p.forgotten(at.now).actions);
    lemma_drained_quiet(p, at, DisconnectReason::ProtocolMismatch);
    lemma_still_concat(
        p.drained(at, DisconnectReason::ProtocolMismatch).actions,
        p.close_channel(DisconnectReason::ProtocolMismatch),
    );
    lemma_still_fits(p.version_mismatched(at, got, want).actions);
}

/// Whatever happens, a pipe that is to run over L2CAP comes with a channel to
/// run over, and one over GATT comes without: every pipe that is asked for can be
/// started.
pub proof fn pipes_over_l2cap_come_with_a_channel(
    r: RegistryView,
    cmd: PeerCommand,
    at: Clock,
    a: ChannelAnswers,
    k: int,
)
    requires
        r.wf(),
        0 <= k < r.step(cmd, at, a).actions.len(),
    ensures
        channel_fits(r.step(cmd, at, a).actions[k]),
{
    let o = r.step(cmd, at, a);
    match cmd {
        PeerCommand::CentralDisconnected { device_id, cause } => {
            if let Some(p) = r.peer(device_id@) {
                lemma_ends_fit(p, at, cause, 0, 0);
            }
        },
        PeerCommand::Stalled { device_id } => {
            if let Some(p) = r.peer(device_id@) {
                lemma_ends_fit(p, at, DisconnectCause::Timeout, 0, 0);
            }
        },
        PeerCommand::Forget { device_id } => {
            if let Some(p) = r.peer(device_id@) {
                lemma_ends_fit(p, at, DisconnectCause::Timeout, 0, 0);
            }
        },
        PeerCommand::ProtocolVersionMismatch { device_id, got, want } => {
            if let Some(p) = r.peer(device_id@) {
                lemma_ends_fit(p, at, DisconnectCause::Timeout, got, want);
            }
        },
        PeerCommand::Tick(now) => {
            lemma_ticks_start_no_pipe(r.peers, now, r.peers.len());
        },
        PeerCommand::RestoreFromAdapter { devices } => {
            lemma_restored_quiet(r, at, devices@, devices@.len());
            lemma_still_fits(o.actions);
        },
        PeerCommand::VerifiedEndpoint { endpoint_id } => {
            lemma_verified_quiet(r, at, endpoint_id);
            lemma_still_fits(o.actions);
        },
        PeerCommand::Shutdown => {
            assert forall|i: int| 0 <= i < r.peers.len() implies quiet_step(
                #[trigger] r.peers[i],
                shutdown_of()(i, r.peers[i]),
            ) by {}
            lemma_sweep_quiet(r, shutdown_of());
            lemma_still_fits(o.actions);
        },
        _ => {},
    }
}

proof fn lemma_ticks_start_no_pipe(peers: Seq<PeerView>, now: Instant, n: nat)
    requires
        n <= peers.len(),
    ensures
        channels_fit(sweep_actions(peers, tick_of(now), n)),
    decreases n,
{
    if n > 0 {
        lemma_ticks_start_no_pipe(peers, now, (n - 1) as nat);
        let before = sweep_actions(peers, tick_of(now), (n - 1) as nat);
        let own = peers[n - 1].ticked(now).actions;
        assert forall|k: int| 0 <= k < (before + own).len() implies channel_fits(
            #[trigger] (before + own)[k],
        ) by {
            if k < before.len() {
                assert((before + own)[k] == before[k]);
            } else {
                assert((before + own)[k] == own[k - before.len()]);
            }
        }
    }
}

} // verus!
