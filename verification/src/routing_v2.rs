//! Pipes, and how an endpoint can be reached.
//!
//! Every pipe gets a [`StableConnId`] when it opens. An endpoint can be reached
//! over a routable pipe (its handshake is done), over a pending pipe, or under a
//! reservation: an id handed out before there is a pipe, because a scan has seen
//! the endpoint nearby.

use vstd::prelude::*;

use crate::bytes::{bytes_equal, bytes_precede, precedes, precedes_total};
use crate::keys::{endpoint_prefix, prefix_from_endpoint};
use crate::peer::{lemma_endpoint_ext, prefix_equal, DeviceId, EndpointId, KeyPrefix, WakerId};
use crate::table::{without_value, EndpointTable, Key, PrefixTable};
use crate::time::Instant;

verus! {

/// Stands for a pipe towards the user of the transport. Ids are handed out in
/// ascending order, never twice, and never zero.
#[derive(Clone, Copy, PartialEq, Eq, Hash, Ord, Structural, Debug)]
pub struct StableConnId {
    pub raw: u64,
}

impl PartialOrd for StableConnId {
    fn partial_cmp(&self, other: &Self) -> (r: Option<core::cmp::Ordering>) {
        if self.raw < other.raw {
            Some(core::cmp::Ordering::Less)
        } else if self.raw == other.raw {
            Some(core::cmp::Ordering::Equal)
        } else {
            Some(core::cmp::Ordering::Greater)
        }
    }
}

impl vstd::std_specs::cmp::PartialOrdSpecImpl for StableConnId {
    open spec fn obeys_partial_cmp_spec() -> bool {
        true
    }

    open spec fn partial_cmp_spec(&self, other: &Self) -> Option<core::cmp::Ordering> {
        if self.raw < other.raw {
            Some(core::cmp::Ordering::Less)
        } else if self.raw == other.raw {
            Some(core::cmp::Ordering::Equal)
        } else {
            Some(core::cmp::Ordering::Greater)
        }
    }
}

impl View for StableConnId {
    type V = StableConnId;

    open spec fn view(&self) -> StableConnId {
        *self
    }
}

impl Key for StableConnId {
    fn same(&self, other: &Self) -> (r: bool) {
        self.raw == other.raw
    }
}

impl StableConnId {
    pub fn as_u64(self) -> (n: u64)
        ensures
            n == self.raw,
    {
        self.raw
    }

    /// The id that a token carries.
    pub fn from_raw(n: u64) -> (id: Self)
        ensures
            id.raw == n,
    {
        StableConnId { raw: n }
    }

    /// Any id, for tests.
    pub fn for_test(n: u64) -> (id: Self)
        ensures
            id.raw == n,
    {
        StableConnId { raw: n }
    }
}

/// What became of the attempt to make a pipe routable.
#[derive(Debug)]
pub enum PromoteOutcome {
    /// Another link to the endpoint is kept.
    Rejected,
    /// The pipe is routable; those that it replaced are listed.
    Accepted { evicted: Vec<StableConnId> },
}

/// Who dialled, as this node sees it.
#[derive(Clone, Copy, PartialEq, Eq, Structural, Debug)]
pub enum Direction {
    /// We dialled.
    Outbound,
    /// The peer dialled us.
    Inbound,
}

/// Ids are equal, and ordered, as their numbers are.
pub proof fn ids_are_their_numbers(a: StableConnId, b: StableConnId)
    ensures
        a == b <==> a.raw == b.raw,
        vstd::std_specs::cmp::PartialOrdSpec::partial_cmp_spec(&a, &b) == Some(
            core::cmp::Ordering::Less,
        ) <==> a.raw < b.raw,
        vstd::std_specs::cmp::PartialOrdSpec::partial_cmp_spec(&a, &b) == Some(
            core::cmp::Ordering::Equal,
        ) <==> a == b,
{
}

/// Who dialled, as both nodes see it.
#[derive(Clone, Copy, PartialEq, Eq, Structural, Debug)]
pub enum Dialer {
    /// The endpoint with the lower key.
    Low,
    /// The endpoint with the higher key.
    High,
}

impl Dialer {
    pub open spec fn of(mine: Seq<u8>, theirs: Seq<u8>, direction: Direction) -> Dialer {
        if precedes(mine, theirs) == (direction is Outbound) {
            Dialer::Low
        } else {
            Dialer::High
        }
    }

    /// Who dialled, from what this node knows after the handshake.
    pub fn compute(self_id: &EndpointId, remote_id: &EndpointId, direction: Direction) -> (d: Dialer)
        ensures
            d == Dialer::of(self_id@, remote_id@, direction),
    {
        let lower = bytes_precede(self_id.bytes.as_slice(), remote_id.bytes.as_slice());
        match direction {
            Direction::Outbound => if lower {
                Dialer::Low
            } else {
                Dialer::High
            },
            Direction::Inbound => if lower {
                Dialer::High
            } else {
                Dialer::Low
            },
        }
    }
}

/// The two nodes of a link see it in opposite directions and name the same
/// dialler.
pub proof fn both_sides_name_the_same_dialer(a: Seq<u8>, b: Seq<u8>)
    requires
        a != b,
    ensures
        Dialer::of(a, b, Direction::Outbound) == Dialer::of(b, a, Direction::Inbound),
        Dialer::of(a, b, Direction::Inbound) == Dialer::of(b, a, Direction::Outbound),
        Dialer::of(a, b, Direction::Outbound) != Dialer::of(b, a, Direction::Outbound),
{
    precedes_total(a, b);
}

/// A live pipe.
#[derive(Debug)]
pub struct Pipe {
    pub id: StableConnId,
    pub device_id: DeviceId,
    pub direction: Direction,
    pub created_at: Instant,
}

#[verifier::ext_equal]
pub struct PipeInfo {
    pub id: StableConnId,
    pub device_id: Seq<char>,
    pub direction: Direction,
    pub created_at: Instant,
}

impl View for Pipe {
    type V = PipeInfo;

    open spec fn view(&self) -> PipeInfo {
        PipeInfo {
            id: self.id,
            device_id: self.device_id@,
            direction: self.direction,
            created_at: self.created_at,
        }
    }
}

impl Clone for Pipe {
    fn clone(&self) -> (p: Self)
        ensures
            p@ == self@,
    {
        Pipe {
            id: self.id,
            device_id: self.device_id.clone(),
            direction: self.direction,
            created_at: self.created_at,
        }
    }
}

/// A pipe whose handshake is done.
#[derive(Clone, Copy, Debug)]
pub struct Routable {
    pub stable_id: StableConnId,
    pub dialer: Dialer,
    pub verified_at: Instant,
}

impl View for Routable {
    type V = Routable;

    open spec fn view(&self) -> Routable {
        *self
    }
}

/// An id handed out before there is a pipe.
#[derive(Clone, Copy, Debug)]
pub struct Reservation {
    pub stable_id: StableConnId,
    pub endpoint_id: EndpointId,
    pub prefix: KeyPrefix,
}

impl View for Reservation {
    type V = Reservation;

    open spec fn view(&self) -> Reservation {
        *self
    }
}

/// A task that waits until an endpoint can be reached.
#[derive(Clone, Copy, Debug)]
pub struct Waiter {
    pub endpoint_id: EndpointId,
    pub waker: WakerId,
}

/// A routable pipe together with its device.
#[derive(Debug)]
pub struct RoutableEntry {
    pub endpoint_id: EndpointId,
    pub stable_id: StableConnId,
    pub device_id: DeviceId,
    pub verified_at: Instant,
}

/// How many there are of each.
#[derive(Clone, Copy, PartialEq, Eq, Structural, Debug)]
pub struct RoutingSnapshot {
    pub pipes: usize,
    pub scan_hints: usize,
}

#[derive(Debug)]
pub struct Routing {
    pipes: Vec<Pipe>,
    next_id: u64,
    /// Which device was last seen advertising under a prefix. A hint for
    /// dialling, no authority for routing.
    scan_hint: PrefixTable<DeviceId>,
    routable: EndpointTable<Routable>,
    pending: EndpointTable<StableConnId>,
    reservations: PrefixTable<Reservation>,
    waiting: Vec<Waiter>,
    due: Vec<WakerId>,
}

#[verifier::ext_equal]
pub struct RoutingView {
    /// The live pipes, in the order in which they opened.
    pub pipes: Seq<PipeInfo>,
    /// The last id handed out.
    pub last_id: u64,
    pub scan_hint: Map<Seq<u8>, Seq<char>>,
    /// By endpoint key.
    pub routable: Map<Seq<u8>, Routable>,
    /// By endpoint key.
    pub pending: Map<Seq<u8>, StableConnId>,
    /// By prefix.
    pub reservations: Map<Seq<u8>, Reservation>,
    /// The tasks that wait, in the order in which they came.
    pub waiting: Seq<Waiter>,
    /// The tasks that are to be woken.
    pub due: Seq<WakerId>,
}

pub open spec fn pipes_view(pipes: Seq<Pipe>) -> Seq<PipeInfo> {
    Seq::new(pipes.len(), |i: int| pipes[i]@)
}

impl View for Routing {
    type V = RoutingView;

    closed spec fn view(&self) -> RoutingView {
        RoutingView {
            pipes: pipes_view(self.pipes@),
            last_id: self.next_id,
            scan_hint: self.scan_hint@,
            routable: self.routable@,
            pending: self.pending@,
            reservations: self.reservations@,
            waiting: self.waiting@,
            due: self.due@,
        }
    }
}

/// Some pipe has this id.
pub open spec fn has_pipe(pipes: Seq<PipeInfo>, id: StableConnId) -> bool {
    exists|i: int| 0 <= i < pipes.len() && (#[trigger] pipes[i]).id == id
}

pub open spec fn pipe_place(pipes: Seq<PipeInfo>, id: StableConnId) -> int {
    choose|i: int| 0 <= i < pipes.len() && (#[trigger] pipes[i]).id == id
}

/// The pipes without the one that has this id.
pub open spec fn without_pipe(pipes: Seq<PipeInfo>, id: StableConnId) -> Seq<PipeInfo> {
    if has_pipe(pipes, id) {
        pipes.remove(pipe_place(pipes, id))
    } else {
        pipes
    }
}

/// No id is zero and none occurs twice.
pub open spec fn ids_distinct(pipes: Seq<PipeInfo>) -> bool {
    &&& forall|i: int| 0 <= i < pipes.len() ==> 0 < (#[trigger] pipes[i]).id.raw
    &&& forall|i: int, j: int|
        0 <= i < j < pipes.len() ==> (#[trigger] pipes[i]).id != (#[trigger] pipes[j]).id
}

/// Every reservation stands under the prefix of its endpoint, with an id of its
/// own that is not zero.
pub open spec fn reservations_ok(reservations: Map<Seq<u8>, Reservation>) -> bool {
    &&& forall|prefix: Seq<u8>| #[trigger]
        reservations.contains_key(prefix) ==> {
            let r = reservations[prefix];
            r.prefix@ == prefix && r.prefix == endpoint_prefix(r.endpoint_id) && 0
                < r.stable_id.raw
        }
    &&& forall|p: Seq<u8>, q: Seq<u8>| #[trigger]
        reservations.contains_key(p) && #[trigger] reservations.contains_key(q) && p != q
            ==> reservations[p].stable_id != reservations[q].stable_id
}

/// The waiters for which `matching` holds, in order: their wakers.
pub open spec fn wakers_of(waiting: Seq<Waiter>, matching: spec_fn(Waiter) -> bool) -> Seq<WakerId>
    decreases waiting.len(),
{
    if waiting.len() == 0 {
        Seq::empty()
    } else {
        let rest = wakers_of(waiting.drop_last(), matching);
        if matching(waiting.last()) {
            rest.push(waiting.last().waker)
        } else {
            rest
        }
    }
}

pub open spec fn waits_for_prefix(prefix: KeyPrefix) -> spec_fn(Waiter) -> bool {
    |w: Waiter| endpoint_prefix(w.endpoint_id) == prefix
}

pub open spec fn waits_for_endpoint(key: Seq<u8>) -> spec_fn(Waiter) -> bool {
    |w: Waiter| w.endpoint_id@ == key
}

impl RoutingView {
    pub open spec fn wf(self) -> bool {
        ids_distinct(self.pipes) && reservations_ok(self.reservations)
    }

    /// The count of ids has not run through yet: none in use is above the last
    /// one handed out.
    pub open spec fn counting_up(self) -> bool {
        &&& forall|i: int|
            0 <= i < self.pipes.len() ==> (#[trigger] self.pipes[i]).id.raw <= self.last_id
        &&& forall|prefix: Seq<u8>| #[trigger]
            self.reservations.contains_key(prefix) ==> self.reservations[prefix].stable_id.raw
                <= self.last_id
    }

    /// The entry is a routable pipe that is live, with its device.
    pub open spec fn routable_live(self, entry: RoutableEntry) -> bool {
        &&& self.routable.contains_key(entry.endpoint_id@)
        &&& self.routable[entry.endpoint_id@].stable_id == entry.stable_id
        &&& self.routable[entry.endpoint_id@].verified_at == entry.verified_at
        &&& self.device_of_pipe(entry.stable_id) == Some(entry.device_id@)
    }

    /// A task waits for an endpoint. It does so once, however often it asks.
    pub open spec fn parked(self, endpoint_id: EndpointId, waker: WakerId) -> RoutingView {
        let waiter = Waiter { endpoint_id, waker };
        if self.waiting.contains(waiter) {
            self
        } else {
            RoutingView { waiting: self.waiting.push(waiter), ..self }
        }
    }

    /// The waiters for which `matching` holds are to be woken.
    pub open spec fn woken(self, matching: spec_fn(Waiter) -> bool) -> RoutingView {
        RoutingView {
            waiting: self.waiting.filter(|w: Waiter| !matching(w)),
            due: self.due + wakers_of(self.waiting, matching),
            ..self
        }
    }

    /// The id that is handed out next. Zero is never handed out: after the
    /// highest id the count starts over at one.
    pub open spec fn next(self) -> StableConnId {
        if self.last_id < u64::MAX {
            StableConnId { raw: (self.last_id + 1) as u64 }
        } else {
            StableConnId { raw: 1 }
        }
    }

    /// A pipe is recorded under the next id, in place of any that still has it.
    pub open spec fn pipe_registered(
        self,
        device_id: Seq<char>,
        direction: Direction,
        now: Instant,
    ) -> RoutingView {
        RoutingView {
            pipes: without_pipe(self.pipes, self.next()).push(
                PipeInfo { id: self.next(), device_id, direction, created_at: now },
            ),
            last_id: self.next().raw,
            ..self
        }
    }

    pub open spec fn pipe_evicted(self, id: StableConnId) -> RoutingView {
        RoutingView { pipes: without_pipe(self.pipes, id), ..self }
    }

    pub open spec fn hint_noted(self, prefix: KeyPrefix, device: Seq<char>) -> RoutingView {
        RoutingView {
            scan_hint: self.scan_hint.insert(prefix@, device),
            ..self.woken(waits_for_prefix(prefix))
        }
    }

    pub open spec fn device_of_pipe(self, id: StableConnId) -> Option<Seq<char>> {
        if has_pipe(self.pipes, id) {
            Some(self.pipes[pipe_place(self.pipes, id)].device_id)
        } else {
            None
        }
    }

    /// Who dialled for the pipe with this id. An id that is only reserved is
    /// for a pipe that we dial.
    pub open spec fn direction_of_pipe(self, id: StableConnId) -> Direction {
        if has_pipe(self.pipes, id) {
            self.pipes[pipe_place(self.pipes, id)].direction
        } else {
            Direction::Outbound
        }
    }

    /// The pipe with this id is the one that leads to `remote`.
    pub open spec fn promoted(
        self,
        id: StableConnId,
        mine: Seq<u8>,
        remote: Seq<u8>,
        now: Instant,
    ) -> RoutingView {
        let dialer = Dialer::of(mine, remote, self.direction_of_pipe(id));
        RoutingView {
            routable: self.routable.insert(
                remote,
                Routable { stable_id: id, dialer, verified_at: now },
            ),
            ..self
        }
    }

    /// The pipe that led to `remote` so far, if it is another one.
    pub open spec fn displaced_by(self, id: StableConnId, remote: Seq<u8>) -> Seq<StableConnId> {
        if self.routable.contains_key(remote) && self.routable[remote].stable_id != id {
            seq![self.routable[remote].stable_id]
        } else {
            Seq::empty()
        }
    }

    /// The reservations without the one that has this id.
    pub open spec fn reservations_without(self, id: StableConnId) -> Map<Seq<u8>, Reservation> {
        match self.reservation_with(id) {
            Some(r) => self.reservations.remove(r.prefix@),
            None => self.reservations,
        }
    }

    /// The next id is reserved for an endpoint, unless one is already; it is
    /// then reserved for no other.
    pub open spec fn reserved(self, endpoint_id: EndpointId) -> RoutingView {
        let prefix = endpoint_prefix(endpoint_id);
        if self.reservations.contains_key(prefix@) {
            self
        } else {
            RoutingView {
                reservations: self.reservations_without(self.next()).insert(
                    prefix@,
                    Reservation { stable_id: self.next(), endpoint_id, prefix },
                ),
                last_id: self.next().raw,
                ..self
            }
        }
    }

    /// The reservation that handed out this id.
    pub open spec fn reservation_with(self, id: StableConnId) -> Option<Reservation> {
        if exists|prefix: Seq<u8>| #[trigger]
            self.reservations.contains_key(prefix) && self.reservations[prefix].stable_id == id {
            let prefix = choose|prefix: Seq<u8>| #[trigger]
                self.reservations.contains_key(prefix) && self.reservations[prefix].stable_id == id;
            Some(self.reservations[prefix])
        } else {
            None
        }
    }
}

pub(crate) proof fn lemma_pipe_place(pipes: Seq<PipeInfo>, i: int)
    requires
        ids_distinct(pipes),
        0 <= i < pipes.len(),
    ensures
        has_pipe(pipes, pipes[i].id),
        pipe_place(pipes, pipes[i].id) == i,
{
    let id = pipes[i].id;
    let j = pipe_place(pipes, id);
    assert(pipes[i].id == id);
    if i < j {
        assert(pipes[i].id != pipes[j].id);
    } else if j < i {
        assert(pipes[j].id != pipes[i].id);
    }
}

pub(crate) proof fn lemma_without_pipe(pipes: Seq<PipeInfo>, id: StableConnId)
    requires
        ids_distinct(pipes),
    ensures
        ids_distinct(without_pipe(pipes, id)),
        !has_pipe(without_pipe(pipes, id), id),
        forall|i: int|
            0 <= i < without_pipe(pipes, id).len() ==> pipes.contains(
                #[trigger] without_pipe(pipes, id)[i],
            ),
{
    let after = without_pipe(pipes, id);
    if has_pipe(pipes, id) {
        let gone = pipe_place(pipes, id);
        assert forall|i: int| 0 <= i < after.len() implies 0 < (#[trigger] after[i]).id.raw
            && after[i].id != id && pipes.contains(after[i]) by {
            if i < gone {
                assert(after[i] == pipes[i]);
                assert(pipes[i].id != pipes[gone].id);
            } else {
                assert(after[i] == pipes[i + 1]);
                assert(pipes[gone].id != pipes[i + 1].id);
            }
        }
        assert forall|i: int, j: int| 0 <= i < j < after.len() implies (#[trigger] after[i]).id != (
        #[trigger] after[j]).id by {
            let a = if i < gone {
                i
            } else {
                i + 1
            };
            let b = if j < gone {
                j
            } else {
                j + 1
            };
            assert(pipes[a].id != pipes[b].id);
        }
    } else {
        assert forall|i: int| 0 <= i < after.len() implies pipes.contains(#[trigger] after[i]) by {
            assert(after[i] == pipes[i]);
        }
    }
}

/// Taking one pipe away leaves every other one.
pub(crate) proof fn lemma_other_pipe(pipes: Seq<PipeInfo>, id: StableConnId, other: StableConnId)
    requires
        has_pipe(pipes, other),
        other != id,
    ensures
        has_pipe(without_pipe(pipes, id), other),
{
    let i = pipe_place(pipes, other);
    assert(pipes[i].id == other);
    if has_pipe(pipes, id) {
        let gone = pipe_place(pipes, id);
        let after = without_pipe(pipes, id);
        if i < gone {
            assert(after[i] == pipes[i]);
        } else {
            assert(after[i - 1] == pipes[i]);
        }
    }
}

pub(crate) proof fn lemma_reservation_with(r: RoutingView, id: StableConnId)
    requires
        r.wf(),
    ensures
        r.reservation_with(id) matches Some(found) ==> found.stable_id == id
            && r.reservations.contains_key(found.prefix@) && r.reservations[found.prefix@] == found,
        reservations_ok(r.reservations_without(id)),
        forall|prefix: Seq<u8>| #[trigger]
            r.reservations_without(id).contains_key(prefix) ==> r.reservations.contains_key(prefix)
                && r.reservations_without(id)[prefix] == r.reservations[prefix]
                && r.reservations[prefix].stable_id != id,
{
    let rest = r.reservations_without(id);
    if r.reservation_with(id) is Some {
        let key = choose|prefix: Seq<u8>| #[trigger]
            r.reservations.contains_key(prefix) && r.reservations[prefix].stable_id == id;
        assert(r.reservations[key].prefix@ == key);
        assert forall|prefix: Seq<u8>| #[trigger] rest.contains_key(prefix) implies
            r.reservations.contains_key(prefix) && rest[prefix] == r.reservations[prefix]
            && r.reservations[prefix].stable_id != id by {
            assert(r.reservations.contains_key(prefix) && r.reservations.contains_key(key));
        }
    }
    assert forall|p: Seq<u8>, q: Seq<u8>| #[trigger]
        rest.contains_key(p) && #[trigger] rest.contains_key(q) && p != q implies rest[p].stable_id
        != rest[q].stable_id by {
        assert(r.reservations.contains_key(p) && r.reservations.contains_key(q));
    }
}

/// Ids are never zero, not even after the highest one. A new pipe has its id to
/// itself. As long as the count has not run through, ids ascend and are not
/// handed out again: a pipe registered later has a higher id than any before
/// it, evicted or not.
pub proof fn ids_are_fresh(
    r: RoutingView,
    device_id: Seq<char>,
    direction: Direction,
    now: Instant,
)
    requires
        r.wf(),
    ensures
        r.next().raw > 0,
        r.pipe_registered(device_id, direction, now).last_id == r.next().raw,
        r.pipe_registered(device_id, direction, now).wf(),
        r.pipe_registered(device_id, direction, now).pipes.last().id == r.next(),
        !has_pipe(r.pipe_registered(device_id, direction, now).pipes.drop_last(), r.next()),
        forall|id: StableConnId| #[trigger] r.pipe_evicted(id).next() == r.next(),
        r.counting_up() && r.last_id < u64::MAX ==> {
            &&& r.next().raw > r.last_id
            &&& !has_pipe(r.pipes, r.next())
            &&& r.reservation_with(r.next()) is None
            &&& r.pipe_registered(device_id, direction, now).counting_up()
        },
{
    let after = r.pipe_registered(device_id, direction, now);
    let rest = without_pipe(r.pipes, r.next());
    lemma_without_pipe(r.pipes, r.next());
    assert(after.pipes.drop_last() =~= rest);
    assert forall|i: int, j: int| 0 <= i < j < after.pipes.len() implies (
    #[trigger] after.pipes[i]).id != (#[trigger] after.pipes[j]).id by {
        assert(after.pipes[i] == rest[i]);
        if j < rest.len() {
            assert(rest[i].id != rest[j].id);
        }
    }
    assert forall|i: int| 0 <= i < after.pipes.len() implies 0 < (
    #[trigger] after.pipes[i]).id.raw by {
        if i < rest.len() {
            assert(after.pipes[i] == rest[i]);
        }
    }
    if r.counting_up() && r.last_id < u64::MAX {
        assert forall|i: int| 0 <= i < after.pipes.len() implies (
        #[trigger] after.pipes[i]).id.raw <= after.last_id by {
            if i < rest.len() {
                assert(after.pipes[i] == r.pipes[i]);
            }
        }
    }
}

/// Evicting a pipe that has just been registered leaves the pipes as they were;
/// only one that had the same id, left over from before the count ran through,
/// is gone with it.
pub proof fn registering_and_evicting_balance(
    r: RoutingView,
    device_id: Seq<char>,
    direction: Direction,
    now: Instant,
)
    requires
        r.wf(),
    ensures
        r.pipe_registered(device_id, direction, now).pipe_evicted(r.next()).pipes == without_pipe(
            r.pipes,
            r.next(),
        ),
        !has_pipe(r.pipes, r.next()) ==> r.pipe_registered(device_id, direction, now).pipe_evicted(
            r.next(),
        ).pipes == r.pipes,
{
    ids_are_fresh(r, device_id, direction, now);
    let after = r.pipe_registered(device_id, direction, now);
    let last = after.pipes.len() - 1;
    lemma_pipe_place(after.pipes, last);
    assert(after.pipes.remove(last) =~= without_pipe(r.pipes, r.next()));
}

/// Evicting a pipe twice is evicting it once.
pub proof fn evicting_is_idempotent(r: RoutingView, id: StableConnId)
    requires
        r.wf(),
    ensures
        r.pipe_evicted(id).pipe_evicted(id) == r.pipe_evicted(id),
        !has_pipe(r.pipe_evicted(id).pipes, id),
{
    lemma_without_pipe(r.pipes, id);
}

/// Hints and pipes are independent: noting or forgetting a hint opens and
/// closes no pipe, opening and closing a pipe changes no hint.
pub proof fn hints_and_pipes_are_independent(
    r: RoutingView,
    prefix: KeyPrefix,
    device: Seq<char>,
    direction: Direction,
    now: Instant,
    id: StableConnId,
)
    ensures
        r.hint_noted(prefix, device).pipes == r.pipes,
        r.pipe_registered(device, direction, now).scan_hint == r.scan_hint,
        r.pipe_evicted(id).scan_hint == r.scan_hint,
{
}

/// An id reserved anew is reserved for that endpoint alone. Reserving keeps the
/// count going up until it has run through.
pub proof fn reserved_ids_are_fresh(r: RoutingView, endpoint_id: EndpointId)
    requires
        r.wf(),
    ensures
        r.reserved(endpoint_id).wf(),
        !r.reservations.contains_key(endpoint_prefix(endpoint_id)@) ==> r.reserved(
            endpoint_id,
        ).reservation_with(r.next()) == Some(
            Reservation {
                stable_id: r.next(),
                endpoint_id,
                prefix: endpoint_prefix(endpoint_id),
            },
        ),
        r.counting_up() && r.last_id < u64::MAX ==> r.reserved(endpoint_id).counting_up(),
{
    let prefix = endpoint_prefix(endpoint_id);
    let after = r.reserved(endpoint_id);
    if !r.reservations.contains_key(prefix@) {
        let rest = r.reservations_without(r.next());
        lemma_reservation_with(r, r.next());
        assert forall|p: Seq<u8>, q: Seq<u8>| #[trigger]
            after.reservations.contains_key(p) && #[trigger] after.reservations.contains_key(q) && p
                != q implies after.reservations[p].stable_id != after.reservations[q].stable_id by {
            if p != prefix@ {
                assert(rest.contains_key(p));
            }
            if q != prefix@ {
                assert(rest.contains_key(q));
            }
        }
        assert forall|p: Seq<u8>| #[trigger] after.reservations.contains_key(p) implies {
            let found = after.reservations[p];
            found.prefix@ == p && found.prefix == endpoint_prefix(found.endpoint_id) && 0
                < found.stable_id.raw
        } by {
            if p != prefix@ {
                assert(rest.contains_key(p));
                assert(r.reservations.contains_key(p));
            }
        }
        assert(after.reservations.contains_key(prefix@));
        let other = choose|p: Seq<u8>| #[trigger]
            after.reservations.contains_key(p) && after.reservations[p].stable_id == r.next();
        assert(after.reservations.contains_key(other));
        if r.counting_up() && r.last_id < u64::MAX {
            assert forall|p: Seq<u8>| #[trigger] after.reservations.contains_key(p) implies
                after.reservations[p].stable_id.raw <= after.last_id by {
                if p != prefix@ {
                    assert(rest.contains_key(p));
                    assert(r.reservations.contains_key(p));
                }
            }
        }
    }
}

/// Reserving twice for the same endpoint hands out the same id.
pub proof fn reserving_is_idempotent(r: RoutingView, endpoint_id: EndpointId)
    ensures
        r.reserved(endpoint_id).reserved(endpoint_id) == r.reserved(endpoint_id),
        r.reserved(endpoint_id).reservations.contains_key(endpoint_prefix(endpoint_id)@),
{
}

impl Routing {
    /// No id occurs twice and every table holds each key once.
    pub closed spec fn wf(self) -> bool {
        &&& self@.wf()
        &&& self.scan_hint.wf()
        &&& self.routable.wf()
        &&& self.pending.wf()
        &&& self.reservations.wf()
    }

    /// What is well-formed inside is well-formed as seen from outside.
    pub proof fn lemma_wf(&self)
        requires
            self.wf(),
        ensures
            self@.wf(),
    {
    }

    pub fn new() -> (r: Self)
        ensures
            r.wf(),
            r@ == (RoutingView {
                pipes: Seq::empty(),
                last_id: 0,
                scan_hint: Map::empty(),
                routable: Map::empty(),
                pending: Map::empty(),
                reservations: Map::empty(),
                waiting: Seq::empty(),
                due: Seq::empty(),
            }),
    {
        let r = Routing {
            pipes: Vec::new(),
            next_id: 0,
            scan_hint: PrefixTable::new(),
            routable: EndpointTable::new(),
            pending: EndpointTable::new(),
            reservations: PrefixTable::new(),
            waiting: Vec::new(),
            due: Vec::new(),
        };
        assert(r@.pipes =~= Seq::empty());
        r
    }

    /// The id to hand out next.
    fn mint(&self) -> (id: StableConnId)
        ensures
            id == self@.next(),
    {
        if self.next_id < u64::MAX {
            StableConnId { raw: self.next_id + 1 }
        } else {
            StableConnId { raw: 1 }
        }
    }

    /// Records a pipe and hands out its id, which is never zero.
    pub fn register_pipe(
        &mut self,
        device_id: DeviceId,
        direction: Direction,
        now: Instant,
    ) -> (id: StableConnId)
        requires
            old(self).wf(),
        ensures
            final(self).wf(),
            id == old(self)@.next(),
            id.raw > 0,
            final(self)@ == old(self)@.pipe_registered(device_id@, direction, now),
    {
        let id = self.mint();
        let ghost info = device_id@;
        self.evict_pipe(id);
        let ghost rest = self@.pipes;
        self.next_id = id.raw;
        self.pipes.push(Pipe { id, device_id, direction, created_at: now });
        proof {
            let pipe = PipeInfo { id, device_id: info, direction, created_at: now };
            assert(self@.pipes =~= rest.push(pipe));
            ids_are_fresh(old(self)@, info, direction, now);
        }
        id
    }

    fn pipe_position(&self, id: StableConnId) -> (r: Option<usize>)
        requires
            self.wf(),
        ensures
            match r {
                Some(i) => i < self.pipes@.len() && self.pipes@[i as int]@.id == id && has_pipe(
                    self@.pipes,
                    id,
                ) && pipe_place(self@.pipes, id) == i,
                None => !has_pipe(self@.pipes, id),
            },
    {
        let mut i: usize = 0;
        while i < self.pipes.len()
            invariant
                self.wf(),
                i <= self.pipes@.len(),
                forall|j: int| 0 <= j < i ==> (#[trigger] self@.pipes[j]).id != id,
            decreases self.pipes@.len() - i,
        {
            if self.pipes[i].id.raw == id.raw {
                proof {
                    assert(self@.pipes[i as int].id == id);
                    lemma_pipe_place(self@.pipes, i as int);
                }
                return Some(i);
            }
            assert(self@.pipes[i as int].id != id);
            i = i + 1;
        }
        None
    }

    /// Forgets a pipe. One that is not there is left alone.
    pub fn evict_pipe(&mut self, id: StableConnId)
        requires
            old(self).wf(),
        ensures
            final(self).wf(),
            final(self)@ == old(self)@.pipe_evicted(id),
    {
        if let Some(i) = self.pipe_position(id) {
            let _ = self.pipes.remove(i);
            proof {
                assert(self@.pipes =~= old(self)@.pipes.remove(i as int));
                lemma_without_pipe(old(self)@.pipes, id);
            }
        }
    }

    /// How many pipes and hints there are.
    pub fn snapshot(&self) -> (s: RoutingSnapshot)
        requires
            self.wf(),
        ensures
            s.pipes == self@.pipes.len(),
            s.scan_hints == self@.scan_hint.len(),
    {
        RoutingSnapshot { pipes: self.pipes.len(), scan_hints: self.scan_hint.len() }
    }

    /// The live pipes, in the order in which they opened.
    pub fn pipes_for_debug(&self) -> (pipes: Vec<Pipe>)
        ensures
            pipes_view(pipes@) == self@.pipes,
    {
        let mut pipes: Vec<Pipe> = Vec::new();
        let mut i: usize = 0;
        while i < self.pipes.len()
            invariant
                i <= self.pipes@.len(),
                pipes@.len() == i,
                forall|j: int| 0 <= j < i ==> (#[trigger] pipes@[j])@ == self.pipes@[j]@,
            decreases self.pipes@.len() - i,
        {
            pipes.push(self.pipes[i].clone());
            i = i + 1;
        }
        assert(pipes_view(pipes@) =~= self@.pipes);
        pipes
    }

    /// The device of a pipe.
    pub fn device_for_pipe(&self, id: StableConnId) -> (r: Option<DeviceId>)
        requires
            self.wf(),
        ensures
            match r {
                Some(d) => self@.device_of_pipe(id) == Some(d@),
                None => self@.device_of_pipe(id) is None,
            },
    {
        match self.pipe_position(id) {
            Some(i) => Some(self.pipes[i].device_id.clone()),
            None => None,
        }
    }

    /// Records that a prefix was seen advertising from a device, wakes those
    /// who wait for an endpoint with that prefix, and returns the device under
    /// which the prefix was known.
    pub fn note_scan_hint(&mut self, prefix: KeyPrefix, device: DeviceId) -> (r: Option<DeviceId>)
        requires
            old(self).wf(),
        ensures
            final(self).wf(),
            final(self)@ == old(self)@.hint_noted(prefix, device@),
            match r {
                Some(d) => old(self)@.scan_hint.contains_key(prefix@)
                    && old(self)@.scan_hint[prefix@] == d@,
                None => !old(self)@.scan_hint.contains_key(prefix@),
            },
    {
        let previous = self.scan_hint.insert(prefix, device);
        let mut kept: Vec<Waiter> = Vec::new();
        let ghost f = waits_for_prefix(prefix);
        let ghost keep = |w: Waiter| !f(w);
        let ghost all = self.waiting@;
        let mut i: usize = 0;
        proof {
            reveal(Seq::filter);
            assert(all.take(0).filter(keep) =~= Seq::empty());
            assert(wakers_of(all.take(0), f) =~= Seq::empty());
        }
        while i < self.waiting.len()
            invariant
                i <= self.waiting@.len(),
                self.waiting@ == all,
                f == waits_for_prefix(prefix),
                keep == (|w: Waiter| !f(w)),
                kept@ == all.take(i as int).filter(keep),
                self.due@ =~= old(self).due@ + wakers_of(all.take(i as int), f),
                self.pipes == old(self).pipes,
                self.next_id == old(self).next_id,
                self.scan_hint.wf(),
                self.scan_hint@ == old(self).scan_hint@.insert(prefix@, device@),
                self.routable == old(self).routable,
                self.pending == old(self).pending,
                self.reservations == old(self).reservations,
            decreases self.waiting@.len() - i,
        {
            let w = self.waiting[i];
            proof {
                reveal(Seq::filter);
                assert(all.take(i + 1).drop_last() =~= all.take(i as int));
                assert(all.take(i + 1).last() == w);
            }
            if prefix_equal(&prefix_from_endpoint(&w.endpoint_id), &prefix) {
                self.due.push(w.waker);
            } else {
                kept.push(w);
            }
            i = i + 1;
        }
        self.waiting = kept;
        proof {
            assert(all.take(i as int) =~= all);
            assert(self@.waiting == old(self)@.hint_noted(prefix, device@).waiting);
        }
        previous
    }

    /// Forgets what was seen under a prefix.
    pub fn forget_scan_hint(&mut self, prefix: &KeyPrefix)
        requires
            old(self).wf(),
        ensures
            final(self).wf(),
            final(self)@ == (RoutingView {
                scan_hint: old(self)@.scan_hint.remove(prefix@),
                ..old(self)@
            }),
    {
        let _ = self.scan_hint.remove(prefix);
    }

    /// The device last seen advertising under a prefix.
    pub fn scan_hint_for_prefix(&self, prefix: &KeyPrefix) -> (r: Option<DeviceId>)
        requires
            self.wf(),
        ensures
            match r {
                Some(d) => self@.scan_hint.contains_key(prefix@) && self@.scan_hint[prefix@] == d@,
                None => !self@.scan_hint.contains_key(prefix@),
            },
    {
        match self.scan_hint.get(prefix) {
            Some(d) => Some(d.clone()),
            None => None,
        }
    }

    /// Makes a pipe the one over which an endpoint is reached.
    pub fn insert_routable(
        &mut self,
        endpoint_id: EndpointId,
        stable_id: StableConnId,
        dialer: Dialer,
        now: Instant,
    )
        requires
            old(self).wf(),
        ensures
            final(self).wf(),
            final(self)@ == (RoutingView {
                routable: old(self)@.routable.insert(
                    endpoint_id@,
                    Routable { stable_id, dialer, verified_at: now },
                ),
                ..old(self)@
            }),
    {
        let _ = self.routable.insert(
            endpoint_id.bytes,
            Routable { stable_id, dialer, verified_at: now },
        );
    }

    /// Makes the pipe over which a handshake has finished the one that leads to
    /// the remote endpoint. The handshake that finished last is the one that the
    /// peer relies on, so the pipe takes the place of an earlier one, which is
    /// listed.
    pub fn promote(
        &mut self,
        id: StableConnId,
        mine: &EndpointId,
        remote: EndpointId,
        now: Instant,
    ) -> (outcome: PromoteOutcome)
        requires
            old(self).wf(),
        ensures
            final(self).wf(),
            final(self)@ == old(self)@.promoted(id, mine@, remote@, now),
            outcome matches PromoteOutcome::Accepted { evicted } && evicted@ == old(
                self,
            )@.displaced_by(id, remote@),
    {
        let direction = match self.pipe_position(id) {
            Some(i) => self.pipes[i].direction,
            None => Direction::Outbound,
        };
        let mut evicted: Vec<StableConnId> = Vec::new();
        if let Some(previous) = self.routable_pipe_for(&remote) {
            if previous.raw != id.raw {
                evicted.push(previous);
            }
        }
        let dialer = Dialer::compute(mine, &remote, direction);
        self.insert_routable(remote, id, dialer, now);
        PromoteOutcome::Accepted { evicted }
    }

    /// How many endpoints are reached over a routable pipe.
    pub fn routable_len(&self) -> (n: usize)
        requires
            self.wf(),
        ensures
            n == self@.routable.len(),
    {
        self.routable.len()
    }

    /// The routable pipe of an endpoint.
    pub fn routable_pipe_for(&self, endpoint_id: &EndpointId) -> (r: Option<StableConnId>)
        requires
            self.wf(),
        ensures
            match r {
                Some(id) => self@.routable.contains_key(endpoint_id@)
                    && self@.routable[endpoint_id@].stable_id == id,
                None => !self@.routable.contains_key(endpoint_id@),
            },
    {
        match self.routable.get(&endpoint_id.bytes) {
            Some(r) => Some(r.stable_id),
            None => None,
        }
    }

    /// Takes an endpoint's routable pipe from it.
    pub fn evict_routable(&mut self, endpoint_id: &EndpointId) -> (r: Option<StableConnId>)
        requires
            old(self).wf(),
        ensures
            final(self).wf(),
            final(self)@ == (RoutingView {
                routable: old(self)@.routable.remove(endpoint_id@),
                ..old(self)@
            }),
            match r {
                Some(id) => old(self)@.routable.contains_key(endpoint_id@)
                    && old(self)@.routable[endpoint_id@].stable_id == id,
                None => !old(self)@.routable.contains_key(endpoint_id@),
            },
    {
        match self.routable.remove(&endpoint_id.bytes) {
            Some(r) => Some(r.stable_id),
            None => None,
        }
    }

    /// The pending pipe of an endpoint.
    pub fn pending_pipe_for(&self, endpoint_id: &EndpointId) -> (r: Option<StableConnId>)
        requires
            self.wf(),
        ensures
            match r {
                Some(id) => self@.pending.contains_key(endpoint_id@)
                    && self@.pending[endpoint_id@] == id,
                None => !self@.pending.contains_key(endpoint_id@),
            },
    {
        match self.pending.get(&endpoint_id.bytes) {
            Some(id) => Some(*id),
            None => None,
        }
    }

    /// The reservation under a prefix.
    pub fn reservation_for_prefix(&self, prefix: &KeyPrefix) -> (r: Option<Reservation>)
        requires
            self.wf(),
        ensures
            match r {
                Some(reservation) => self@.reservations.contains_key(prefix@)
                    && self@.reservations[prefix@] == reservation,
                None => !self@.reservations.contains_key(prefix@),
            },
    {
        match self.reservations.get(prefix) {
            Some(r) => Some(*r),
            None => None,
        }
    }

    /// Reserves an id for an endpoint, or returns the one already reserved.
    pub fn reserve_outbound(&mut self, endpoint_id: EndpointId) -> (id: StableConnId)
        requires
            old(self).wf(),
        ensures
            final(self).wf(),
            final(self)@ == old(self)@.reserved(endpoint_id),
            final(self)@.reservations[endpoint_prefix(endpoint_id)@].stable_id == id,
    {
        let prefix = prefix_from_endpoint(&endpoint_id);
        match self.reservation_for_prefix(&prefix) {
            Some(r) => r.stable_id,
            None => {
                let id = self.mint();
                if let Some((_, stale)) = self.reservation_target(id) {
                    let _ = self.reservations.remove(&stale);
                }
                self.next_id = id.raw;
                let _ = self.reservations.insert(
                    prefix,
                    Reservation { stable_id: id, endpoint_id, prefix },
                );
                proof {
                    reserved_ids_are_fresh(old(self)@, endpoint_id);
                }
                id
            },
        }
    }

    /// Lets a task wait until an endpoint can be reached.
    pub fn register_endpoint_waker(&mut self, endpoint_id: EndpointId, waker: WakerId)
        requires
            old(self).wf(),
        ensures
            final(self).wf(),
            final(self)@ == old(self)@.parked(endpoint_id, waker),
    {
        let ghost waiter = Waiter { endpoint_id, waker };
        let mut i: usize = 0;
        while i < self.waiting.len()
            invariant
                *self == *old(self),
                self.wf(),
                waiter == (Waiter { endpoint_id, waker }),
                i <= self.waiting@.len(),
                forall|j: int| 0 <= j < i ==> #[trigger] self.waiting@[j] != waiter,
            decreases self.waiting@.len() - i,
        {
            let w = self.waiting[i];
            proof {
                lemma_endpoint_ext(w.endpoint_id, endpoint_id);
            }
            if w.waker == waker && w.endpoint_id.bytes.same(&endpoint_id.bytes) {
                assert(self.waiting@[i as int] == waiter);
                return;
            }
            i = i + 1;
        }
        self.waiting.push(Waiter { endpoint_id, waker });
    }

    /// The tasks that are to be woken, which the caller now does.
    pub fn take_due(&mut self) -> (due: Vec<WakerId>)
        requires
            old(self).wf(),
        ensures
            final(self).wf(),
            due@ == old(self)@.due,
            final(self)@ == (RoutingView { due: Seq::empty(), ..old(self)@ }),
    {
        let mut due: Vec<WakerId> = Vec::new();
        std::mem::swap(&mut due, &mut self.due);
        due
    }

    /// Makes a pipe the one under way to an endpoint, and wakes those who wait
    /// for that endpoint.
    pub fn register_pending(&mut self, endpoint_id: EndpointId, stable_id: StableConnId)
        requires
            old(self).wf(),
        ensures
            final(self).wf(),
            final(self)@ == (RoutingView {
                pending: old(self)@.pending.insert(endpoint_id@, stable_id),
                ..old(self)@.woken(waits_for_endpoint(endpoint_id@))
            }),
    {
        let _ = self.pending.insert(endpoint_id.bytes, stable_id);
        let mut kept: Vec<Waiter> = Vec::new();
        let ghost f = waits_for_endpoint(endpoint_id@);
        let ghost keep = |w: Waiter| !f(w);
        let ghost all = self.waiting@;
        let mut i: usize = 0;
        proof {
            reveal(Seq::filter);
            assert(all.take(0).filter(keep) =~= Seq::empty());
            assert(wakers_of(all.take(0), f) =~= Seq::empty());
        }
        while i < self.waiting.len()
            invariant
                i <= self.waiting@.len(),
                self.waiting@ == all,
                f == waits_for_endpoint(endpoint_id@),
                keep == (|w: Waiter| !f(w)),
                kept@ == all.take(i as int).filter(keep),
                self.due@ =~= old(self).due@ + wakers_of(all.take(i as int), f),
                self.pipes == old(self).pipes,
                self.next_id == old(self).next_id,
                self.pending.wf(),
                self.pending@ == old(self).pending@.insert(endpoint_id@, stable_id),
                self.routable == old(self).routable,
                self.scan_hint == old(self).scan_hint,
                self.reservations == old(self).reservations,
            decreases self.waiting@.len() - i,
        {
            let w = self.waiting[i];
            proof {
                reveal(Seq::filter);
                assert(all.take(i + 1).drop_last() =~= all.take(i as int));
                assert(all.take(i + 1).last() == w);
            }
            if bytes_equal(w.endpoint_id.bytes.as_slice(), endpoint_id.bytes.as_slice()) {
                self.due.push(w.waker);
            } else {
                kept.push(w);
            }
            i = i + 1;
        }
        self.waiting = kept;
        proof {
            assert(all.take(i as int) =~= all);
            assert(self@.waiting == old(self)@.woken(f).waiting);
        }
    }

    /// Lets a pipe be pending for no endpoint any more.
    pub fn evict_pipe_state(&mut self, id: StableConnId)
        requires
            old(self).wf(),
        ensures
            final(self).wf(),
            final(self)@ == (RoutingView {
                pending: without_value(old(self)@.pending, id),
                ..old(self)@
            }),
    {
        self.pending.remove_values(&id);
    }

    /// The routable pipes that are live, each with its device. A routable id
    /// whose pipe is gone is left out.
    pub fn routable_entries(&self) -> (entries: Vec<RoutableEntry>)
        requires
            self.wf(),
        ensures
            forall|i: int|
                0 <= i < entries@.len() ==> self@.routable_live(#[trigger] entries@[i]),
            forall|i: int, j: int|
                0 <= i < j < entries@.len() ==> (#[trigger] entries@[i]).endpoint_id@ != (
                #[trigger] entries@[j]).endpoint_id@,
            forall|key: Seq<u8>| #[trigger]
                self@.routable.contains_key(key) && has_pipe(
                    self@.pipes,
                    self@.routable[key].stable_id,
                ) ==> exists|i: int|
                    0 <= i < entries@.len() && (#[trigger] entries@[i]).endpoint_id@ == key,
    {
        let mut entries: Vec<RoutableEntry> = Vec::new();
        let n: usize = self.routable.len();
        let mut i: usize = 0;
        proof {
            self.routable.lemma_pairs();
        }
        while i < n
            invariant
                self.wf(),
                i <= n,
                n == self.routable.pairs().len(),
                forall|a: int, b: int|
                    0 <= a < b < self.routable.pairs().len() ==> (
                    #[trigger] self.routable.pairs()[a]).0 != (
                    #[trigger] self.routable.pairs()[b]).0,
                forall|a: int|
                    0 <= a < entries@.len() ==> self@.routable_live(#[trigger] entries@[a]),
                forall|a: int|
                    0 <= a < entries@.len() ==> exists|j: int|
                        0 <= j < i && (#[trigger] self.routable.pairs()[j]).0 == (
                        #[trigger] entries@[a]).endpoint_id@,
                forall|a: int, b: int|
                    0 <= a < b < entries@.len() ==> (#[trigger] entries@[a]).endpoint_id@ != (
                    #[trigger] entries@[b]).endpoint_id@,
                forall|j: int|
                    0 <= j < i && has_pipe(
                        self@.pipes,
                        (#[trigger] self.routable.pairs()[j]).1.stable_id,
                    ) ==> exists|a: int|
                        0 <= a < entries@.len() && (#[trigger] entries@[a]).endpoint_id@
                            == self.routable.pairs()[j].0,
            decreases n - i,
        {
            let (key, r) = self.routable.at(i);
            assert(self.routable.pairs()[i as int] == (key@, r@));
            let ghost before = entries@;
            if let Some(device_id) = self.device_for_pipe(r.stable_id) {
                let entry = RoutableEntry {
                    endpoint_id: EndpointId { bytes: *key },
                    stable_id: r.stable_id,
                    device_id,
                    verified_at: r.verified_at,
                };
                entries.push(entry);
                proof {
                    assert(entries@[before.len() as int].endpoint_id@ == key@);
                    assert forall|a: int, b: int| 0 <= a < b < entries@.len() implies (
                    #[trigger] entries@[a]).endpoint_id@ != (#[trigger] entries@[b]).endpoint_id@ by {
                        if b == before.len() {
                            assert(entries@[a] == before[a]);
                            let j = choose|j: int|
                                0 <= j < i && (#[trigger] self.routable.pairs()[j]).0
                                    == before[a].endpoint_id@;
                            assert(self.routable.pairs()[j].0 != self.routable.pairs()[i as int].0);
                        } else {
                            assert(before[a].endpoint_id@ != before[b].endpoint_id@);
                        }
                    }
                    assert forall|a: int| 0 <= a < entries@.len() implies exists|j: int|
                        0 <= j < i + 1 && (#[trigger] self.routable.pairs()[j]).0 == (
                        #[trigger] entries@[a]).endpoint_id@ by {
                        if a == before.len() {
                            assert(self.routable.pairs()[i as int].0 == entries@[a].endpoint_id@);
                        } else {
                            assert(entries@[a] == before[a]);
                        }
                    }
                    assert forall|j: int|
                        0 <= j < i + 1 && has_pipe(
                            self@.pipes,
                            (#[trigger] self.routable.pairs()[j]).1.stable_id,
                        ) implies exists|a: int|
                        0 <= a < entries@.len() && (#[trigger] entries@[a]).endpoint_id@
                            == self.routable.pairs()[j].0 by {
                        if j == i {
                            assert(entries@[before.len() as int].endpoint_id@
                                == self.routable.pairs()[j].0);
                        } else {
                            let a = choose|a: int|
                                0 <= a < before.len() && (#[trigger] before[a]).endpoint_id@
                                    == self.routable.pairs()[j].0;
                            assert(entries@[a] == before[a]);
                        }
                    }
                }
            }
            i = i + 1;
        }
        proof {
            self.routable.lemma_pairs();
            assert forall|key: Seq<u8>| #[trigger]
                self@.routable.contains_key(key) && has_pipe(
                    self@.pipes,
                    self@.routable[key].stable_id,
                ) implies exists|a: int|
                0 <= a < entries@.len() && (#[trigger] entries@[a]).endpoint_id@ == key by {
                let j = choose|j: int|
                    0 <= j < self.routable.pairs().len() && (#[trigger] self.routable.pairs()[j]).0
                        == key;
                assert(self.routable.pairs()[j].1 == self@.routable[key]);
            }
        }
        entries
    }

    /// The endpoint and prefix for which an id was reserved.
    pub fn reservation_target(&self, id: StableConnId) -> (r: Option<(EndpointId, KeyPrefix)>)
        requires
            self.wf(),
        ensures
            match r {
                Some((endpoint_id, prefix)) => self@.reservation_with(id) == Some(
                    Reservation { stable_id: id, endpoint_id, prefix },
                ),
                None => self@.reservation_with(id) is None,
            },
    {
        let n: usize = self.reservations.len();
        let mut i: usize = 0;
        while i < n
            invariant
                self.wf(),
                i <= n,
                n == self.reservations.pairs().len(),
                forall|j: int|
                    0 <= j < i ==> (#[trigger] self.reservations.pairs()[j]).1.stable_id != id,
            decreases n - i,
        {
            let (key, r) = self.reservations.at(i);
            assert(self.reservations.pairs()[i as int] == (key@, r@));
            if r.stable_id.raw == id.raw {
                proof {
                    assert(self@.reservations.contains_key(key@));
                    let other = choose|prefix: Seq<u8>| #[trigger]
                        self@.reservations.contains_key(prefix)
                            && self@.reservations[prefix].stable_id == id;
                    assert(self@.reservations.contains_key(other));
                    assert(other == key@);
                }
                return Some((r.endpoint_id, r.prefix));
            }
            i = i + 1;
        }
        proof {
            self.reservations.lemma_pairs();
            assert forall|prefix: Seq<u8>| #[trigger]
                self@.reservations.contains_key(prefix) implies self@.reservations[prefix].stable_id
                != id by {
                let j = choose|j: int|
                    0 <= j < self.reservations.pairs().len() && (
                    #[trigger] self.reservations.pairs()[j]).0 == prefix;
                assert(self.reservations.pairs()[j].1 == self@.reservations[prefix]);
            }
        }
        None
    }
}

} // verus!
