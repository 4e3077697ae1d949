//! Which of two links between the same pair of endpoints survives, and who
//! waits before dialling.

use vstd::arithmetic::div_mod::lemma_add_mod_noop_right;
use vstd::arithmetic::power2::{lemma_pow2_adds, lemma_pow2_pos, lemma_pow2_strictly_increases, pow2};
use vstd::prelude::*;

use crate::bytes::{
    bytes_precede, precedes, precedes_irreflexive, precedes_total, smaller_at,
    the_first_difference_decides,
};
use crate::peer::{ConnectRole, EndpointId, KeyPrefix};
use crate::time::{Duration, Instant};

verus! {

/// How long, in nanoseconds, the side with the lower key waits for the other
/// side to dial.
pub const FAIRNESS_WINDOW: u64 = 2_000_000_000;

/// By how much, in nanoseconds, that wait is spread in either direction.
pub const FAIRNESS_JITTER: u64 = 500_000_000;

/// Of two links between the same endpoints each side keeps the one in which
/// the endpoint with the higher key is the central.
pub open spec fn wins(role: ConnectRole, mine: Seq<u8>, theirs: Seq<u8>) -> bool {
    match role {
        ConnectRole::Central => precedes(theirs, mine),
        ConnectRole::Peripheral => precedes(mine, theirs),
    }
}

/// Whether the link in which this node has `role` is the one to keep.
pub fn should_win(role: ConnectRole, mine: &EndpointId, theirs: &EndpointId) -> (r: bool)
    ensures
        r == wins(role, mine@, theirs@),
{
    match role {
        ConnectRole::Central => bytes_precede(theirs.bytes.as_slice(), mine.bytes.as_slice()),
        ConnectRole::Peripheral => bytes_precede(mine.bytes.as_slice(), theirs.bytes.as_slice()),
    }
}

/// A node keeps exactly one of the two roles towards another endpoint.
pub proof fn exactly_one_role_wins(mine: Seq<u8>, theirs: Seq<u8>)
    requires
        mine != theirs,
    ensures
        wins(ConnectRole::Central, mine, theirs) != wins(ConnectRole::Peripheral, mine, theirs),
{
    precedes_total(mine, theirs);
}

/// Both nodes keep the same link: one keeps its central end exactly when the
/// other keeps its peripheral end.
pub proof fn both_sides_keep_the_same_link(a: Seq<u8>, b: Seq<u8>)
    ensures
        wins(ConnectRole::Central, a, b) == wins(ConnectRole::Peripheral, b, a),
        wins(ConnectRole::Peripheral, a, b) == wins(ConnectRole::Central, b, a),
{
}

/// Towards itself a node keeps no link.
pub proof fn no_role_wins_against_oneself(a: Seq<u8>, role: ConnectRole)
    ensures
        !wins(role, a, a),
{
    precedes_irreflexive(a);
}

/// The first `n` bytes summed, each weighted by its place in an eight-byte word.
pub open spec fn word_sum(prefix: Seq<u8>, n: nat) -> nat
    decreases n,
{
    if n == 0 {
        0
    } else {
        word_sum(prefix, (n - 1) as nat) + (prefix[n - 1] as nat) * pow2((8 * ((n - 1) % 8)) as nat)
    }
}

/// The number that spreads the dials towards different peers.
pub open spec fn dial_seed(prefix: Seq<u8>) -> nat {
    word_sum(prefix, prefix.len()) % 0x1_0000_0000_0000_0000
}

/// How long a deferred dial waits, in nanoseconds: the fairness window, shifted
/// by a jitter in `[-FAIRNESS_JITTER, FAIRNESS_JITTER)` that depends on the peer
/// alone.
pub open spec fn dial_wait(prefix: KeyPrefix) -> int {
    FAIRNESS_WINDOW - FAIRNESS_JITTER + dial_seed(prefix@) % (2 * FAIRNESS_JITTER) as nat
}

/// Where a deferred dial falls.
pub open spec fn dial_deadline(now: Instant, prefix: KeyPrefix) -> Instant {
    Instant { nanos: (now.nanos + dial_wait(prefix)) as u64 }
}

proof fn lemma_shifted_byte(b: u8, places: u64)
    requires
        places < 8,
    ensures
        (b as u64) << (8 * places) as u64 == b * pow2((8 * places) as nat),
{
    let shift: u64 = (8 * places) as u64;
    lemma_pow2_pos(shift as nat);
    lemma_pow2_adds(shift as nat, 8);
    assert(pow2(8) == 256) by {
        vstd::arithmetic::power2::lemma2_to64();
    }
    assert(pow2((shift + 8) as nat) <= pow2(64)) by {
        if shift + 8 < 64 {
            lemma_pow2_strictly_increases((shift + 8) as nat, 64);
        }
    }
    assert(pow2(64) == 0x1_0000_0000_0000_0000) by {
        vstd::arithmetic::power2::lemma2_to64();
    }
    let p = pow2(shift as nat);
    assert(b * p <= 255 * p) by (nonlinear_arith)
        requires
            b <= 255,
    ;
    assert(255 * p < p * 256) by (nonlinear_arith)
        requires
            p > 0,
    ;
    vstd::bits::lemma_u64_shl_is_mul(b as u64, shift);
}

/// How long to hold back a dial that is deferred.
///
/// The jitter is keyed by the peer's prefix, so that dials to several peers
/// spread over the window and a given peer always gets the same wait.
pub fn pending_dial_wait(prefix: KeyPrefix) -> (wait: Duration)
    ensures
        wait.nanos == dial_wait(prefix),
        FAIRNESS_WINDOW - FAIRNESS_JITTER <= wait.nanos < FAIRNESS_WINDOW + FAIRNESS_JITTER,
{
    let mut seed: u64 = 0;
    let mut i: usize = 0;
    while i < 12
        invariant
            i <= 12,
            seed == word_sum(prefix@, i as nat) % 0x1_0000_0000_0000_0000,
        decreases 12 - i,
    {
        let places: u64 = (i % 8) as u64;
        let term: u64 = (prefix[i] as u64) << (8 * places);
        proof {
            lemma_shifted_byte(prefix[i as int], places);
            let before = word_sum(prefix@, i as nat);
            lemma_add_mod_noop_right(term as int, before as int, 0x1_0000_0000_0000_0000);
            assert(word_sum(prefix@, (i + 1) as nat) == before + term);
            if seed + term < 0x1_0000_0000_0000_0000 {
                vstd::arithmetic::div_mod::lemma_small_mod((seed + term) as nat, 0x1_0000_0000_0000_0000);
            } else {
                vstd::arithmetic::div_mod::lemma_mod_multiples_vanish(1, seed + term - 0x1_0000_0000_0000_0000, 0x1_0000_0000_0000_0000);
                vstd::arithmetic::div_mod::lemma_small_mod((seed + term - 0x1_0000_0000_0000_0000) as nat, 0x1_0000_0000_0000_0000);
            }
        }
        seed = seed.wrapping_add(term);
        i = i + 1;
    }
    let jitter: u64 = seed % (2 * FAIRNESS_JITTER);
    Duration { nanos: (FAIRNESS_WINDOW - FAIRNESS_JITTER) + jitter }
}

/// When to dial a peer whose dial is deferred.
pub fn pending_dial_deadline(now: Instant, prefix: KeyPrefix) -> (deadline: Instant)
    requires
        now.nanos + dial_wait(prefix) <= u64::MAX,
    ensures
        deadline == dial_deadline(now, prefix),
        deadline.nanos == now.nanos + dial_wait(prefix),
{
    now.after(pending_dial_wait(prefix))
}

/// The value of up to eight bytes, least significant first.
pub open spec fn word(bytes: Seq<u8>) -> nat {
    word_sum(bytes, bytes.len())
}

proof fn lemma_words(p: Seq<u8>, n: nat)
    requires
        p.len() == 12,
        n <= 4,
    ensures
        word_sum(p, 8 + n) == word_sum(p.take(8), 8) + word_sum(p.skip(8), n),
    decreases n,
{
    if n == 0 {
        lemma_word_sum_prefix(p, p.take(8), 8);
    } else {
        lemma_words(p, (n - 1) as nat);
        assert((8 + n - 1) % 8 == (n - 1) % 8);
        assert(p.skip(8)[n - 1] == p[8 + n - 1]);
    }
}

proof fn lemma_word_sum_prefix(a: Seq<u8>, b: Seq<u8>, n: nat)
    requires
        n <= a.len(),
        n <= b.len(),
        forall|j: int| 0 <= j < n ==> a[j] == b[j],
    ensures
        word_sum(a, n) == word_sum(b, n),
    decreases n,
{
    if n > 0 {
        lemma_word_sum_prefix(a, b, (n - 1) as nat);
    }
}

/// How long a deferred dial waits rests on the peer alone, not on when it is
/// deferred: the window less the jitter, and what the seed leaves of twice the
/// jitter. The seed is the sum of the two words that the prefix is made of. At
/// any two instants at which there is a deadline, it lies equally far ahead.
pub proof fn dial_waits_rest_on_the_peer_alone(now: Instant, later: Instant, p: KeyPrefix)
    ensures
        dial_wait(p) == FAIRNESS_WINDOW - FAIRNESS_JITTER + dial_seed(p@) % (2
            * FAIRNESS_JITTER) as nat,
        FAIRNESS_WINDOW - FAIRNESS_JITTER <= dial_wait(p) < FAIRNESS_WINDOW + FAIRNESS_JITTER,
        dial_seed(p@) == (word(p@.take(8)) + word(p@.skip(8))) % 0x1_0000_0000_0000_0000,
        now.nanos + dial_wait(p) <= u64::MAX ==> dial_deadline(now, p).nanos - now.nanos
            == dial_wait(p),
        now.nanos + dial_wait(p) <= u64::MAX && later.nanos + dial_wait(p) <= u64::MAX
            ==> dial_deadline(now, p).nanos - now.nanos == dial_deadline(later, p).nanos
            - later.nanos,
{
    lemma_words(p@, 4);
}

/// Two bytes of the prefix that stand at the same place of its two words can
/// change places.
pub proof fn dial_waits_survive_swaps(now: Instant, p: KeyPrefix, q: KeyPrefix, i: int)
    requires
        0 <= i < 4,
        q@ == p@.update(i, p@[i + 8]).update(i + 8, p@[i]),
    ensures
        dial_wait(p) == dial_wait(q),
        dial_deadline(now, p) == dial_deadline(now, q),
{
    reveal_with_fuel(word_sum, 13);
    assert(word_sum(p@, 12) == word_sum(q@, 12));
}

/// Which link is kept: the one in which the endpoint with the higher key is the
/// central, where the higher key is the one with the greater byte where the two
/// differ first.
pub proof fn the_higher_key_is_the_central(role: ConnectRole, mine: Seq<u8>, theirs: Seq<u8>)
    requires
        mine.len() == theirs.len(),
    ensures
        role is Central ==> (wins(role, mine, theirs) <==> exists|k: int| #[trigger]
            smaller_at(theirs, mine, k)),
        role is Peripheral ==> (wins(role, mine, theirs) <==> exists|k: int| #[trigger]
            smaller_at(mine, theirs, k)),
{
    the_first_difference_decides(mine, theirs);
    the_first_difference_decides(theirs, mine);
}

proof fn lemma_word_step(p: Seq<u8>, n: nat, weight: nat)
    requires
        n > 0,
        pow2((8 * ((n - 1) % 8)) as nat) == weight,
    ensures
        word_sum(p, n) == word_sum(p, (n - 1) as nat) + p[n - 1] * weight,
{
}

proof fn lemma_seed(p: Seq<u8>)
    ensures
        word_sum(p, 12) == p[0] + 0x100 * p[1] + 0x10000 * p[2] + 0x1000000 * p[3] + 0x100000000
            * p[4] + 0x10000000000 * p[5] + 0x1000000000000 * p[6] + 0x100000000000000 * p[7] + p[8]
            + 0x100 * p[9] + 0x10000 * p[10] + 0x1000000 * p[11],
{
    vstd::arithmetic::power2::lemma2_to64();
    vstd::arithmetic::power2::lemma2_to64_rest();
    lemma_word_step(p, 1, 1);
    lemma_word_step(p, 2, 0x100);
    lemma_word_step(p, 3, 0x10000);
    lemma_word_step(p, 4, 0x1000000);
    lemma_word_step(p, 5, 0x100000000);
    lemma_word_step(p, 6, 0x10000000000);
    lemma_word_step(p, 7, 0x1000000000000);
    lemma_word_step(p, 8, 0x100000000000000);
    lemma_word_step(p, 9, 1);
    lemma_word_step(p, 10, 0x100);
    lemma_word_step(p, 11, 0x10000);
    lemma_word_step(p, 12, 0x1000000);
}

/// A dial is held back for one and a half seconds and a part of a second, from
/// now on. That part is what the prefix, read as a number of eight bytes and one
/// of four, lowest byte first, leaves of a billion.
pub proof fn dials_are_held_back_for_about_two_seconds(now: Instant, p: KeyPrefix)
    ensures
        dial_wait(p) == 1_500_000_000 + (p@[0] + 0x100 * p@[1] + 0x10000 * p@[2] + 0x1000000
            * p@[3] + 0x100000000 * p@[4] + 0x10000000000 * p@[5] + 0x1000000000000 * p@[6]
            + 0x100000000000000 * p@[7] + p@[8] + 0x100 * p@[9] + 0x10000 * p@[10] + 0x1000000
            * p@[11]) % 0x1_0000_0000_0000_0000 % 1_000_000_000,
        1_500_000_000 <= dial_wait(p) < 2_500_000_000,
        now.nanos + dial_wait(p) <= u64::MAX ==> now.nanos + 1_500_000_000 <= dial_deadline(
            now,
            p,
        ).nanos < now.nanos + 2_500_000_000,
{
    lemma_seed(p@);
}

} // verus!
