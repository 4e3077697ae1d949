//! Byte strings: equality, lexicographic order, and numbers written as bytes.

use vstd::arithmetic::div_mod::{lemma_div_denominator, lemma_fundamental_div_mod_converse};
use vstd::prelude::*;

verus! {

/// `k` is the first index at which `a` and `b` differ.
pub open spec fn first_difference(a: Seq<u8>, b: Seq<u8>, k: int) -> bool {
    &&& 0 <= k < a.len()
    &&& k < b.len()
    &&& a[k] != b[k]
    &&& forall|j: int| 0 <= j < k ==> a[j] == b[j]
}

/// `a` comes before `b` in lexicographic order: at the first difference `a`
/// has the smaller byte, or there is none and `a` is the shorter one.
pub open spec fn precedes(a: Seq<u8>, b: Seq<u8>) -> bool {
    ||| exists|k: int| #[trigger] first_difference(a, b, k) && a[k] < b[k]
    ||| a.len() < b.len() && a == b.take(a.len() as int)
}

/// Whether two byte strings hold the same bytes.
pub fn bytes_equal(a: &[u8], b: &[u8]) -> (r: bool)
    ensures
        r == (a@ == b@),
{
    if a.len() != b.len() {
        return false;
    }
    let mut i: usize = 0;
    while i < a.len()
        invariant
            i <= a@.len(),
            a@.len() == b@.len(),
            forall|j: int| 0 <= j < i ==> a@[j] == b@[j],
        decreases a@.len() - i,
    {
        if a[i] != b[i] {
            assert(a@[i as int] != b@[i as int]);
            return false;
        }
        i = i + 1;
    }
    assert(a@ =~= b@);
    true
}

/// Whether `a` comes before `b` in lexicographic order.
pub fn bytes_precede(a: &[u8], b: &[u8]) -> (r: bool)
    ensures
        r == precedes(a@, b@),
{
    let mut i: usize = 0;
    while i < a.len() && i < b.len()
        invariant
            i <= a@.len(),
            i <= b@.len(),
            forall|j: int| 0 <= j < i ==> a@[j] == b@[j],
        decreases a@.len() - i,
    {
        if a[i] != b[i] {
            proof {
                assert(first_difference(a@, b@, i as int));
                assert forall|k: int| #[trigger] first_difference(a@, b@, k) implies k == i by {}
                if a@.len() < b@.len() && a@ == b@.take(a@.len() as int) {
                    assert(a@[i as int] == b@.take(a@.len() as int)[i as int]);
                }
            }
            return a[i] < b[i];
        }
        i = i + 1;
    }
    proof {
        assert forall|k: int| !(#[trigger] first_difference(a@, b@, k)) by {}
        if a@.len() < b@.len() {
            assert(a@ =~= b@.take(a@.len() as int));
        }
    }
    a.len() < b.len()
}

/// No byte string precedes itself.
pub proof fn precedes_irreflexive(a: Seq<u8>)
    ensures
        !precedes(a, a),
{
}

/// Of two different byte strings exactly one precedes the other.
pub proof fn precedes_total(a: Seq<u8>, b: Seq<u8>)
    requires
        a != b,
    ensures
        precedes(a, b) != precedes(b, a),
{
    if exists|k: int| first_difference(a, b, k) {
        let k = choose|k: int| first_difference(a, b, k);
        assert(first_difference(b, a, k));
        assert forall|j: int| #[trigger] first_difference(a, b, j) implies j == k by {}
        assert forall|j: int| #[trigger] first_difference(b, a, j) implies j == k by {}
        if a.len() < b.len() && a == b.take(a.len() as int) {
            assert(a[k] == b.take(a.len() as int)[k]);
        }
        if b.len() < a.len() && b == a.take(b.len() as int) {
            assert(b[k] == a.take(b.len() as int)[k]);
        }
    } else {
        let n = if a.len() <= b.len() {
            a.len() as int
        } else {
            b.len() as int
        };
        assert forall|j: int| 0 <= j < n implies a[j] == b[j] by {
            lemma_no_difference_below(a, b, j);
        }
        assert forall|j: int| !(#[trigger] first_difference(b, a, j)) by {
            if first_difference(b, a, j) {
                assert(first_difference(a, b, j));
            }
        }
        if a.len() == b.len() {
            assert(a =~= b);
        } else if a.len() < b.len() {
            assert(a =~= b.take(a.len() as int));
        } else {
            assert(b =~= a.take(b.len() as int));
        }
    }
}

proof fn lemma_no_difference_below(a: Seq<u8>, b: Seq<u8>, j: int)
    requires
        0 <= j < a.len(),
        j < b.len(),
        forall|k: int| !(#[trigger] first_difference(a, b, k)),
    ensures
        a[j] == b[j],
    decreases j,
{
    assert forall|i: int| 0 <= i < j implies a[i] == b[i] by {
        lemma_no_difference_below(a, b, i);
    }
    assert(!first_difference(a, b, j));
}

/// The order is transitive.
pub proof fn precedes_transitive(a: Seq<u8>, b: Seq<u8>, c: Seq<u8>)
    requires
        precedes(a, b),
        precedes(b, c),
    ensures
        precedes(a, c),
{
    if a.len() < b.len() && a == b.take(a.len() as int) {
        assert(forall|j: int| 0 <= j < a.len() ==> a[j] == b.take(a.len() as int)[j]);
        if b.len() < c.len() && b == c.take(b.len() as int) {
            assert(forall|j: int| 0 <= j < b.len() ==> b[j] == c.take(b.len() as int)[j]);
            assert(a =~= c.take(a.len() as int));
        } else {
            let k = choose|k: int| #[trigger] first_difference(b, c, k) && b[k] < c[k];
            if k < a.len() {
                assert(first_difference(a, c, k));
            } else {
                assert(a =~= c.take(a.len() as int));
            }
        }
    } else {
        let k = choose|k: int| #[trigger] first_difference(a, b, k) && a[k] < b[k];
        if b.len() < c.len() && b == c.take(b.len() as int) {
            assert(forall|j: int| 0 <= j < b.len() ==> b[j] == c.take(b.len() as int)[j]);
            assert(first_difference(a, c, k));
        } else {
            let m = choose|m: int| #[trigger] first_difference(b, c, m) && b[m] < c[m];
            if k <= m {
                assert(first_difference(a, c, k));
            } else {
                assert(first_difference(a, c, m));
            }
        }
    }
}

/// A number in two bytes, least significant first.
pub open spec fn le16(x: u16) -> Seq<u8> {
    seq![(x % 0x100) as u8, (x / 0x100) as u8]
}

/// The number that two bytes stand for, least significant first.
pub open spec fn le16_value(s: Seq<u8>) -> u16 {
    (s[0] + 0x100 * s[1]) as u16
}

/// A number in eight bytes, least significant first.
pub open spec fn le64(x: u64) -> Seq<u8> {
    seq![
        (x % 0x100) as u8,
        (x / 0x100 % 0x100) as u8,
        (x / 0x10000 % 0x100) as u8,
        (x / 0x1000000 % 0x100) as u8,
        (x / 0x100000000 % 0x100) as u8,
        (x / 0x10000000000 % 0x100) as u8,
        (x / 0x1000000000000 % 0x100) as u8,
        (x / 0x100000000000000 % 0x100) as u8,
    ]
}

/// The number that eight bytes stand for, least significant first.
pub open spec fn le64_value(s: Seq<u8>) -> u64 {
    (s[0] + 0x100 * s[1] + 0x10000 * s[2] + 0x1000000 * s[3] + 0x100000000 * s[4] + 0x10000000000 * s[5] + 0x1000000000000 * s[6] + 0x100000000000000 * s[7]) as u64
}

/// What is written in two bytes is read back, and the other way round.
pub proof fn two_bytes_are_read_back(x: u16, s: Seq<u8>)
    ensures
        le16_value(le16(x)) == x,
        s.len() == 2 ==> le16(le16_value(s)) == s,
{
    if s.len() == 2 {
        assert(le16(le16_value(s)) =~= s);
    }
}

proof fn lemma_eight_bytes_of(x: u64)
    ensures
        le64_value(le64(x)) == x,
{
    let n = x as int;
    let x1 = n / 0x100;
    let x2 = n / 0x10000;
    let x3 = n / 0x1000000;
    let x4 = n / 0x100000000;
    let x5 = n / 0x10000000000;
    let x6 = n / 0x1000000000000;
    let x7 = n / 0x100000000000000;
    assert(n == 0x100 * x1 + n % 0x100);
    lemma_div_denominator(n, 0x100, 0x100);
    lemma_div_denominator(n, 0x10000, 0x100);
    lemma_div_denominator(n, 0x1000000, 0x100);
    lemma_div_denominator(n, 0x100000000, 0x100);
    lemma_div_denominator(n, 0x10000000000, 0x100);
    lemma_div_denominator(n, 0x1000000000000, 0x100);
    assert(x1 == 0x100 * x2 + x1 % 0x100);
    assert(x2 == 0x100 * x3 + x2 % 0x100);
    assert(x3 == 0x100 * x4 + x3 % 0x100);
    assert(x4 == 0x100 * x5 + x4 % 0x100);
    assert(x5 == 0x100 * x6 + x5 % 0x100);
    assert(x6 == 0x100 * x7 + x6 % 0x100);
    assert(x7 < 0x100);
}

proof fn lemma_value_of_eight_bytes(s: Seq<u8>)
    requires
        s.len() == 8,
    ensures
        le64(le64_value(s)) == s,
{
    let t7: int = s[7] as int;
    let t6: int = s[6] + 0x100 * t7;
    let t5: int = s[5] + 0x100 * t6;
    let t4: int = s[4] + 0x100 * t5;
    let t3: int = s[3] + 0x100 * t4;
    let t2: int = s[2] + 0x100 * t3;
    let t1: int = s[1] + 0x100 * t2;
    let t0: int = s[0] + 0x100 * t1;
    assert(t0 == le64_value(s));
    lemma_fundamental_div_mod_converse(t0, 0x100, t1, s[0] as int);
    lemma_fundamental_div_mod_converse(t0, 0x10000, t2, s[0] + 0x100 * s[1]);
    lemma_fundamental_div_mod_converse(t0, 0x1000000, t3, s[0] + 0x100 * s[1] + 0x10000 * s[2]);
    lemma_fundamental_div_mod_converse(t0, 0x100000000, t4, s[0] + 0x100 * s[1] + 0x10000 * s[2] + 0x1000000 * s[3]);
    lemma_fundamental_div_mod_converse(t0, 0x10000000000, t5, s[0] + 0x100 * s[1] + 0x10000 * s[2] + 0x1000000 * s[3] + 0x100000000 * s[4]);
    lemma_fundamental_div_mod_converse(t0, 0x1000000000000, t6, s[0] + 0x100 * s[1] + 0x10000 * s[2] + 0x1000000 * s[3] + 0x100000000 * s[4] + 0x10000000000 * s[5]);
    lemma_fundamental_div_mod_converse(t0, 0x100000000000000, t7, s[0] + 0x100 * s[1] + 0x10000 * s[2] + 0x1000000 * s[3] + 0x100000000 * s[4] + 0x10000000000 * s[5] + 0x1000000000000 * s[6]);
    assert(le64(le64_value(s)) =~= s);
}

/// What is written in eight bytes is read back, and the other way round.
pub proof fn eight_bytes_are_read_back(x: u64, s: Seq<u8>)
    ensures
        le64_value(le64(x)) == x,
        s.len() == 8 ==> le64(le64_value(s)) == s,
{
    lemma_eight_bytes_of(x);
    if s.len() == 8 {
        lemma_value_of_eight_bytes(s);
    }
}

/// Writes a number in two bytes, least significant first.
pub fn u16_bytes(x: u16) -> (bytes: Vec<u8>)
    ensures
        bytes@ == le16(x),
{
    let bytes: Vec<u8> = vec![(x % 0x100) as u8, (x / 0x100) as u8];
    assert(bytes@ =~= le16(x));
    bytes
}

/// Reads a number from two bytes, least significant first.
pub fn u16_of(bytes: &[u8]) -> (x: u16)
    requires
        bytes@.len() == 2,
    ensures
        x == le16_value(bytes@),
{
    bytes[0] as u16 + 0x100 * (bytes[1] as u16)
}

/// Writes a number in eight bytes, least significant first.
pub fn u64_bytes(x: u64) -> (bytes: Vec<u8>)
    ensures
        bytes@ == le64(x),
{
    let bytes: Vec<u8> = vec![
        (x % 0x100) as u8,
        (x / 0x100 % 0x100) as u8,
        (x / 0x10000 % 0x100) as u8,
        (x / 0x1000000 % 0x100) as u8,
        (x / 0x100000000 % 0x100) as u8,
        (x / 0x10000000000 % 0x100) as u8,
        (x / 0x1000000000000 % 0x100) as u8,
        (x / 0x100000000000000 % 0x100) as u8,
    ];
    assert(bytes@ =~= le64(x));
    bytes
}

/// Reads a number from eight bytes, least significant first.
pub fn u64_of(bytes: &[u8]) -> (x: u64)
    requires
        bytes@.len() == 8,
    ensures
        x == le64_value(bytes@),
{
    bytes[0] as u64 + 0x100 * (bytes[1] as u64) + 0x10000 * (bytes[2] as u64) + 0x1000000 * (bytes[3] as u64) + 0x100000000 * (bytes[4] as u64) + 0x10000000000 * (bytes[5] as u64) + 0x1000000000000 * (bytes[6] as u64) + 0x100000000000000 * (bytes[7] as u64)
}

/// `a` and `b` agree up to `k`, where `a` has the smaller byte.
pub open spec fn smaller_at(a: Seq<u8>, b: Seq<u8>, k: int) -> bool {
    0 <= k < a.len() && k < b.len() && a.take(k) == b.take(k) && a[k] < b[k]
}

/// Which of two byte strings comes first: the one with the smaller byte where
/// they differ first, or the shorter one if the other goes on from it.
pub proof fn the_first_difference_decides(a: Seq<u8>, b: Seq<u8>)
    ensures
        precedes(a, b) <==> (exists|k: int| #[trigger] smaller_at(a, b, k)) || (a.len() < b.len()
            && a == b.take(a.len() as int)),
{
    if exists|k: int| #[trigger] first_difference(a, b, k) && a[k] < b[k] {
        let k = choose|k: int| #[trigger] first_difference(a, b, k) && a[k] < b[k];
        assert(a.take(k) =~= b.take(k));
        assert(smaller_at(a, b, k));
    }
    if exists|k: int| #[trigger] smaller_at(a, b, k) {
        let k = choose|k: int| #[trigger] smaller_at(a, b, k);
        assert forall|j: int| 0 <= j < k implies a[j] == b[j] by {
            assert(a.take(k)[j] == b.take(k)[j]);
        }
        assert(first_difference(a, b, k));
    }
}

/// A number in bytes: as many bytes as the number is wide, the lowest first.
pub proof fn numbers_are_written_lowest_byte_first(x: u16, y: u64)
    ensures
        le16(x).len() == 2,
        x == le16(x)[0] + 256 * le16(x)[1],
        le64(y).len() == 8,
        y == le64(y)[0] + 0x100 * (le64(y)[1] + 0x100 * (le64(y)[2] + 0x100 * (le64(y)[3] + 0x100
            * (le64(y)[4] + 0x100 * (le64(y)[5] + 0x100 * (le64(y)[6] + 0x100 * le64(y)[7])))))),
{
    lemma_eight_bytes_of(y);
}

} // verus!
