//! Deterministic pseudo-random generator and permutation shuffle.
//!
//! The generator holds a single 128-bit seed and advances it by a fixed
//! xorshift mixing step on every draw; a draw yields the low 64 bits of the
//! new seed. The seed is supplied at construction, so every sequence is
//! reproducible; a caller that wants an unpredictable stream seeds from a
//! clock of its own.

use vstd::prelude::*;
use vstd::pervasive::VecAdditionalExecFns;
use vstd::seq_lib::{to_multiset_insert, to_multiset_remove};

verus! {

/// Mask selecting the low 121 bits of the seed for the shifted term.
pub const SEED_MASK: u128 = 0x01ff_ffff_ffff_ffff_ffff_ffff_ffff_ffff;

/// One xorshift mixing step of the seed.
pub open spec fn mix(s: u128) -> u128 {
    let t = s ^ ((s & SEED_MASK) << 7);
    t ^ (t >> 9)
}

/// The low 64 bits of a seed: the result of one draw.
pub open spec fn low64(s: u128) -> u64 {
    (s & 0xffff_ffff_ffff_ffff) as u64
}

/// The seed after `n` draws.
pub open spec fn seed_after(s: u128, n: nat) -> u128
    decreases n,
{
    if n == 0 {
        s
    } else {
        mix(seed_after(s, (n - 1) as nat))
    }
}

/// Drawing `a` then `b` times advances the seed as drawing `a + b` times does.
pub proof fn lemma_seed_after_add(s: u128, a: nat, b: nat)
    ensures
        seed_after(seed_after(s, a), b) == seed_after(s, a + b),
    decreases b,
{
    if b > 0 {
        lemma_seed_after_add(s, a, (b - 1) as nat);
    }
}

/// Deterministic bit generator: an evolving 128-bit seed.
pub struct RandomGenerator {
    seed: u128,
}

impl RandomGenerator {
    /// The current seed.
    pub closed spec fn seed_spec(self) -> u128 {
        self.seed
    }

    /// A generator starting from the given seed.
    pub fn new(seed: u128) -> (r: RandomGenerator)
        ensures
            r.seed_spec() == seed,
    {
        RandomGenerator { seed }
    }

    /// One draw: mix the seed and return its low 64 bits.
    pub fn rand(&mut self) -> (r: u64)
        ensures
            final(self).seed_spec() == mix(old(self).seed_spec()),
            r == low64(final(self).seed_spec()),
    {
        let s0 = self.seed;
        let t = s0 ^ ((s0 & SEED_MASK) << 7);
        let s1 = t ^ (t >> 9);
        self.seed = s1;
        (s1 & 0xffff_ffff_ffff_ffff) as u64
    }
}

/// The partner index of the shuffle step at position `i`: the draw's low
/// 32 bits reduced modulo `i` (so the partner lies in `[0, i)`).
pub open spec fn partner_index(draw: u64, i: int) -> int {
    (draw & 0xffff_ffff) as int % i
}

/// The sequence and seed after running the shuffle steps at positions
/// `i, i - 1, ..., 1`: each step draws once and swaps the drawn partner
/// with position `i`.
pub open spec fn shuffle_from<T>(s: Seq<T>, seed: u128, i: int) -> (Seq<T>, u128)
    decreases i,
{
    if i <= 0 {
        (s, seed)
    } else {
        let seed1 = mix(seed);
        let j = partner_index(low64(seed1), i);
        shuffle_from(s.update(j, s[i]).update(i, s[j]), seed1, i - 1)
    }
}

/// The permutation that shuffling produces from a given seed.
pub open spec fn shuffle_spec<T>(s: Seq<T>, seed: u128) -> Seq<T> {
    shuffle_from(s, seed, s.len() - 1).0
}

/// Updating one position replaces that element in the multiset.
proof fn lemma_update_to_multiset<T>(s: Seq<T>, i: int, a: T)
    requires
        0 <= i < s.len(),
    ensures
        s.update(i, a).to_multiset() == s.to_multiset().remove(s[i]).insert(a),
{
    assert(s.update(i, a) =~= s.remove(i).insert(i, a));
    to_multiset_remove(s, i);
    to_multiset_insert(s.remove(i), i, a);
}

/// Swapping two positions keeps the multiset of elements.
proof fn lemma_swap_to_multiset<T>(s: Seq<T>, i: int, j: int)
    requires
        0 <= i < s.len(),
        0 <= j < s.len(),
    ensures
        s.update(j, s[i]).update(i, s[j]).to_multiset() == s.to_multiset(),
{
    if i == j {
        assert(s.update(j, s[i]).update(i, s[j]) =~= s);
    } else {
        let s1 = s.update(j, s[i]);
        lemma_update_to_multiset(s, j, s[i]);
        lemma_update_to_multiset(s1, i, s[j]);
        assert(s1[i] == s[i]);
        let m = s.to_multiset();
        let m3 = m.remove(s[j]).insert(s[i]).remove(s[i]).insert(s[j]);
        assert forall|x: T| m3.count(x) == m.count(x) by {
            vstd::seq_lib::to_multiset_contains(s, s[j]);
            assert(s.contains(s[j]));
        }
        assert(m3 =~= m);
    }
}

/// Fisher-Yates shuffle, iterating the swap position from the last index
/// down to 1, drawing the partner from the generator at each step. The
/// result is the permutation `shuffle_spec` names; the multiset of elements
/// and the length are unchanged, and a sequence of length 0 or 1 is left
/// as it was.
pub fn shuffle<T: Copy>(rng: &mut RandomGenerator, target: &mut Vec<T>)
    ensures
        final(target)@ == shuffle_spec(old(target)@, old(rng).seed_spec()),
        final(rng).seed_spec() == shuffle_from(
            old(target)@,
            old(rng).seed_spec(),
            old(target)@.len() - 1,
        ).1,
        final(target)@.len() == old(target)@.len(),
        final(target)@.to_multiset() == old(target)@.to_multiset(),
        old(target)@.len() <= 1 ==> final(target)@ == old(target)@,
{
    let ghost s0 = target@;
    let ghost seed0 = rng.seed_spec();
    let mut i: usize = target.len();
    if i == 0 {
        return ;
    }
    while 1 < i
        invariant
            1 <= i <= target@.len(),
            target@.len() == s0.len(),
            shuffle_from(s0, seed0, s0.len() - 1) == shuffle_from(
                target@,
                rng.seed_spec(),
                i - 1,
            ),
            target@.to_multiset() == s0.to_multiset(),
        decreases i,
    {
        i = i - 1;
        let ghost pre = target@;
        let ghost seed_pre = rng.seed_spec();
        let r = rng.rand();
        proof {
            assert(r & 0xffff_ffff <= 0xffff_ffff) by (bit_vector);
        }
        let j = ((r & 0xffff_ffff) as usize) % i;
        proof {
            assert(j as int == partner_index(low64(mix(seed_pre)), i as int));
            lemma_swap_to_multiset(pre, i as int, j as int);
        }
        let a: T = target[j];
        let b: T = target[i];
        target.set(j, b);
        target.set(i, a);
        proof {
            assert(target@ == pre.update(j as int, pre[i as int]).update(
                i as int,
                pre[j as int],
            ));
            assert(shuffle_from(pre, seed_pre, i as int) == shuffle_from(
                target@,
                rng.seed_spec(),
                i as int - 1,
            ));
        }
    }
}

} // verus!
