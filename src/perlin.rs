use crate::rng::random_below;
use vstd::prelude::*;

verus! {

/// Number of lattice gradients, and length of each permutation table.
pub const POINT_COUNT: usize = 256;

/// All entries pairwise different.
pub open spec fn distinct(s: Seq<u8>) -> bool {
    forall|a: int, b: int| 0 <= a < b < s.len() ==> s[a] != s[b]
}

/// A permutation of `0..256`: 256 distinct bytes, so each byte value once.
pub open spec fn is_permutation_table(s: Seq<u8>) -> bool {
    s.len() == POINT_COUNT && distinct(s)
}

/// The gradient slot of lattice corner `(i, j, k)`: each coordinate wrapped
/// to 8 bits, looked up in its axis's table, the three combined by XOR.
pub open spec fn lattice_hash(px: Seq<u8>, py: Seq<u8>, pz: Seq<u8>, i: i32, j: i32, k: i32) -> u8 {
    px[(i as u8) as int] ^ py[(j as u8) as int] ^ pz[(k as u8) as int]
}

/// Exchanges the entries at `a` and `b`.
pub open spec fn swap_at(s: Seq<u8>, a: int, b: int) -> Seq<u8> {
    s.update(a, s[b]).update(b, s[a])
}

/// `s` after its slots from the last one down to `i` have each been swapped
/// with the slot that `targets` gives for it.
pub open spec fn swapped_down(s: Seq<u8>, targets: Seq<usize>, i: int) -> Seq<u8>
    decreases s.len() - i,
{
    if i >= s.len() || i < 0 {
        s
    } else {
        swap_at(swapped_down(s, targets, i + 1), i, targets[i] as int)
    }
}

/// Swap targets that a shuffle may draw: slot 0 stays, and each slot `i > 0`
/// goes to a slot below it.
pub open spec fn valid_draws(targets: Seq<usize>) -> bool {
    &&& targets.len() > 0 ==> targets[0] == 0
    &&& forall|i: int| 0 < i < targets.len() ==> #[trigger] targets[i] < i
}

/// Walks down from the last slot of `p`, swapping each slot `i` with slot
/// `targets[i]`.
pub fn permute_by(p: &mut Vec<u8>, targets: &Vec<usize>)
    requires
        targets@.len() == old(p)@.len(),
        forall|i: int| 0 <= i < targets@.len() ==> #[trigger] targets@[i] < targets@.len(),
    ensures
        final(p)@ == swapped_down(old(p)@, targets@, 0),
        final(p)@.len() == old(p)@.len(),
        final(p)@.to_multiset() == old(p)@.to_multiset(),
        forall|k: int| 0 <= k < final(p)@.len() ==> old(p)@.contains(#[trigger] final(p)@[k]),
        distinct(old(p)@) ==> distinct(final(p)@),
{
    let n: usize = p.len();
    let mut i: usize = n;
    while i > 0
        invariant
            i <= n,
            p@.len() == n,
            n == old(p)@.len(),
            targets@.len() == n,
            forall|j: int| 0 <= j < targets@.len() ==> #[trigger] targets@[j] < targets@.len(),
            p@ == swapped_down(old(p)@, targets@, i as int),
            p@.to_multiset() == old(p)@.to_multiset(),
            forall|k: int| 0 <= k < p@.len() ==> old(p)@.contains(#[trigger] p@[k]),
            distinct(old(p)@) ==> distinct(p@),
        decreases i,
    {
        i = i - 1;
        let target: usize = targets[i];
        let a: u8 = p[i];
        let b: u8 = p[target];
        let ghost before = p@;
        p.set(i, b);
        let ghost mid = p@;
        p.set(target, a);
        proof {
            vstd::seq_lib::to_multiset_update(before, i as int, b);
            vstd::seq_lib::to_multiset_update(mid, target as int, a);
            assert(before.to_multiset().count(a) > 0) by {
                vstd::seq_lib::to_multiset_contains(before, a);
            }
            assert(before.to_multiset().insert(b).remove(a).insert(a).remove(b) =~= before.to_multiset()) by {
                broadcast use vstd::multiset::group_multiset_axioms;
            }
            assert forall|k: int| 0 <= k < p@.len() implies old(p)@.contains(#[trigger] p@[k]) by {
                if k == i as int {
                    assert(p@[k] == before[target as int] || p@[k] == a);
                }
            }
        }
        assert(p@ =~= swap_at(before, i as int, target as int));
    }
}

/// Shuffles `p` in place: walking down from the last slot, each slot `i > 0`
/// is swapped with a slot drawn below it. The result is `p` rearranged by
/// some valid series of draws.
pub fn permute(p: &mut Vec<u8>, rng: &mut rand_xoshiro::Xoshiro256Plus)
    ensures
        exists|targets: Seq<usize>|
            targets.len() == old(p)@.len() && valid_draws(targets) && final(p)@ == swapped_down(
                old(p)@,
                targets,
                0,
            ),
        final(p)@.len() == old(p)@.len(),
        final(p)@.to_multiset() == old(p)@.to_multiset(),
        forall|k: int| 0 <= k < final(p)@.len() ==> old(p)@.contains(#[trigger] final(p)@[k]),
        distinct(old(p)@) ==> distinct(final(p)@),
{
    let n: usize = p.len();
    let mut targets: Vec<usize> = Vec::new();
    let mut k: usize = 0;
    while k < n
        invariant
            k <= n,
            targets@.len() == k,
            forall|j: int| 0 <= j < k ==> targets@[j] == 0,
        decreases n - k,
    {
        targets.push(0);
        k = k + 1;
    }
    let mut i: usize = n;
    while i > 1
        invariant
            0 < i <= n || n == 0,
            i <= n,
            targets@.len() == n,
            n > 0 ==> targets@[0] == 0,
            forall|j: int| 0 < j < n ==> #[trigger] targets@[j] < (if j < i { 1 } else { j }),
        decreases i,
    {
        i = i - 1;
        let t = random_below(rng, i);
        targets.set(i, t);
    }
    assert(valid_draws(targets@));
    permute_by(p, &targets);
}

/// The bytes `0..256` in order.
pub open spec fn identity_table() -> Seq<u8> {
    Seq::new(POINT_COUNT as nat, |k: int| k as u8)
}

/// A table that the shuffle can produce from the bytes in order.
pub open spec fn is_drawn_table(s: Seq<u8>) -> bool {
    exists|targets: Seq<usize>|
        targets.len() == POINT_COUNT && valid_draws(targets) && s == swapped_down(identity_table(), targets, 0)
}

/// Builds one table: the bytes `0..256` in order, then shuffled.
fn generate_perm(rng: &mut rand_xoshiro::Xoshiro256Plus) -> (r: Vec<u8>)
    ensures
        is_permutation_table(r@),
        is_drawn_table(r@),
{
    let mut p: Vec<u8> = Vec::new();
    let mut v: usize = 0;
    while v < POINT_COUNT
        invariant
            v <= POINT_COUNT,
            p@.len() == v,
            forall|k: int| 0 <= k < v ==> p@[k] == k,
        decreases POINT_COUNT - v,
    {
        p.push(v as u8);
        v = v + 1;
    }
    assert(p@ =~= identity_table());
    permute(&mut p, rng);
    p
}

/// The three permutation tables of a Perlin noise generator, one per axis.
#[derive(Clone, Debug)]
pub struct PermutationTables {
    pub perm_x: Vec<u8>,
    pub perm_y: Vec<u8>,
    pub perm_z: Vec<u8>,
}

impl PermutationTables {
    pub open spec fn wf(&self) -> bool {
        &&& is_permutation_table(self.perm_x@)
        &&& is_permutation_table(self.perm_y@)
        &&& is_permutation_table(self.perm_z@)
    }

    /// Draws the x, y and z tables, in that order, from `rng`.
    pub fn new(rng: &mut rand_xoshiro::Xoshiro256Plus) -> (r: Self)
        ensures
            r.wf(),
            is_drawn_table(r.perm_x@),
            is_drawn_table(r.perm_y@),
            is_drawn_table(r.perm_z@),
    {
        let perm_x = generate_perm(rng);
        let perm_y = generate_perm(rng);
        let perm_z = generate_perm(rng);
        PermutationTables { perm_x, perm_y, perm_z }
    }

    /// The gradient slot of the lattice corner `(i, j, k)`.
    pub fn lattice_index(&self, i: i32, j: i32, k: i32) -> (r: usize)
        requires
            self.wf(),
        ensures
            r == lattice_hash(self.perm_x@, self.perm_y@, self.perm_z@, i, j, k) as usize,
            r < POINT_COUNT,
    {
        let h: u8 = self.perm_x[i as u8 as usize] ^ self.perm_y[j as u8 as usize] ^ self.perm_z[k as u8 as usize];
        h as usize
    }
}

} // verus!
