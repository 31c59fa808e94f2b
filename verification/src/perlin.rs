//! The tables of a gradient noise field: three random permutations that
//! hash a lattice point to one of 256 gradient vectors.

use vstd::prelude::*;
use crate::rng::{gen_range, ActiveRng};
use crate::vec3::{GenericVec3, Vec3};

verus! {

/// The number of gradients, and the length of each permutation.
pub const POINT_COUNT: usize = 256;

/// A noise field: its gradients and, for each axis, a permutation of
/// `0..POINT_COUNT`.
pub struct Perlin {
    pub gradients: [Vec3; 256],
    pub permutations: [[usize; 256]; 3],
}

/// Whether a table is a permutation of the indices `0..POINT_COUNT`: every
/// entry is an index, and no index occurs twice.
pub open spec fn is_permutation_table(p: Seq<usize>) -> bool {
    &&& p.len() == POINT_COUNT
    &&& forall|i: int| 0 <= i < p.len() ==> #[trigger] p[i] < POINT_COUNT
    &&& forall|i: int, j: int| 0 <= i < j < p.len() ==> #[trigger] p[i] != #[trigger] p[j]
}

/// The table that counts from 0 up: each entry is its own place.
pub open spec fn counting() -> Seq<usize> {
    Seq::new(POINT_COUNT as nat, |k: int| k as usize)
}

/// The table with the entries at two places exchanged.
pub open spec fn exchanged(p: Seq<usize>, i: int, j: int) -> Seq<usize> {
    p.update(i, p[j]).update(j, p[i])
}

/// Whether `targets` are draws that `permute` can make: for each place
/// from the second to the one before `n`, a place before it.
pub open spec fn possible_draws(targets: Seq<int>, n: int) -> bool {
    &&& targets.len() == n
    &&& forall|i: int| 1 <= i < n ==> 0 <= #[trigger] targets[i] < i
}

/// The table after the exchanges of `permute` at the places from the one
/// before `n` down to `from`: at each place `i` in turn, the entry changes
/// places with the one at `targets[i]`.
pub open spec fn permuted(p: Seq<usize>, n: int, from: int, targets: Seq<int>) -> Seq<usize>
    decreases n - from,
{
    if from >= n {
        p
    } else {
        exchanged(permuted(p, n, from + 1, targets), from, targets[from])
    }
}

/// The index of a lattice coordinate: the coordinate moved by the offset,
/// wrapping round at the largest `usize`, and reduced to its low eight bits.
pub open spec fn lattice_index(base: usize, offset: usize) -> usize {
    vstd::wrapping::usize_specs::wrapping_add(base, offset) & 255
}

impl Perlin {
    /// The invariant of a noise field: each of the three tables is a
    /// permutation.
    pub open spec fn wf(&self) -> bool {
        &&& is_permutation_table(self.permutations@[0]@)
        &&& is_permutation_table(self.permutations@[1]@)
        &&& is_permutation_table(self.permutations@[2]@)
    }

    /// The number of the gradient at a corner of a lattice cell: the
    /// exclusive or of the three tables' entries at the corner's indices.
    pub open spec fn hash_spec(&self, base: Seq<usize>, x: usize, y: usize, z: usize) -> usize {
        self.permutations@[0]@[lattice_index(base[0], x) as int]
            ^ self.permutations@[1]@[lattice_index(base[1], y) as int]
            ^ self.permutations@[2]@[lattice_index(base[2], z) as int]
    }

    /// The gradient at a corner of a lattice cell.
    pub open spec fn gradient_spec(&self, base: Seq<usize>, x: usize, y: usize, z: usize) -> Vec3 {
        self.gradients@[self.hash_spec(base, x, y, z) as int]
    }

    /// The noise field with the given gradients and three freshly drawn
    /// permutations, one for each axis, x first. As `generate_perm` makes
    /// them, the permutations leave no entry at its own place.
    pub fn new(gradients: [Vec3; 256], rng: &mut ActiveRng) -> (perlin: Perlin)
        ensures
            perlin.gradients == gradients,
            perlin.wf(),
            forall|axis: int, k: int|
                0 <= axis < 3 && 0 <= k < POINT_COUNT ==> #[trigger] perlin.permutations@[axis]@[k]
                    != k,
    {
        let x_permutations = Self::generate_perm(rng);
        let y_permutations = Self::generate_perm(rng);
        let z_permutations = Self::generate_perm(rng);
        Perlin { gradients, permutations: [x_permutations, y_permutations, z_permutations] }
    }

    /// A random permutation of `0..POINT_COUNT`: the table that counts
    /// from 0 up, permuted. No entry is left at its own place.
    pub fn generate_perm(rng: &mut ActiveRng) -> (p: [usize; 256])
        ensures
            is_permutation_table(p@),
            forall|k: int| 0 <= k < POINT_COUNT ==> #[trigger] p@[k] != k,
            exists|targets: Seq<int>|
                possible_draws(targets, POINT_COUNT as int) && p@ == #[trigger] permuted(
                    counting(),
                    POINT_COUNT as int,
                    1,
                    targets,
                ),
    {
        let mut p: [usize; 256] = [0usize; 256];
        let mut i: usize = 0;
        while i < POINT_COUNT
            invariant
                i <= POINT_COUNT,
                forall|k: int| 0 <= k < i ==> #[trigger] p@[k] == k,
            decreases POINT_COUNT - i,
        {
            p[i] = i;
            i += 1;
        }
        assert(p@ =~= counting());
        Self::permute(&mut p, POINT_COUNT, rng);
        proof {
            let targets = choose|targets: Seq<int>|
                possible_draws(targets, POINT_COUNT as int) && p@ == #[trigger] permuted(
                    counting(),
                    POINT_COUNT as int,
                    1,
                    targets,
                );
            lemma_permuted_rearranges(counting(), POINT_COUNT as int, 1, targets);
            lemma_permuted_moves_every_entry(POINT_COUNT as int, targets);
            assert forall|k: int| 0 <= k < p@.len() implies #[trigger] p@[k] < POINT_COUNT by {
                assert(counting().contains(p@[k]));
                let j = choose|j: int| 0 <= j < counting().len() && counting()[j] == p@[k];
                assert(counting()[j] == j);
            }
        }
        p
    }

    /// Exchanges the entries at two places of the table.
    pub fn exchange(p: &mut [usize; 256], i: usize, j: usize)
        requires
            i < POINT_COUNT,
            j < POINT_COUNT,
        ensures
            final(p)@ == exchanged(old(p)@, i as int, j as int),
    {
        let a = p[i];
        let b = p[j];
        p[i] = b;
        p[j] = a;
        assert(p@ =~= exchanged(old(p)@, i as int, j as int));
    }

    /// Rearranges the first `n` entries of the table at random: from the
    /// last of them down to the second, each entry changes places with one
    /// drawn from those before it.
    pub fn permute(p: &mut [usize; 256], n: usize, rng: &mut ActiveRng)
        requires
            n <= POINT_COUNT,
        ensures
            exists|targets: Seq<int>|
                possible_draws(targets, n as int) && final(p)@ == #[trigger] permuted(
                    old(p)@,
                    n as int,
                    1,
                    targets,
                ),
    {
        let ghost mut drawn: Seq<int> = Seq::new(n as nat, |k: int| 0int);
        if n < 2 {
            assert(possible_draws(drawn, n as int));
            assert(p@ == permuted(old(p)@, n as int, 1, drawn));
            return ;
        }
        let mut i: usize = n - 1;
        while i >= 1
            invariant
                i < n <= POINT_COUNT,
                drawn.len() == n,
                forall|k: int| i < k < n ==> 0 <= #[trigger] drawn[k] < k,
                p@ == permuted(old(p)@, n as int, i + 1, drawn),
            decreases i,
        {
            let target = gen_range(rng, 0, i);
            proof {
                let with_draw = drawn.update(i as int, target as int);
                lemma_permuted_reads_later_draws(old(p)@, n as int, i + 1, drawn, with_draw);
                drawn = with_draw;
            }
            Self::exchange(p, i, target);
            i -= 1;
        }
        assert(possible_draws(drawn, n as int));
    }

    /// The entries of the three tables at the three components of an
    /// index, each component reduced to its low eight bits beforehand.
    pub fn lookup(&self, index: &GenericVec3<usize>) -> (entries: GenericVec3<usize>)
        requires
            index@[0] < POINT_COUNT,
            index@[1] < POINT_COUNT,
            index@[2] < POINT_COUNT,
        ensures
            entries@ == seq![
                self.permutations@[0]@[index@[0] as int],
                self.permutations@[1]@[index@[1] as int],
                self.permutations@[2]@[index@[2] as int],
            ],
    {
        GenericVec3::new(
            self.permutations[0][index.e[0]],
            self.permutations[1][index.e[1]],
            self.permutations[2][index.e[2]],
        )
    }

    /// The gradient at the corner `(x, y, z)` of the lattice cell whose
    /// lowest corner is `base_point_on_lattice`; each of `x`, `y`, `z` is 0
    /// or 1.
    pub fn gradient(
        &self,
        base_point_on_lattice: &GenericVec3<usize>,
        x: usize,
        y: usize,
        z: usize,
    ) -> (g: Vec3)
        requires
            self.wf(),
        ensures
            self.hash_spec(base_point_on_lattice@, x, y, z) < POINT_COUNT,
            g == self.gradient_spec(base_point_on_lattice@, x, y, z),
    {
        let offset = GenericVec3::new(x, y, z);
        let current_lattice_point = base_point_on_lattice.overflowing_add(offset).0.bitand(255);
        proof {
            let c = current_lattice_point@;
            assert(c[0] == lattice_index(base_point_on_lattice@[0], x));
            assert(c[1] == lattice_index(base_point_on_lattice@[1], y));
            assert(c[2] == lattice_index(base_point_on_lattice@[2], z));
            lemma_low_bits(vstd::wrapping::usize_specs::wrapping_add(base_point_on_lattice@[0], x));
            lemma_low_bits(vstd::wrapping::usize_specs::wrapping_add(base_point_on_lattice@[1], y));
            lemma_low_bits(vstd::wrapping::usize_specs::wrapping_add(base_point_on_lattice@[2], z));
        }
        let entries = self.lookup(&current_lattice_point);
        let hash = entries.internal_bit_xor();
        proof {
            lemma_xor_stays_low(entries@[0], entries@[1], entries@[2]);
        }
        self.gradients[hash]
    }

    /// The gradients at the eight corners of a lattice cell, indexed by the
    /// corner's offsets along x, y and z.
    pub fn gradient_cube(&self, base_point_on_lattice: &GenericVec3<usize>) -> (cube: [[[Vec3;
        2]; 2]; 2])
        requires
            self.wf(),
        ensures
            forall|x: usize, y: usize, z: usize|
                x < 2 && y < 2 && z < 2 ==> cube@[x as int]@[y as int]@[z as int]
                    == #[trigger] self.gradient_spec(base_point_on_lattice@, x, y, z),
    {
        let b = base_point_on_lattice;
        let cube = [
            [
                [self.gradient(b, 0, 0, 0), self.gradient(b, 0, 0, 1)],
                [self.gradient(b, 0, 1, 0), self.gradient(b, 0, 1, 1)],
            ],
            [
                [self.gradient(b, 1, 0, 0), self.gradient(b, 1, 0, 1)],
                [self.gradient(b, 1, 1, 0), self.gradient(b, 1, 1, 1)],
            ],
        ];
        cube
    }
}

/// The exchanges at the places from `from` on read the draws for those
/// places alone.
proof fn lemma_permuted_reads_later_draws(
    p: Seq<usize>,
    n: int,
    from: int,
    targets: Seq<int>,
    others: Seq<int>,
)
    requires
        forall|k: int| from <= k < n ==> #[trigger] targets[k] == #[trigger] others[k],
    ensures
        permuted(p, n, from, targets) == permuted(p, n, from, others),
    decreases n - from,
{
    if from < n {
        lemma_permuted_reads_later_draws(p, n, from + 1, targets, others);
        assert(targets[from] == others[from]);
    }
}

/// Permuting rearranges: the table keeps its length and its entries, each
/// as often as before, and the entries from place `n` on keep their
/// places. A table without a repeated entry stays one.
pub proof fn lemma_permuted_rearranges(p: Seq<usize>, n: int, from: int, targets: Seq<int>)
    requires
        1 <= from,
        n <= p.len(),
        possible_draws(targets, n),
    ensures
        permuted(p, n, from, targets).len() == p.len(),
        permuted(p, n, from, targets).to_multiset() == p.to_multiset(),
        forall|k: int| n <= k < p.len() ==> #[trigger] permuted(p, n, from, targets)[k] == p[k],
        forall|k: int| 0 <= k < p.len() ==> p.contains(#[trigger] permuted(p, n, from, targets)[k]),
        p.no_duplicates() ==> permuted(p, n, from, targets).no_duplicates(),
    decreases n - from,
{
    let after = permuted(p, n, from, targets);
    if from < n {
        let before = permuted(p, n, from + 1, targets);
        lemma_permuted_rearranges(p, n, from + 1, targets);
        let target = targets[from];
        let a = before[from];
        let b = before[target];
        let mid = before.update(from, b);
        assert(after == mid.update(target, a));
        vstd::seq_lib::to_multiset_update(before, from, b);
        vstd::seq_lib::to_multiset_update(mid, target, a);
        assert(before.to_multiset().count(a) > 0) by {
            before.to_multiset_ensures();
            assert(before.contains(before[from]));
        }
        assert(after.to_multiset() =~= before.to_multiset()) by {
            broadcast use vstd::multiset::group_multiset_axioms;

        }
        assert forall|k: int| 0 <= k < p.len() implies p.contains(#[trigger] after[k]) by {
            assert(p.contains(before[k]));
            assert(p.contains(before[from]));
            assert(p.contains(before[target]));
        }
        if p.no_duplicates() {
            assert forall|x: int, y: int| 0 <= x < after.len() && 0 <= y < after.len() && x
                != y implies after[x] != after[y] by {
                let from_x = if x == from {
                    target
                } else if x == target {
                    from
                } else {
                    x
                };
                let from_y = if y == from {
                    target
                } else if y == target {
                    from
                } else {
                    y
                };
                assert(after[x] == before[from_x]);
                assert(after[y] == before[from_y]);
                assert(before[from_x] != before[from_y]);
            }
        }
    } else {
        assert forall|k: int| 0 <= k < p.len() implies p.contains(#[trigger] after[k]) by {
            assert(after[k] == p[k]);
        }
    }
}

/// What the exchanges from place `from` on make of the counting table: an
/// entry at such a place is not its own place, and an entry before is its
/// own place still or comes from such a place.
proof fn lemma_permuted_counting(n: int, from: int, targets: Seq<int>)
    requires
        1 <= from <= n <= POINT_COUNT,
        possible_draws(targets, n),
    ensures
        permuted(counting(), n, from, targets).len() == POINT_COUNT,
        forall|k: int| from <= k < n ==> #[trigger] permuted(counting(), n, from, targets)[k] != k,
        forall|k: int|
            0 <= k < from ==> #[trigger] permuted(counting(), n, from, targets)[k] == k || permuted(
                counting(),
                n,
                from,
                targets,
            )[k] >= from,
    decreases n - from,
{
    if from < n {
        lemma_permuted_counting(n, from + 1, targets);
        let before = permuted(counting(), n, from + 1, targets);
        let after = permuted(counting(), n, from, targets);
        let target = targets[from];
        assert(before[from] == from || before[from] >= from + 1);
        assert(before[target] == target || before[target] >= from + 1);
        assert forall|k: int| from <= k < n implies #[trigger] after[k] != k by {
            if k > from {
                assert(after[k] == before[k]);
            }
        }
        assert forall|k: int| 0 <= k < from implies #[trigger] after[k] == k || after[k]
            >= from by {
            if k != target {
                assert(after[k] == before[k]);
                assert(before[k] == k || before[k] >= from + 1);
            }
        }
    }
}

/// Permuting the counting table leaves no entry at its own place, where
/// there are two entries or more to permute.
pub proof fn lemma_permuted_moves_every_entry(n: int, targets: Seq<int>)
    requires
        2 <= n <= POINT_COUNT,
        possible_draws(targets, n),
    ensures
        forall|k: int| 0 <= k < n ==> #[trigger] permuted(counting(), n, 1, targets)[k] != k,
{
    lemma_permuted_counting(n, 1, targets);
    lemma_permuted_counting(n, 2, targets);
    let before = permuted(counting(), n, 2, targets);
    let after = permuted(counting(), n, 1, targets);
    assert(targets[1] == 0);
    assert(before[1] == 1 || before[1] >= 2);
    assert(after[0] == before[1]);
}

/// The low eight bits of a number are less than 256.
proof fn lemma_low_bits(a: usize)
    ensures
        a & 255 < 256,
{
    assert(a & 255 < 256) by (bit_vector);
}

/// The exclusive or of three numbers below 256 is below 256.
proof fn lemma_xor_stays_low(a: usize, b: usize, c: usize)
    requires
        a < 256,
        b < 256,
        c < 256,
    ensures
        a ^ b ^ c < 256,
{
    assert(a ^ b ^ c < 256) by (bit_vector)
        requires
            a < 256,
            b < 256,
            c < 256,
    ;
}

} // verus!
