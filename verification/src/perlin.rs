//! The lattice of gradient noise.

use vstd::prelude::*;
use crate::permutation::is_permutation;
use crate::permutation::identity;
use crate::permutation::lemma_permutation_bound;
use crate::permutation::lemma_swap_multiset;
use crate::rt_rand::rand_usize;
use crate::vec3::Vec3;

verus! {

/// The number of lattice points along each axis before the lattice repeats.
pub const LATTICE: usize = 256;

/// Reduces a machine word to a place in the lattice.
fn wrap(x: usize) -> (r: usize)
    ensures
        r < LATTICE,
        r == x & 255,
{
    assert(x & 255 < 256) by (bit_vector);
    x & 255
}

/// The table `s` after its first `n` entries have each been exchanged, one
/// after the other, with the entry that the draw of the same place names.
pub open spec fn exchanged(s: Seq<usize>, draws: Seq<usize>, n: int) -> Seq<usize>
    decreases n,
{
    if n <= 0 {
        s
    } else {
        let t = exchanged(s, draws, n - 1);
        t.update(n - 1, t[draws[n - 1] as int]).update(draws[n - 1] as int, t[n - 1])
    }
}

/// There is one draw for each place of the lattice, and each names a place
/// of the lattice.
pub open spec fn in_lattice(draws: Seq<usize>) -> bool {
    draws.len() == LATTICE && forall|i: int| 0 <= i < LATTICE ==> (#[trigger] draws[i]) < LATTICE
}

/// `s` is the table that the draws make of the numbers 0 to 255.
pub open spec fn shuffled_by(s: Seq<usize>, draws: Seq<usize>) -> bool {
    in_lattice(draws) && s == exchanged(identity(256), draws, 256)
}

/// `s` is the table that some 256 draws make of the numbers 0 to 255.
pub open spec fn shuffled(s: Seq<usize>) -> bool {
    exists|draws: Seq<usize>| #[trigger] shuffled_by(s, draws)
}

/// Exchanges keep the length of a table and what it holds.
pub proof fn lemma_exchanged(s: Seq<usize>, draws: Seq<usize>, n: int)
    requires
        0 <= n <= s.len(),
        n <= draws.len(),
        forall|i: int| 0 <= i < n ==> (#[trigger] draws[i]) < s.len(),
    ensures
        exchanged(s, draws, n).len() == s.len(),
        exchanged(s, draws, n).to_multiset() == s.to_multiset(),
    decreases n,
{
    if n > 0 {
        lemma_exchanged(s, draws, n - 1);
        let t = exchanged(s, draws, n - 1);
        assert(draws[n - 1] < s.len());
        lemma_swap_multiset(t, n - 1, draws[n - 1] as int);
    }
}

/// The table that the draws make of the numbers 0 to 255: entry 0 is
/// exchanged with the entry that the first draw names, then entry 1 with the
/// entry that the second draw names, and so on to the last.
pub fn permute(draws: &Vec<usize>) -> (r: Vec<usize>)
    requires
        draws@.len() == LATTICE,
        forall|i: int| 0 <= i < LATTICE ==> (#[trigger] draws@[i]) < LATTICE,
    ensures
        r@ == exchanged(identity(256), draws@, 256),
        shuffled_by(r@, draws@),
        r@.len() == LATTICE,
        is_permutation(r@),
{
    let mut ret: Vec<usize> = Vec::with_capacity(256);
    let mut i: usize = 0;
    while i < 256
        invariant
            i <= 256,
            ret@.len() == i,
            forall|k: int| 0 <= k < i ==> ret@[k] == k,
        decreases 256 - i,
    {
        ret.push(i);
        i += 1;
    }
    assert(ret@ =~= identity(256));
    let mut i: usize = 0;
    while i < 256
        invariant
            i <= 256,
            draws@.len() == 256,
            forall|k: int| 0 <= k < 256 ==> (#[trigger] draws@[k]) < 256,
            ret@.len() == 256,
            ret@ == exchanged(identity(256), draws@, i as int),
        decreases 256 - i,
    {
        let target: usize = draws[i];
        let a: usize = ret[i];
        let b: usize = ret[target];
        ret.set(i, b);
        ret.set(target, a);
        i += 1;
    }
    proof {
        lemma_exchanged(identity(256), draws@, 256);
    }
    ret
}

/// A table that sends each of the 256 lattice coordinates to another: the
/// numbers 0 to 255, each exchanged once with an entry drawn at random.
pub fn generate_perm() -> (r: Vec<usize>)
    ensures
        r@.len() == LATTICE,
        is_permutation(r@),
        shuffled(r@),
{
    let mut draws: Vec<usize> = Vec::with_capacity(256);
    let mut i: usize = 0;
    while i < 256
        invariant
            i <= 256,
            draws@.len() == i,
            forall|k: int| 0 <= k < i ==> (#[trigger] draws@[k]) < 256,
        decreases 256 - i,
    {
        draws.push(wrap(rand_usize()));
        i += 1;
    }
    let ret: Vec<usize> = permute(&draws);
    assert(shuffled_by(ret@, draws@));
    ret
}

/// Gradient noise over a lattice that repeats every 256 points: a gradient
/// for each of 256 codes, and for each axis a permutation of the codes. The
/// tables can be read but not changed.
pub struct Perlin {
    ran_vec: Vec<Vec3>,
    perm_x: Vec<usize>,
    perm_y: Vec<usize>,
    perm_z: Vec<usize>,
}

/// What the tables of the noise hold.
pub struct PerlinView {
    pub ran_vec: Seq<Vec3>,
    pub perm_x: Seq<usize>,
    pub perm_y: Seq<usize>,
    pub perm_z: Seq<usize>,
}

impl PerlinView {
    /// The tables are complete and the three of them are permutations.
    pub open spec fn wf(self) -> bool {
        &&& self.ran_vec.len() == LATTICE
        &&& self.perm_x.len() == LATTICE
        &&& self.perm_y.len() == LATTICE
        &&& self.perm_z.len() == LATTICE
        &&& is_permutation(self.perm_x)
        &&& is_permutation(self.perm_y)
        &&& is_permutation(self.perm_z)
    }

    /// The code of the lattice point `(i, j, k)`.
    pub open spec fn code(self, i: usize, j: usize, k: usize) -> usize {
        self.perm_x[(i & 255) as int] ^ self.perm_y[(j & 255) as int] ^ self.perm_z[(k & 255) as int]
    }

    /// The gradient at the lattice point `(i, j, k)`.
    pub open spec fn gradient(self, i: usize, j: usize, k: usize) -> Vec3 {
        self.ran_vec[self.code(i, j, k) as int]
    }
}

impl View for Perlin {
    type V = PerlinView;

    closed spec fn view(&self) -> PerlinView {
        PerlinView {
            ran_vec: self.ran_vec@,
            perm_x: self.perm_x@,
            perm_y: self.perm_y@,
            perm_z: self.perm_z@,
        }
    }
}

impl Perlin {
    #[verifier::type_invariant]
    closed spec fn inv(&self) -> bool {
        self@.wf()
    }

    /// Noise with the given gradients and the permutations that the given
    /// draws make, one list of draws for each axis.
    pub fn from_draws(
        ran_vec: Vec<Vec3>,
        draws_x: &Vec<usize>,
        draws_y: &Vec<usize>,
        draws_z: &Vec<usize>,
    ) -> (r: Perlin)
        requires
            ran_vec@.len() == LATTICE,
            in_lattice(draws_x@),
            in_lattice(draws_y@),
            in_lattice(draws_z@),
        ensures
            r@.wf(),
            r@.ran_vec == ran_vec@,
            r@.perm_x == exchanged(identity(256), draws_x@, 256),
            r@.perm_y == exchanged(identity(256), draws_y@, 256),
            r@.perm_z == exchanged(identity(256), draws_z@, 256),
    {
        Perlin {
            ran_vec,
            perm_x: permute(draws_x),
            perm_y: permute(draws_y),
            perm_z: permute(draws_z),
        }
    }

    /// Noise with the given gradients and freshly drawn permutations.
    pub fn new(ran_vec: Vec<Vec3>) -> (r: Perlin)
        requires
            ran_vec@.len() == LATTICE,
        ensures
            r@.wf(),
            r@.ran_vec == ran_vec@,
            shuffled(r@.perm_x),
            shuffled(r@.perm_y),
            shuffled(r@.perm_z),
    {
        Perlin {
            ran_vec,
            perm_x: generate_perm(),
            perm_y: generate_perm(),
            perm_z: generate_perm(),
        }
    }

    /// The gradients, by code.
    pub fn ran_vec(&self) -> (r: &Vec<Vec3>)
        ensures
            r@ == self@.ran_vec,
            self@.wf(),
    {
        proof {
            use_type_invariant(self);
        }
        &self.ran_vec
    }

    /// The permutation of the codes along the x axis.
    pub fn perm_x(&self) -> (r: &Vec<usize>)
        ensures
            r@ == self@.perm_x,
            self@.wf(),
    {
        proof {
            use_type_invariant(self);
        }
        &self.perm_x
    }

    /// The permutation of the codes along the y axis.
    pub fn perm_y(&self) -> (r: &Vec<usize>)
        ensures
            r@ == self@.perm_y,
            self@.wf(),
    {
        proof {
            use_type_invariant(self);
        }
        &self.perm_y
    }

    /// The permutation of the codes along the z axis.
    pub fn perm_z(&self) -> (r: &Vec<usize>)
        ensures
            r@ == self@.perm_z,
            self@.wf(),
    {
        proof {
            use_type_invariant(self);
        }
        &self.perm_z
    }

    /// The gradient at the lattice point `(i, j, k)`.
    pub fn gradient(&self, i: usize, j: usize, k: usize) -> (r: Vec3)
        ensures
            self@.wf(),
            self@.code(i, j, k) < LATTICE,
            r == self@.gradient(i, j, k),
    {
        proof {
            use_type_invariant(self);
        }
        let a: usize = self.perm_x[wrap(i)];
        let b: usize = self.perm_y[wrap(j)];
        let c: usize = self.perm_z[wrap(k)];
        proof {
            lemma_permutation_bound(self.perm_x@, (i & 255) as int);
            lemma_permutation_bound(self.perm_y@, (j & 255) as int);
            lemma_permutation_bound(self.perm_z@, (k & 255) as int);
            assert(a < 256 && b < 256 && c < 256 ==> a ^ b ^ c < 256) by (bit_vector);
        }
        self.ran_vec[a ^ b ^ c]
    }

    /// The gradients at the eight corners of the lattice cell whose least
    /// corner is `(i, j, k)`; the corner `(i + di, j + dj, k + dk)` stands at
    /// `[di][dj][dk]`, and a coordinate past the last machine word starts
    /// again at 0.
    pub fn cell(&self, i: usize, j: usize, k: usize) -> (r: [[[Vec3; 2]; 2]; 2])
        ensures
            forall|di: int, dj: int, dk: int|
                0 <= di < 2 && 0 <= dj < 2 && 0 <= dk < 2 ==> #[trigger] r@[di]@[dj]@[dk]
                    == self@.gradient(next(i, di), next(j, dj), next(k, dk)),
    {
        let i1: usize = i.wrapping_add(1);
        let j1: usize = j.wrapping_add(1);
        let k1: usize = k.wrapping_add(1);
        [
            [
                [self.gradient(i, j, k), self.gradient(i, j, k1)],
                [self.gradient(i, j1, k), self.gradient(i, j1, k1)],
            ],
            [
                [self.gradient(i1, j, k), self.gradient(i1, j, k1)],
                [self.gradient(i1, j1, k), self.gradient(i1, j1, k1)],
            ],
        ]
    }
}

/// The coordinate `d` steps after `i`, starting again at 0 past the last
/// machine word.
pub open spec fn next(i: usize, d: int) -> usize {
    if d == 0 {
        i
    } else if i == usize::MAX {
        0
    } else {
        (i + 1) as usize
    }
}

} // verus!
