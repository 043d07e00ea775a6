//! Lattice gradient noise.
use vstd::prelude::*;
use crate::random::{random_in_range, thread_rng};
use crate::random_vector::{is_random_vector, random_vector};
use crate::scalar::{Fixed, SCALE, THREE, TWO};
use crate::vector::Vector3;
use rand::rngs::ThreadRng;

verus! {

/// The number of gradients, and the period of the lattice along each axis.
pub const POINT_COUNT: usize = 256;

/// A table of gradient vectors and one permutation of their indices for each axis.
pub struct Perlin {
    rand_vec: Vec<Vector3>,
    perm_x: Vec<u8>,
    perm_y: Vec<u8>,
    perm_z: Vec<u8>,
}

/// Whether the table has [`POINT_COUNT`] entries of which no two are equal, and so
/// holds every index once.
pub open spec fn is_permutation(p: Seq<u8>) -> bool {
    &&& p.len() == POINT_COUNT
    &&& forall|i: int, j: int| 0 <= i < j < p.len() ==> p[i] != p[j]
}

/// The position of a lattice coordinate within the period.
pub open spec fn spec_wrap(i: int) -> int {
    i % (POINT_COUNT as int)
}

/// The weight of the lattice plane at offset `d` (zero or one) for a point whose
/// smoothed fractional coordinate is `s`.
pub open spec fn spec_plane_weight(d: int, s: Fixed) -> Fixed {
    if d == 1 {
        s
    } else {
        Fixed { raw: SCALE }.spec_sub(s)
    }
}

/// The Hermite smoothing `t^2 (3 - 2 t)` of a fractional coordinate.
pub open spec fn spec_smooth(t: Fixed) -> Fixed {
    t.spec_mul(t).spec_mul(Fixed { raw: THREE }.spec_sub(Fixed { raw: TWO }.spec_mul(t)))
}

/// Reduces a lattice coordinate to its position within the period.
fn wrap(i: i64) -> (r: usize)
    requires
        -10_000_000_000 <= i <= 10_000_000_000,
    ensures
        r == spec_wrap(i as int),
        r < POINT_COUNT,
{
    let shifted: u64 = (i as i128 + 1_099_511_627_776i128) as u64;
    assert((i + 1_099_511_627_776) % 256 == i % 256) by {
        vstd::arithmetic::div_mod::lemma_mod_multiples_basic(4_294_967_296, 256);
        vstd::arithmetic::div_mod::lemma_add_mod_noop(i as int, 1_099_511_627_776, 256);
        vstd::arithmetic::div_mod::lemma_mod_twice(i as int, 256);
    }
    (shifted % 256) as usize
}

fn plane_weight(d: usize, s: Fixed) -> (r: Fixed)
    ensures
        r == spec_plane_weight(d as int, s),
{
    if d == 1 {
        s
    } else {
        Fixed { raw: SCALE }.sub(s)
    }
}

fn smooth(t: Fixed) -> (r: Fixed)
    ensures
        r == spec_smooth(t),
{
    t.mul(t).mul(Fixed { raw: THREE }.sub(Fixed { raw: TWO }.mul(t)))
}

impl Perlin {
    #[verifier::type_invariant]
    spec fn tables_full(self) -> bool {
        &&& self.rand_vec.len() == POINT_COUNT
        &&& self.perm_x.len() == POINT_COUNT
        &&& self.perm_y.len() == POINT_COUNT
        &&& self.perm_z.len() == POINT_COUNT
    }

    /// The gradient vectors.
    pub closed spec fn gradients(self) -> Seq<Vector3> {
        self.rand_vec@
    }

    /// The index tables of the three axes.
    pub closed spec fn permutations(self) -> (Seq<u8>, Seq<u8>, Seq<u8>) {
        (self.perm_x@, self.perm_y@, self.perm_z@)
    }

    /// Whether the tables have the full length of [`POINT_COUNT`].
    pub open spec fn well_formed(self) -> bool {
        &&& self.gradients().len() == POINT_COUNT
        &&& self.permutations().0.len() == POINT_COUNT
        &&& self.permutations().1.len() == POINT_COUNT
        &&& self.permutations().2.len() == POINT_COUNT
    }

    /// The gradient at the lattice point `(i, j, k)`: the tables' entries for the three
    /// coordinates, combined by exclusive or, index the gradients.
    pub open spec fn spec_gradient(self, i: int, j: int, k: int) -> Vector3 {
        self.gradients()[(self.permutations().0[spec_wrap(i)] ^ self.permutations().1[spec_wrap(j)]
            ^ self.permutations().2[spec_wrap(k)]) as int]
    }

    /// The contribution of the corner of the lattice cell of `p` at offsets
    /// `(di, dj, dk)`: the gradient there, dotted with the offset of `p` from the
    /// corner, weighted by the smoothed closeness of `p` to the corner along each axis.
    pub open spec fn spec_corner(self, p: Vector3, di: int, dj: int, dk: int) -> Fixed {
        let u = p.x.spec_fract();
        let v = p.y.spec_fract();
        let w = p.z.spec_fract();
        let gradient = self.spec_gradient(
            p.x.spec_floor() + di,
            p.y.spec_floor() + dj,
            p.z.spec_floor() + dk,
        );
        let weight_v = Vector3 {
            x: u.spec_sub(Fixed { raw: (di * SCALE) as i64 }),
            y: v.spec_sub(Fixed { raw: (dj * SCALE) as i64 }),
            z: w.spec_sub(Fixed { raw: (dk * SCALE) as i64 }),
        };
        spec_plane_weight(di, spec_smooth(u)).spec_mul(spec_plane_weight(dj, spec_smooth(v)))
            .spec_mul(spec_plane_weight(dk, spec_smooth(w))).spec_mul(
            Vector3::spec_dot_product(gradient, weight_v),
        )
    }

    /// The sum of the contributions of the first `n` corners, counted with the x offset
    /// as the highest binary digit and the z offset as the lowest.
    pub open spec fn spec_noise_upto(self, p: Vector3, n: int) -> Fixed
        decreases n,
    {
        if n <= 0 {
            Fixed { raw: 0 }
        } else {
            self.spec_noise_upto(p, n - 1).spec_add(
                self.spec_corner(p, (n - 1) / 4, ((n - 1) / 2) % 2, (n - 1) % 2),
            )
        }
    }

    /// The noise at `p`: the sum over the eight corners of the lattice cell.
    pub open spec fn spec_noise(self, p: Vector3) -> Fixed {
        self.spec_noise_upto(p, 8)
    }

    /// Builds the noise from given tables, if each has [`POINT_COUNT`] entries.
    pub fn from_tables(rand_vec: Vec<Vector3>, perm_x: Vec<u8>, perm_y: Vec<u8>, perm_z: Vec<u8>)
        -> (r: Option<Perlin>)
        ensures
            r is Some <==> rand_vec.len() == POINT_COUNT && perm_x.len() == POINT_COUNT
                && perm_y.len() == POINT_COUNT && perm_z.len() == POINT_COUNT,
            r matches Some(perlin) ==> perlin.gradients() == rand_vec@ && perlin.permutations() == (
                perm_x@,
                perm_y@,
                perm_z@,
            ) && perlin.well_formed(),
    {
        if rand_vec.len() == POINT_COUNT && perm_x.len() == POINT_COUNT && perm_y.len()
            == POINT_COUNT && perm_z.len() == POINT_COUNT {
            Some(Perlin { rand_vec, perm_x, perm_y, perm_z })
        } else {
            None
        }
    }

    /// Draws [`POINT_COUNT`] random unit gradients and a random permutation per axis.
    pub fn new() -> (r: Perlin)
        ensures
            r.well_formed(),
            forall|i: int| 0 <= i < POINT_COUNT ==> is_random_vector(#[trigger] r.gradients()[i]),
            is_permutation(r.permutations().0),
            is_permutation(r.permutations().1),
            is_permutation(r.permutations().2),
    {
        let mut rng = thread_rng();
        let mut rand_vec: Vec<Vector3> = Vec::new();
        let mut index: usize = 0;
        while index < POINT_COUNT
            invariant
                index <= POINT_COUNT,
                rand_vec.len() == index,
                forall|i: int| 0 <= i < index ==> is_random_vector(#[trigger] rand_vec[i]),
            decreases POINT_COUNT - index,
        {
            rand_vec.push(random_vector(&mut rng));
            index += 1;
        }
        let perm_x = Self::generate_perm(&mut rng);
        let perm_y = Self::generate_perm(&mut rng);
        let perm_z = Self::generate_perm(&mut rng);
        Perlin { rand_vec, perm_x, perm_y, perm_z }
    }

    /// The noise at `p`, a value between minus one and one.
    pub fn noise(&self, p: &Vector3) -> (r: Fixed)
        ensures
            r == self.spec_noise(*p),
    {
        proof {
            use_type_invariant(self);
        }
        let u = p.x.fract();
        let v = p.y.fract();
        let w = p.z.fract();
        let i: i64 = p.x.floor();
        let j: i64 = p.y.floor();
        let k: i64 = p.z.floor();
        let uu = smooth(u);
        let vv = smooth(v);
        let ww = smooth(w);
        let mut accumulation = Fixed { raw: 0 };
        let mut n: usize = 0;
        while n < 8
            invariant
                n <= 8,
                self.tables_full(),
                accumulation == self.spec_noise_upto(*p, n as int),
                u == p.x.spec_fract(),
                v == p.y.spec_fract(),
                w == p.z.spec_fract(),
                i == p.x.spec_floor(),
                j == p.y.spec_floor(),
                k == p.z.spec_floor(),
                -9_223_372_037 <= i <= 9_223_372_036,
                -9_223_372_037 <= j <= 9_223_372_036,
                -9_223_372_037 <= k <= 9_223_372_036,
                uu == spec_smooth(u),
                vv == spec_smooth(v),
                ww == spec_smooth(w),
            decreases 8 - n,
        {
            let di: usize = n / 4;
            let dj: usize = (n / 2) % 2;
            let dk: usize = n % 2;
            let slot: u8 = self.perm_x[wrap(i + di as i64)] ^ self.perm_y[wrap(j + dj as i64)]
                ^ self.perm_z[wrap(k + dk as i64)];
            let gradient = self.rand_vec[slot as usize];
            let weight_v = Vector3 {
                x: u.sub(Fixed { raw: di as i64 * SCALE }),
                y: v.sub(Fixed { raw: dj as i64 * SCALE }),
                z: w.sub(Fixed { raw: dk as i64 * SCALE }),
            };
            let term = plane_weight(di, uu).mul(plane_weight(dj, vv)).mul(plane_weight(dk, ww)).mul(
                Vector3::dot_product(&gradient, &weight_v),
            );
            accumulation = accumulation.add(term);
            n += 1;
        }
        accumulation
    }

    /// A random permutation of the indices below [`POINT_COUNT`]: starting from the
    /// identity, each entry from the last down to the second is exchanged with an
    /// entry drawn at random from those before it. Whatever is drawn, the table is
    /// what [`Perlin::perm_from_draws`] makes of the draws.
    pub fn generate_perm(rng: &mut ThreadRng) -> (p: Vec<u8>)
        ensures
            exists|draws: Seq<usize>| is_draws(draws) && p@ == #[trigger] spec_shuffled(draws, 1),
            is_permutation(p@),
            p@[POINT_COUNT - 1] != POINT_COUNT - 1,
    {
        let mut draws: Vec<usize> = Vec::new();
        let mut index: usize = 0;
        while index < POINT_COUNT
            invariant
                index <= POINT_COUNT,
                draws.len() == index,
                forall|i: int| 0 <= i < index ==> draws[i] == 0,
            decreases POINT_COUNT - index,
        {
            draws.push(0);
            index += 1;
        }
        let mut index: usize = POINT_COUNT - 1;
        while index >= 1
            invariant
                index < POINT_COUNT,
                draws.len() == POINT_COUNT,
                forall|i: int| 0 <= i <= index ==> draws[i] == 0,
                forall|i: int| index < i < POINT_COUNT ==> (#[trigger] draws[i]) < i,
            decreases index,
        {
            let target: usize = random_in_range(rng, 0, index as i64) as usize;
            draws.set(index, target);
            index -= 1;
        }
        match Self::perm_from_draws(&draws) {
            Some(p) => p,
            None => vstd::pervasive::unreached(),
        }
    }

    /// Shuffles the identity by given draws: for each position from the last down to
    /// the second, `draws` names the earlier position whose entry is exchanged with
    /// the entry at that position. `None` unless there is a draw for each position
    /// and each names an earlier position.
    pub fn perm_from_draws(draws: &Vec<usize>) -> (r: Option<Vec<u8>>)
        ensures
            r is Some <==> is_draws(draws@),
            r matches Some(p) ==> p@ == spec_shuffled(draws@, 1) && is_permutation(p@)
                && p@[POINT_COUNT - 1] == draws@[POINT_COUNT - 1],
    {
        if draws.len() != POINT_COUNT {
            return None;
        }
        let mut check: usize = 1;
        while check < POINT_COUNT
            invariant
                1 <= check <= POINT_COUNT,
                draws.len() == POINT_COUNT,
                forall|i: int| 1 <= i < check ==> (#[trigger] draws[i]) < i,
            decreases POINT_COUNT - check,
        {
            if draws[check] >= check {
                return None;
            }
            check += 1;
        }
        let mut p: Vec<u8> = Vec::new();
        let mut index: usize = 0;
        while index < POINT_COUNT
            invariant
                index <= POINT_COUNT,
                p.len() == index,
                forall|i: int| 0 <= i < index ==> p[i] == i,
            decreases POINT_COUNT - index,
        {
            p.push(index as u8);
            index += 1;
        }
        assert(p@ =~= spec_identity());
        let mut index: usize = POINT_COUNT - 1;
        while index >= 1
            invariant
                index < POINT_COUNT,
                is_draws(draws@),
                is_permutation(p@),
                p@ == spec_shuffled(draws@, index + 1),
                index < POINT_COUNT - 1 ==> p@[POINT_COUNT - 1] == draws@[POINT_COUNT - 1],
            decreases index,
        {
            let target: usize = draws[index];
            let tmp: u8 = p[index];
            let other: u8 = p[target];
            p.set(index, other);
            p.set(target, tmp);
            proof {
                assert(p@ =~= spec_exchanged(spec_shuffled(draws@, index + 1), index as int, target as int));
            }
            index -= 1;
        }
        Some(p)
    }
}

/// The table in which every position holds its own index.
pub open spec fn spec_identity() -> Seq<u8> {
    Seq::new(POINT_COUNT as nat, |i: int| i as u8)
}

/// The table with the entries at two positions exchanged.
pub open spec fn spec_exchanged(p: Seq<u8>, i: int, j: int) -> Seq<u8> {
    p.update(i, p[j]).update(j, p[i])
}

/// Whether there is a draw for each position and each draw from the second position
/// on names an earlier position.
pub open spec fn is_draws(draws: Seq<usize>) -> bool {
    &&& draws.len() == POINT_COUNT
    &&& forall|i: int| 1 <= i < POINT_COUNT ==> (#[trigger] draws[i]) < i
}

/// The identity after the positions from the last down to `from` have had their
/// entries exchanged with those at the positions drawn for them.
pub open spec fn spec_shuffled(draws: Seq<usize>, from: int) -> Seq<u8>
    decreases POINT_COUNT - from,
{
    if from >= POINT_COUNT {
        spec_identity()
    } else {
        spec_exchanged(spec_shuffled(draws, from + 1), from, draws[from] as int)
    }
}

} // verus!
