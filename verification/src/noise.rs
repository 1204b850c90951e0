//! The lattice part of Perlin noise: the permutation tables and the hashing
//! of lattice points to one of the `PERLIN_POINT_COUNT` random gradients.

use vstd::prelude::*;

use crate::random::random_below;

verus! {

/// Number of random gradients, and length of each permutation table.
pub const PERLIN_POINT_COUNT: usize = 256;

/// The table `0, 1, ..., PERLIN_POINT_COUNT - 1`.
pub open spec fn identity_table() -> Seq<usize> {
    Seq::new(PERLIN_POINT_COUNT as nat, |k: int| k as usize)
}

/// A permutation table: every number below `PERLIN_POINT_COUNT` exactly once.
pub open spec fn is_permutation_table(t: Seq<usize>) -> bool {
    &&& t.len() == PERLIN_POINT_COUNT
    &&& forall|k: int| 0 <= k < t.len() ==> #[trigger] t[k] < PERLIN_POINT_COUNT
    &&& t.no_duplicates()
}

/// Entries of a table index the gradients: the table has
/// `PERLIN_POINT_COUNT` entries, each below `PERLIN_POINT_COUNT`.
pub open spec fn is_index_table(t: Seq<usize>) -> bool {
    &&& t.len() == PERLIN_POINT_COUNT
    &&& forall|k: int| 0 <= k < t.len() ==> #[trigger] t[k] < PERLIN_POINT_COUNT
}

/// A lattice coordinate reduced to a table position.
pub open spec fn wrap(c: int) -> int {
    c % (PERLIN_POINT_COUNT as int)
}

/// The gradient that the lattice point `(a, b, c)` uses.
pub open spec fn lattice_hash(px: Seq<usize>, py: Seq<usize>, pz: Seq<usize>, a: int, b: int, c: int) -> usize {
    px[wrap(a)] ^ py[wrap(b)] ^ pz[wrap(c)]
}

/// Position of the corner `(di, dj, dk)` of a lattice cell among the eight
/// corners that `corner_indices` returns.
pub open spec fn corner_slot(di: int, dj: int, dk: int) -> int {
    4 * di + 2 * dj + dk
}

/// The identity table is a permutation table.
pub proof fn lemma_identity_is_permutation()
    ensures
        is_permutation_table(identity_table()),
{
}

/// Every permutation table can index the gradients.
pub proof fn lemma_permutation_indexes(t: Seq<usize>)
    requires
        is_permutation_table(t),
    ensures
        is_index_table(t),
{
}

/// The noise repeats every `PERLIN_POINT_COUNT` lattice cells along each
/// axis: shifting a lattice point by that many cells along x, y or z keeps
/// its gradient.
pub proof fn lemma_lattice_periodic(
    px: Seq<usize>,
    py: Seq<usize>,
    pz: Seq<usize>,
    a: int,
    b: int,
    c: int,
)
    ensures
        lattice_hash(px, py, pz, a + PERLIN_POINT_COUNT, b, c) == lattice_hash(px, py, pz, a, b, c),
        lattice_hash(px, py, pz, a, b + PERLIN_POINT_COUNT, c) == lattice_hash(px, py, pz, a, b, c),
        lattice_hash(px, py, pz, a, b, c + PERLIN_POINT_COUNT) == lattice_hash(px, py, pz, a, b, c),
{
    vstd::arithmetic::div_mod::lemma_mod_add_multiples_vanish(a, 256);
    vstd::arithmetic::div_mod::lemma_mod_add_multiples_vanish(b, 256);
    vstd::arithmetic::div_mod::lemma_mod_add_multiples_vanish(c, 256);
}

/// A permutation table for Perlin noise.
///
/// The table starts out as `0, 1, ..., 255`; the shuffling loop then walks
/// the range `PERLIN_POINT_COUNT - 1 .. 0`, which is empty, so no swap takes
/// place and the table is returned in order.
pub fn create_permute(rng: &mut rand::rngs::ThreadRng) -> (p: Vec<usize>)
    ensures
        p@ == identity_table(),
        is_permutation_table(p@),
        p.len() == 256,
        forall|k: int| 0 <= k < 256 ==> #[trigger] p@[k] == k,
{
    let mut p: Vec<usize> = Vec::new();
    let mut k: usize = 0;
    while k < PERLIN_POINT_COUNT
        invariant
            k <= PERLIN_POINT_COUNT,
            p@ == identity_table().subrange(0, k as int),
        decreases PERLIN_POINT_COUNT - k,
    {
        p.push(k);
        k = k + 1;
    }
    assert(p@ == identity_table());
    let mut i: usize = PERLIN_POINT_COUNT - 1;
    let end: usize = 0;
    while i < end
        invariant
            end == 0,
            p@ == identity_table(),
        decreases end - i,
    {
        let target = random_below(rng, i);
        let tmp = p[i];
        let other = p[target];
        p.set(i, other);
        p.set(target, tmp);
        i = i + 1;
    }
    proof {
        lemma_identity_is_permutation();
    }
    p
}

/// Taking the low byte of a lattice coordinate, `c & 255`, is reducing it
/// modulo 256: the result is the remainder `c mod 256` in `0..256`, also for
/// negative coordinates.
pub proof fn lemma_low_byte(c: isize)
    ensures
        0 <= c & 255 < 256,
        (c & 255) as int == (c as int) % 256,
{
    let m = c & 255;
    let q = c >> 8u32;
    assert(0 <= m < 256 && m == c - q * 256) by (bit_vector)
        requires
            m == c & 255,
            q == c >> 8u32,
    ;
    vstd::arithmetic::div_mod::lemma_fundamental_div_mod_converse(c as int, 256, q as int, m as int);
}

/// Reduces a lattice coordinate to a table position with `& 255`.
fn wrap_exec(c: isize) -> (r: usize)
    ensures
        r as int == wrap(c as int),
        r < PERLIN_POINT_COUNT,
{
    let m = c & 255;
    let q = c >> 8u32;
    assert(0 <= m < 256 && m == c - q * 256) by (bit_vector)
        requires
            m == c & 255,
            q == c >> 8u32,
    ;
    proof {
        vstd::arithmetic::div_mod::lemma_fundamental_div_mod_converse(c as int, 256, q as int, m as int);
    }
    m as usize
}

/// The gradient indices of the eight corners of the lattice cell whose lowest
/// corner is `(i, j, k)`: the corner `(i + di, j + dj, k + dk)` comes at
/// position `4 * di + 2 * dj + dk`.
pub fn corner_indices(
    perm_x: &Vec<usize>,
    perm_y: &Vec<usize>,
    perm_z: &Vec<usize>,
    i: isize,
    j: isize,
    k: isize,
) -> (c: Vec<usize>)
    requires
        perm_x.len() == PERLIN_POINT_COUNT,
        perm_y.len() == PERLIN_POINT_COUNT,
        perm_z.len() == PERLIN_POINT_COUNT,
        i < isize::MAX,
        j < isize::MAX,
        k < isize::MAX,
    ensures
        c.len() == 8,
        forall|di: int, dj: int, dk: int|
            0 <= di < 2 && 0 <= dj < 2 && 0 <= dk < 2 ==> #[trigger] c@[corner_slot(di, dj, dk)]
                == lattice_hash(perm_x@, perm_y@, perm_z@, i + di, j + dj, k + dk),
        forall|n: int|
            0 <= n < 8 ==> #[trigger] c@[n] == perm_x@[(i + n / 4) % 256] ^ perm_y@[(j + (n / 2) % 2)
                % 256] ^ perm_z@[(k + n % 2) % 256],
        forall|n: int|
            0 <= n < 8 ==> #[trigger] c@[n] == perm_x@[(((i + n / 4) as isize) & 255) as int]
                ^ perm_y@[(((j + (n / 2) % 2) as isize) & 255) as int] ^ perm_z@[(((k + n % 2) as isize)
                & 255) as int],
        is_index_table(perm_x@) && is_index_table(perm_y@) && is_index_table(perm_z@) ==> forall|
            n: int,
        |
            0 <= n < 8 ==> #[trigger] c@[n] < PERLIN_POINT_COUNT,
{
    let ghost tables = is_index_table(perm_x@) && is_index_table(perm_y@) && is_index_table(
        perm_z@,
    );
    let mut c: Vec<usize> = Vec::new();
    let mut di: isize = 0;
    while di < 2
        invariant
            0 <= di <= 2,
            i < isize::MAX,
            j < isize::MAX,
            k < isize::MAX,
            perm_x.len() == PERLIN_POINT_COUNT,
            perm_y.len() == PERLIN_POINT_COUNT,
            perm_z.len() == PERLIN_POINT_COUNT,
            tables == (is_index_table(perm_x@) && is_index_table(perm_y@) && is_index_table(perm_z@)),
            c.len() == 4 * di,
            forall|a: int, b: int, e: int|
                0 <= a < di && 0 <= b < 2 && 0 <= e < 2 ==> #[trigger] c@[corner_slot(a, b, e)]
                    == lattice_hash(perm_x@, perm_y@, perm_z@, i + a, j + b, k + e),
            tables ==> forall|n: int| 0 <= n < c.len() ==> #[trigger] c@[n] < PERLIN_POINT_COUNT,
        decreases 2 - di,
    {
        let mut dj: isize = 0;
        while dj < 2
            invariant
                0 <= di < 2,
                0 <= dj <= 2,
                i < isize::MAX,
                j < isize::MAX,
                k < isize::MAX,
                perm_x.len() == PERLIN_POINT_COUNT,
                perm_y.len() == PERLIN_POINT_COUNT,
                perm_z.len() == PERLIN_POINT_COUNT,
                tables == (is_index_table(perm_x@) && is_index_table(perm_y@) && is_index_table(perm_z@)),
                c.len() == 4 * di + 2 * dj,
                forall|a: int, b: int, e: int|
                    (0 <= a < di && 0 <= b < 2 && 0 <= e < 2) || (a == di && 0 <= b < dj && 0 <= e
                        < 2) ==> #[trigger] c@[corner_slot(a, b, e)] == lattice_hash(
                        perm_x@,
                        perm_y@,
                        perm_z@,
                        i + a,
                        j + b,
                        k + e,
                    ),
                tables ==> forall|n: int| 0 <= n < c.len() ==> #[trigger] c@[n] < PERLIN_POINT_COUNT,
            decreases 2 - dj,
        {
            let mut dk: isize = 0;
            while dk < 2
                invariant
                    0 <= di < 2,
                    0 <= dj < 2,
                    0 <= dk <= 2,
                    i < isize::MAX,
                    j < isize::MAX,
                    k < isize::MAX,
                    perm_x.len() == PERLIN_POINT_COUNT,
                    perm_y.len() == PERLIN_POINT_COUNT,
                    perm_z.len() == PERLIN_POINT_COUNT,
                    tables == (is_index_table(perm_x@) && is_index_table(perm_y@) && is_index_table(perm_z@)),
                    c.len() == 4 * di + 2 * dj + dk,
                    forall|a: int, b: int, e: int|
                        (0 <= a < di && 0 <= b < 2 && 0 <= e < 2) || (a == di && 0 <= b < dj && 0
                            <= e < 2) || (a == di && b == dj && 0 <= e < dk)
                            ==> #[trigger] c@[corner_slot(a, b, e)] == lattice_hash(
                            perm_x@,
                            perm_y@,
                            perm_z@,
                            i + a,
                            j + b,
                            k + e,
                        ),
                    tables ==> forall|n: int| 0 <= n < c.len() ==> #[trigger] c@[n] < PERLIN_POINT_COUNT,
                decreases 2 - dk,
            {
                let x = perm_x[wrap_exec(i + di)];
                let y = perm_y[wrap_exec(j + dj)];
                let z = perm_z[wrap_exec(k + dk)];
                assert(x < 256 && y < 256 && z < 256 ==> x ^ y ^ z < 256) by (bit_vector);
                proof {
                    if tables {
                        assert(perm_x@[wrap(i + di)] < PERLIN_POINT_COUNT);
                        assert(perm_y@[wrap(j + dj)] < PERLIN_POINT_COUNT);
                        assert(perm_z@[wrap(k + dk)] < PERLIN_POINT_COUNT);
                    }
                }
                let ghost before = c@;
                c.push(x ^ y ^ z);
                assert forall|a: int, b: int, e: int|
                    (0 <= a < di && 0 <= b < 2 && 0 <= e < 2) || (a == di && 0 <= b < dj && 0 <= e
                        < 2) || (a == di && b == dj && 0 <= e < dk + 1)
                        implies #[trigger] c@[corner_slot(a, b, e)] == lattice_hash(
                        perm_x@,
                        perm_y@,
                        perm_z@,
                        i + a,
                        j + b,
                        k + e,
                    ) by {
                    if a == di && b == dj && e == dk {
                        assert(corner_slot(a, b, e) == before.len());
                    } else {
                        assert(corner_slot(a, b, e) < before.len());
                        assert(c@[corner_slot(a, b, e)] == before[corner_slot(a, b, e)]);
                    }
                }
                dk = dk + 1;
            }
            dj = dj + 1;
        }
        di = di + 1;
    }
    assert forall|n: int| 0 <= n < 8 implies #[trigger] c@[n] == perm_x@[(i + n / 4) % 256] ^ perm_y@[(j
        + (n / 2) % 2) % 256] ^ perm_z@[(k + n % 2) % 256] && c@[n] == perm_x@[(((i + n / 4) as isize)
        & 255) as int] ^ perm_y@[(((j + (n / 2) % 2) as isize) & 255) as int] ^ perm_z@[(((k + n % 2) as isize)
        & 255) as int] by {
        let a = n / 4;
        let b = (n / 2) % 2;
        let e = n % 2;
        assert(n == corner_slot(a, b, e));
        lemma_low_byte((i + a) as isize);
        lemma_low_byte((j + b) as isize);
        lemma_low_byte((k + e) as isize);
    }
    c
}

} // verus!
