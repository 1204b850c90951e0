//! Bookkeeping of the bounding-volume hierarchy: the axis along which a node
//! sorts its objects, the split of the sorted objects into two children, and
//! the enumeration of the eight corners of a box.

use vstd::prelude::*;

use crate::random::random_below;

verus! {

/// A coordinate axis.
#[derive(Debug, Clone, Copy, PartialEq, Eq, Structural, PartialOrd, Ord)]
pub enum Axis {
    X,
    Y,
    Z,
}

/// The axis that a draw `n` from `0..=2` selects.
pub open spec fn axis_of(n: int) -> Axis {
    if n == 0 {
        Axis::X
    } else if n == 1 {
        Axis::Y
    } else {
        Axis::Z
    }
}

/// The axis that the draw `n` selects: 0 is x, 1 is y, anything else z.
pub fn axis_from_index(n: usize) -> (a: Axis)
    ensures
        a == axis_of(n as int),
        n == 0 ==> a == Axis::X,
        n == 1 ==> a == Axis::Y,
        n >= 2 ==> a == Axis::Z,
{
    match n {
        0 => Axis::X,
        1 => Axis::Y,
        _ => Axis::Z,
    }
}

/// Each axis comes from exactly one draw of `0..3`: draw 0 gives x, draw 1
/// gives y and draw 2 gives z, so a uniform draw from `0..3` gives each axis
/// with the same chance, and every larger draw gives z.
pub proof fn lemma_axis_draws()
    ensures
        axis_of(0) == Axis::X,
        axis_of(1) == Axis::Y,
        axis_of(2) == Axis::Z,
        forall|n: int, m: int|
            0 <= n < 3 && 0 <= m < 3 && n != m ==> #[trigger] axis_of(n) != #[trigger] axis_of(m),
        forall|n: int| n >= 2 ==> #[trigger] axis_of(n) == Axis::Z,
{
}

/// A uniformly random axis: a draw from `0..=2` of the generator, mapped by
/// `axis_from_index`.
pub fn random_axis(rng: &mut rand::rngs::ThreadRng) -> (a: Axis)
    ensures
        exists|n: int| 0 <= n < 3 && a == axis_of(n),
{
    let n = random_below(rng, 3);
    axis_from_index(n)
}

/// Splits the (sorted) objects of a node into its two children: the first
/// `len / 2` objects and the rest.
pub fn split_in_half<T>(items: Vec<T>) -> (halves: (Vec<T>, Vec<T>))
    ensures
        halves.0@ == items@.subrange(0, (items.len() / 2) as int),
        halves.1@ == items@.subrange((items.len() / 2) as int, items.len() as int),
{
    let mut first = items;
    let half = first.len() / 2;
    let second = first.split_off(half);
    (first, second)
}

/// The two halves of a split, in order, give back the objects; when a node
/// holds at least two objects, each child holds fewer objects than the node
/// and at least one, and the second child holds as many as the first or one
/// more. So the recursive construction of the hierarchy terminates and keeps
/// it balanced.
pub proof fn lemma_split_in_half<T>(items: Seq<T>)
    ensures
        ({
            let h = items.len() / 2;
            let first = items.subrange(0, h as int);
            let second = items.subrange(h as int, items.len() as int);
            &&& first + second == items
            &&& items.len() >= 2 ==> (0 < first.len() < items.len() && 0 < second.len()
                < items.len())
            &&& second.len() == first.len() || second.len() == first.len() + 1
        }),
{
    let h = items.len() / 2;
    assert(items.subrange(0, h as int) + items.subrange(h as int, items.len() as int) =~= items);
}

/// Whether corner number `i` of a box takes the upper bound along x, y and z:
/// bit 0 of `i` chooses x, bit 1 chooses y and bit 2 chooses z.
pub open spec fn corner_choice(i: int) -> (bool, bool, bool) {
    (i % 2 == 1, (i / 2) % 2 == 1, (i / 4) % 2 == 1)
}

/// Which bound of the box corner number `i` takes along each axis (`true`
/// for the upper bound).
pub fn box_corner(i: u32) -> (c: (bool, bool, bool))
    ensures
        c == corner_choice(i as int),
        c.0 == (i & 1 != 0) && c.1 == (i & 2 != 0) && c.2 == (i & 4 != 0),
        c.0 == (i % 2 == 1) && c.1 == ((i / 2) % 2 == 1) && c.2 == ((i / 4) % 2 == 1),
{
    let bx = i & 0b1 != 0;
    let by = i & 0b10 != 0;
    let bz = i & 0b100 != 0;
    assert(bx == (i % 2 == 1) && by == ((i / 2) % 2 == 1) && bz == ((i / 4) % 2 == 1)) by (bit_vector)
        requires
            bx == (i & 0b1 != 0),
            by == (i & 0b10 != 0),
            bz == (i & 0b100 != 0),
    ;
    (bx, by, bz)
}

/// The number of the corner that takes the upper bound exactly along the
/// axes flagged `true`.
pub open spec fn corner_number(bx: bool, by: bool, bz: bool) -> int {
    (if bx { 1int } else { 0 }) + (if by { 2int } else { 0 }) + (if bz { 4int } else { 0 })
}

/// The corners `0..8` are the eight corners of the box, each once: distinct
/// numbers give distinct corners, and every corner has a number below 8.
pub proof fn lemma_box_corners()
    ensures
        forall|i: int, j: int|
            0 <= i < 8 && 0 <= j < 8 && i != j ==> #[trigger] corner_choice(i) != #[trigger]
                corner_choice(j),
        forall|bx: bool, by: bool, bz: bool|
            0 <= #[trigger] corner_number(bx, by, bz) < 8 && corner_choice(
                corner_number(bx, by, bz),
            ) == (bx, by, bz),
{
    assert(corner_choice(0) == (false, false, false));
    assert(corner_choice(1) == (true, false, false));
    assert(corner_choice(2) == (false, true, false));
    assert(corner_choice(3) == (true, true, false));
    assert(corner_choice(4) == (false, false, true));
    assert(corner_choice(5) == (true, false, true));
    assert(corner_choice(6) == (false, true, true));
    assert(corner_choice(7) == (true, true, true));
}

} // verus!
