//! Pixel neighbourhoods for image post-processing.
//!
//! A [`Proximity`] describes which pixels around a centre pixel take part in
//! a filter: either the whole square window of a given radius (clipped to the
//! image), or only those pixels of that window whose Manhattan distance to
//! the centre is below the radius.

use vstd::prelude::*;

verus! {

/// The shape of a neighbourhood.
pub enum ProximityType {
    /// Every pixel of the clipped square window.
    Square,
    /// The pixels of the window that are closer than the radius in the
    /// Manhattan metric.
    Edges,
}

/// A neighbourhood of a given radius and shape.
pub struct Proximity {
    size: u32,
    _type: ProximityType,
}

/// Absolute difference of two integers.
pub open spec fn abs_diff(a: int, b: int) -> int {
    if a < b {
        b - a
    } else {
        a - b
    }
}

/// Smaller of two integers.
pub open spec fn min_int(a: int, b: int) -> int {
    if a <= b {
        a
    } else {
        b
    }
}

/// First column (or row) of the window around `c` of radius `size`.
pub open spec fn window_start(c: int, size: int) -> int {
    c - min_int(c, size)
}

/// End of the window around `c` in an image of extent `extent`.
/// The window covers the coordinates from `window_start` up to, but not
/// including, this value.
pub open spec fn window_end(c: int, size: int, extent: int) -> int {
    c + min_int(extent - c - 1, size)
}

/// Whether the pixel `(i, j)` of the window around `(x, y)` belongs to a
/// neighbourhood of shape `kind` and radius `size`.
pub open spec fn keeps(kind: ProximityType, size: int, x: int, y: int, i: int, j: int) -> bool {
    match kind {
        ProximityType::Square => true,
        ProximityType::Edges => abs_diff(x, i) + abs_diff(y, j) < size,
    }
}

/// The kept pixels `(i, j)` of column `i` with `up <= j < bottom`, top to bottom.
pub open spec fn column_pixels(
    kind: ProximityType,
    size: int,
    x: int,
    y: int,
    i: int,
    up: int,
    bottom: int,
) -> Seq<(u32, u32)>
    decreases bottom - up,
{
    if bottom <= up {
        Seq::empty()
    } else {
        let s = column_pixels(kind, size, x, y, i, up, bottom - 1);
        if keeps(kind, size, x, y, i, bottom - 1) {
            s.push((i as u32, (bottom - 1) as u32))
        } else {
            s
        }
    }
}

/// The kept pixels of the columns `left <= i < right`, column by column,
/// each column from `up` to `down` (exclusive).
pub open spec fn grid_pixels(
    kind: ProximityType,
    size: int,
    x: int,
    y: int,
    left: int,
    right: int,
    up: int,
    down: int,
) -> Seq<(u32, u32)>
    decreases right - left,
{
    if right <= left {
        Seq::empty()
    } else {
        grid_pixels(kind, size, x, y, left, right - 1, up, down) + column_pixels(
            kind,
            size,
            x,
            y,
            right - 1,
            up,
            down,
        )
    }
}


/// Facts about one column of kept pixels.
proof fn lemma_column(
    kind: ProximityType,
    size: int,
    x: int,
    y: int,
    i: int,
    up: int,
    bottom: int,
)
    requires
        0 <= i <= u32::MAX,
        0 <= up,
        bottom <= u32::MAX + 1,
    ensures
        ({
            let s = column_pixels(kind, size, x, y, i, up, bottom);
            &&& forall|k: int|
                0 <= k < s.len() ==> {
                    &&& (#[trigger] s[k]).0 == i
                    &&& up <= s[k].1 < bottom
                    &&& keeps(kind, size, x, y, i, s[k].1 as int)
                }
            &&& forall|b: int|
                up <= b < bottom && keeps(kind, size, x, y, i, b) ==> #[trigger] s.contains(
                    (i as u32, b as u32),
                )
            &&& s.no_duplicates()
            &&& (kind is Square && up <= bottom) ==> s.len() == bottom - up
            &&& kind is Square ==> forall|k: int|
                0 <= k < s.len() ==> #[trigger] s[k] == (i as u32, (up + k) as u32)
        }),
    decreases bottom - up,
{
    if bottom > up {
        lemma_column(kind, size, x, y, i, up, bottom - 1);
        let s0 = column_pixels(kind, size, x, y, i, up, bottom - 1);
        let s = column_pixels(kind, size, x, y, i, up, bottom);
        if keeps(kind, size, x, y, i, bottom - 1) {
            assert(s == s0.push((i as u32, (bottom - 1) as u32)));
            assert forall|b: int|
                up <= b < bottom && keeps(kind, size, x, y, i, b) implies #[trigger] s.contains(
                (i as u32, b as u32),
            ) by {
                if b == bottom - 1 {
                    assert(s[s.len() - 1] == (i as u32, b as u32));
                } else {
                    assert(s0.contains((i as u32, b as u32)));
                    let k = choose|k: int| 0 <= k < s0.len() && s0[k] == (i as u32, b as u32);
                    assert(s[k] == (i as u32, b as u32));
                }
            }
        } else {
            assert(s == s0);
        }
    }
}

/// Facts about the kept pixels of a block of columns.
proof fn lemma_grid(
    kind: ProximityType,
    size: int,
    x: int,
    y: int,
    left: int,
    right: int,
    up: int,
    down: int,
)
    requires
        0 <= left,
        right <= u32::MAX + 1,
        0 <= up,
        down <= u32::MAX + 1,
    ensures
        ({
            let s = grid_pixels(kind, size, x, y, left, right, up, down);
            &&& forall|k: int|
                0 <= k < s.len() ==> {
                    &&& left <= (#[trigger] s[k]).0 < right
                    &&& up <= s[k].1 < down
                    &&& keeps(kind, size, x, y, s[k].0 as int, s[k].1 as int)
                }
            &&& forall|a: int, b: int|
                left <= a < right && up <= b < down && keeps(kind, size, x, y, a, b)
                    ==> #[trigger] s.contains((a as u32, b as u32))
            &&& s.no_duplicates()
        }),
    decreases right - left,
{
    if right > left {
        lemma_grid(kind, size, x, y, left, right - 1, up, down);
        lemma_column(kind, size, x, y, right - 1, up, down);
        let g = grid_pixels(kind, size, x, y, left, right - 1, up, down);
        let c = column_pixels(kind, size, x, y, right - 1, up, down);
        let s = grid_pixels(kind, size, x, y, left, right, up, down);
        assert(s == g + c);
        assert forall|k: int| 0 <= k < s.len() implies {
            &&& left <= (#[trigger] s[k]).0 < right
            &&& up <= s[k].1 < down
            &&& keeps(kind, size, x, y, s[k].0 as int, s[k].1 as int)
        } by {
            if k < g.len() {
                assert(s[k] == g[k]);
            } else {
                assert(s[k] == c[k - g.len()]);
            }
        }
        assert forall|a: int, b: int|
            left <= a < right && up <= b < down && keeps(kind, size, x, y, a, b)
                implies #[trigger] s.contains((a as u32, b as u32)) by {
            if a < right - 1 {
                assert(g.contains((a as u32, b as u32)));
                let k = choose|k: int| 0 <= k < g.len() && g[k] == (a as u32, b as u32);
                assert(s[k] == (a as u32, b as u32));
            } else {
                assert(c.contains((a as u32, b as u32)));
                let k = choose|k: int| 0 <= k < c.len() && c[k] == (a as u32, b as u32);
                assert(s[g.len() + k] == (a as u32, b as u32));
            }
        }
        assert forall|p: int, q: int| 0 <= p < g.len() && 0 <= q < c.len() implies g[p] != c[q] by {
            assert(g[p].0 < right - 1);
            assert(c[q].0 == right - 1);
        }
        vstd::seq_lib::lemma_no_dup_in_concat(g, c);
    }
}


/// Facts about a block of columns of a square neighbourhood: its length and
/// the position of every pixel in it.
proof fn lemma_grid_square(size: int, x: int, y: int, left: int, right: int, up: int, down: int)
    requires
        0 <= left <= right <= u32::MAX + 1,
        0 <= up <= down <= u32::MAX + 1,
    ensures
        ({
            let s = grid_pixels(ProximityType::Square, size, x, y, left, right, up, down);
            let h = down - up;
            &&& s.len() == (right - left) * h
            &&& h > 0 ==> forall|k: int|
                0 <= k < s.len() ==> #[trigger] s[k] == ((left + k / h) as u32, (up + k % h) as u32)
        }),
    decreases right - left,
{
    let h = down - up;
    if right > left {
        lemma_grid_square(size, x, y, left, right - 1, up, down);
        lemma_column(ProximityType::Square, size, x, y, right - 1, up, down);
        let g = grid_pixels(ProximityType::Square, size, x, y, left, right - 1, up, down);
        let c = column_pixels(ProximityType::Square, size, x, y, right - 1, up, down);
        let s = grid_pixels(ProximityType::Square, size, x, y, left, right, up, down);
        assert(s == g + c);
        assert((right - left) * h == (right - 1 - left) * h + h) by (nonlinear_arith);
        if h > 0 {
            assert forall|k: int| 0 <= k < s.len() implies #[trigger] s[k] == (
                (left + k / h) as u32,
                (up + k % h) as u32,
            ) by {
                if k < g.len() {
                    assert(s[k] == g[k]);
                } else {
                    let m = k - g.len();
                    assert(s[k] == c[m]);
                    assert(0 <= m < h);
                    assert(k == (right - 1 - left) * h + m);
                    vstd::arithmetic::div_mod::lemma_fundamental_div_mod_converse(
                        k,
                        h,
                        right - 1 - left,
                        m,
                    );
                }
            }
        }
    } else {
        assert((right - left) * h == 0) by (nonlinear_arith)
            requires
                right == left,
        ;
    }
}

/// Every pixel of a neighbourhood lies inside the image, inside the clipped
/// window around the centre, and satisfies the shape's condition; every pixel
/// of the window that satisfies the condition is listed; no pixel is listed
/// twice.
pub proof fn lemma_neighbourhood_members(p: &Proximity, x: u32, y: u32, width: u32, height: u32)
    requires
        x < width,
        y < height,
    ensures
        ({
            let s = p.neighbourhood(x, y, width, height);
            let r = p.size() as int;
            &&& forall|k: int|
                0 <= k < s.len() ==> {
                    &&& (#[trigger] s[k]).0 < width
                    &&& s[k].1 < height
                    &&& window_start(x as int, r) <= s[k].0 < window_end(x as int, r, width as int)
                    &&& window_start(y as int, r) <= s[k].1 < window_end(y as int, r, height as int)
                    &&& abs_diff(x as int, s[k].0 as int) <= r
                    &&& abs_diff(y as int, s[k].1 as int) <= r
                    &&& keeps(p.kind(), r, x as int, y as int, s[k].0 as int, s[k].1 as int)
                }
            &&& forall|a: u32, b: u32|
                window_start(x as int, r) <= a < window_end(x as int, r, width as int)
                    && window_start(y as int, r) <= b < window_end(y as int, r, height as int)
                    && keeps(p.kind(), r, x as int, y as int, a as int, b as int)
                    ==> #[trigger] s.contains((a, b))
            &&& s.no_duplicates()
        }),
{
    let r = p.size() as int;
    lemma_grid(
        p.kind(),
        r,
        x as int,
        y as int,
        window_start(x as int, r),
        window_end(x as int, r, width as int),
        window_start(y as int, r),
        window_end(y as int, r, height as int),
    );
    let s = p.neighbourhood(x, y, width, height);
    assert forall|a: u32, b: u32|
        window_start(x as int, r) <= a < window_end(x as int, r, width as int)
            && window_start(y as int, r) <= b < window_end(y as int, r, height as int)
            && keeps(p.kind(), r, x as int, y as int, a as int, b as int)
            implies #[trigger] s.contains((a, b)) by {
        assert(s.contains(((a as int) as u32, (b as int) as u32)));
    }
}

/// A square neighbourhood lists the whole clipped window, column by column:
/// its `k`-th pixel is `(left + k / h, up + k % h)`, where `h` is the height
/// of the window, and it has as many pixels as the window.
pub proof fn lemma_square_neighbourhood(p: &Proximity, x: u32, y: u32, width: u32, height: u32)
    requires
        x < width,
        y < height,
        p.kind() is Square,
    ensures
        ({
            let s = p.neighbourhood(x, y, width, height);
            let r = p.size() as int;
            let left = window_start(x as int, r);
            let right = window_end(x as int, r, width as int);
            let up = window_start(y as int, r);
            let down = window_end(y as int, r, height as int);
            let h = down - up;
            &&& s.len() == (right - left) * h
            &&& forall|k: int|
                0 <= k < s.len() ==> #[trigger] s[k] == ((left + k / h) as u32, (up + k % h) as u32)
        }),
{
    let r = p.size() as int;
    let left = window_start(x as int, r);
    let right = window_end(x as int, r, width as int);
    let up = window_start(y as int, r);
    let down = window_end(y as int, r, height as int);
    lemma_grid_square(r, x as int, y as int, left, right, up, down);
    if down - up == 0 {
        assert((right - left) * 0 == 0) by (nonlinear_arith);
    }
}


/// Which pixels a neighbourhood of radius `r` around `(x, y)` lists, spelled
/// out: the columns from `x - min(x, r)` up to, but not including,
/// `x + min(width - x - 1, r)`, the rows likewise, and for the `Edges` shape
/// only the pixels whose Manhattan distance `|x - a| + |y - b|` to the centre
/// is below `r`. Nothing is listed twice, and a square neighbourhood lists
/// all `(right - left) * (down - up)` pixels of its window.
pub proof fn lemma_pixels_exactly(p: &Proximity, x: u32, y: u32, width: u32, height: u32)
    requires
        x < width,
        y < height,
    ensures
        ({
            let s = p.neighbourhood(x, y, width, height);
            let r = p.size() as int;
            let left = if x < r { 0 } else { x - r };
            let right = if width - x - 1 < r { width - 1 } else { x + r };
            let up = if y < r { 0 } else { y - r };
            let down = if height - y - 1 < r { height - 1 } else { y + r };
            &&& forall|a: u32, b: u32|
                #[trigger] s.contains((a, b)) <==> (left <= a < right && up <= b < down && (p.kind() is Square
                    || (if x < a { a - x } else { x - a }) + (if y < b { b - y } else { y - b }) < r))
            &&& s.no_duplicates()
            &&& p.kind() is Square ==> s.len() == (right - left) * (down - up)
        }),
{
    lemma_neighbourhood_members(p, x, y, width, height);
    let s = p.neighbourhood(x, y, width, height);
    assert forall|a: u32, b: u32| #[trigger] s.contains((a, b)) implies (window_start(
        x as int,
        p.size() as int,
    ) <= a < window_end(x as int, p.size() as int, width as int) && window_start(
        y as int,
        p.size() as int,
    ) <= b < window_end(y as int, p.size() as int, height as int) && keeps(
        p.kind(),
        p.size() as int,
        x as int,
        y as int,
        a as int,
        b as int,
    )) by {
        let k = choose|k: int| 0 <= k < s.len() && s[k] == (a, b);
        assert(s[k] == (a, b));
    }
    if p.kind() is Square {
        lemma_square_neighbourhood(p, x, y, width, height);
    }
}

/// A square neighbourhood of radius `r` whose window is not clipped by the
/// image lists the `(2r)^2` pixels `x - r <= a < x + r`, `y - r <= b < y + r`.
pub proof fn lemma_interior_square(p: &Proximity, x: u32, y: u32, width: u32, height: u32)
    requires
        p.kind() is Square,
        p.size() <= x,
        x + p.size() < width,
        p.size() <= y,
        y + p.size() < height,
    ensures
        p.neighbourhood(x, y, width, height).len() == 4 * p.size() * p.size(),
        forall|a: u32, b: u32|
            #[trigger] p.neighbourhood(x, y, width, height).contains((a, b)) <==> (x - p.size() <= a
                < x + p.size() && y - p.size() <= b < y + p.size()),
{
    lemma_pixels_exactly(p, x, y, width, height);
    let r = p.size() as int;
    assert((2 * r) * (2 * r) == 4 * r * r) by (nonlinear_arith);
}

/// For the same radius, every pixel of the diamond-shaped (`Edges`)
/// neighbourhood also belongs to the square one.
pub proof fn lemma_edges_within_square(
    edges: &Proximity,
    square: &Proximity,
    x: u32,
    y: u32,
    width: u32,
    height: u32,
)
    requires
        x < width,
        y < height,
        edges.kind() is Edges,
        square.kind() is Square,
        edges.size() == square.size(),
    ensures
        forall|k: int|
            0 <= k < edges.neighbourhood(x, y, width, height).len() ==> square.neighbourhood(
                x,
                y,
                width,
                height,
            ).contains(#[trigger] edges.neighbourhood(x, y, width, height)[k]),
{
    lemma_neighbourhood_members(edges, x, y, width, height);
    lemma_neighbourhood_members(square, x, y, width, height);
    let e = edges.neighbourhood(x, y, width, height);
    assert forall|k: int| 0 <= k < e.len() implies square.neighbourhood(
        x,
        y,
        width,
        height,
    ).contains(#[trigger] e[k]) by {
        let (a, b) = e[k];
        assert(square.neighbourhood(x, y, width, height).contains((a, b)));
    }
}

/// The centre pixel belongs to its own neighbourhood exactly when the radius
/// is positive and the centre is neither in the last column nor in the last
/// row (the window stops short of its far edge).
pub proof fn lemma_centre_included(p: &Proximity, x: u32, y: u32, width: u32, height: u32)
    requires
        x < width,
        y < height,
    ensures
        p.neighbourhood(x, y, width, height).contains((x, y)) <==> (p.size() > 0 && x + 1
            < width && y + 1 < height),
{
    lemma_neighbourhood_members(p, x, y, width, height);
    let s = p.neighbourhood(x, y, width, height);
    if s.contains((x, y)) {
        let k = choose|k: int| 0 <= k < s.len() && s[k] == (x, y);
        assert(s[k].0 == x);
    }
}

/// Pixel `(a, b)` comes before pixel `(c, d)` column by column.
pub open spec fn before(p: (u32, u32), q: (u32, u32)) -> bool {
    p.0 < q.0 || (p.0 == q.0 && p.1 < q.1)
}

/// A column of kept pixels is in increasing row order.
proof fn lemma_column_sorted(kind: ProximityType, size: int, x: int, y: int, i: int, up: int, bottom: int)
    requires
        0 <= i <= u32::MAX,
        0 <= up,
        bottom <= u32::MAX + 1,
    ensures
        ({
            let s = column_pixels(kind, size, x, y, i, up, bottom);
            forall|k: int, l: int| 0 <= k < l < s.len() ==> (#[trigger] s[k]).1 < (#[trigger] s[l]).1
        }),
    decreases bottom - up,
{
    if bottom > up {
        lemma_column_sorted(kind, size, x, y, i, up, bottom - 1);
        lemma_column(kind, size, x, y, i, up, bottom - 1);
        let s0 = column_pixels(kind, size, x, y, i, up, bottom - 1);
        let s = column_pixels(kind, size, x, y, i, up, bottom);
        if keeps(kind, size, x, y, i, bottom - 1) {
            assert forall|k: int, l: int| 0 <= k < l < s.len() implies (#[trigger] s[k]).1 < (
            #[trigger] s[l]).1 by {
                assert(s[k] == s0[k]);
                if l < s0.len() {
                    assert(s[l] == s0[l]);
                }
            }
        }
    }
}

/// A block of columns of kept pixels is in column-by-column order.
proof fn lemma_grid_sorted(
    kind: ProximityType,
    size: int,
    x: int,
    y: int,
    left: int,
    right: int,
    up: int,
    down: int,
)
    requires
        0 <= left,
        right <= u32::MAX + 1,
        0 <= up,
        down <= u32::MAX + 1,
    ensures
        ({
            let s = grid_pixels(kind, size, x, y, left, right, up, down);
            forall|k: int, l: int| 0 <= k < l < s.len() ==> before(#[trigger] s[k], #[trigger] s[l])
        }),
    decreases right - left,
{
    if right > left {
        lemma_grid_sorted(kind, size, x, y, left, right - 1, up, down);
        lemma_grid(kind, size, x, y, left, right - 1, up, down);
        lemma_column(kind, size, x, y, right - 1, up, down);
        lemma_column_sorted(kind, size, x, y, right - 1, up, down);
        let g = grid_pixels(kind, size, x, y, left, right - 1, up, down);
        let c = column_pixels(kind, size, x, y, right - 1, up, down);
        let s = grid_pixels(kind, size, x, y, left, right, up, down);
        assert(s == g + c);
        assert forall|k: int, l: int| 0 <= k < l < s.len() implies before(#[trigger] s[k], #[trigger] s[l]) by {
            if l < g.len() {
                assert(s[k] == g[k] && s[l] == g[l]);
            } else if k < g.len() {
                assert(s[k] == g[k] && s[l] == c[l - g.len()]);
            } else {
                assert(s[k] == c[k - g.len()] && s[l] == c[l - g.len()]);
            }
        }
    }
}

/// A neighbourhood lists its pixels column by column: by increasing column,
/// and within a column by increasing row.
pub proof fn lemma_neighbourhood_sorted(p: &Proximity, x: u32, y: u32, width: u32, height: u32)
    requires
        x < width,
        y < height,
    ensures
        forall|k: int, l: int|
            0 <= k < l < p.neighbourhood(x, y, width, height).len() ==> (#[trigger] p.neighbourhood(
                x,
                y,
                width,
                height,
            )[k]).0 < (#[trigger] p.neighbourhood(x, y, width, height)[l]).0 || (p.neighbourhood(
                x,
                y,
                width,
                height,
            )[k].0 == p.neighbourhood(x, y, width, height)[l].0 && p.neighbourhood(
                x,
                y,
                width,
                height,
            )[k].1 < p.neighbourhood(x, y, width, height)[l].1),
{
    let r = p.size() as int;
    lemma_grid_sorted(
        p.kind(),
        r,
        x as int,
        y as int,
        window_start(x as int, r),
        window_end(x as int, r, width as int),
        window_start(y as int, r),
        window_end(y as int, r, height as int),
    );
}

impl Proximity {
    /// The radius of the neighbourhood.
    pub closed spec fn size(&self) -> u32 {
        self.size
    }

    /// The shape of the neighbourhood.
    pub closed spec fn kind(&self) -> ProximityType {
        self._type
    }

    /// The pixels that `get_pixels(x, y, width, height)` returns, in order.
    pub open spec fn neighbourhood(&self, x: u32, y: u32, width: u32, height: u32) -> Seq<
        (u32, u32),
    > {
        let s = self.size() as int;
        grid_pixels(
            self.kind(),
            s,
            x as int,
            y as int,
            window_start(x as int, s),
            window_end(x as int, s, width as int),
            window_start(y as int, s),
            window_end(y as int, s, height as int),
        )
    }

    /// A neighbourhood of radius `size` and shape `proximity_type`.
    pub fn new(size: u32, proximity_type: ProximityType) -> (p: Self)
        ensures
            p.size() == size,
            p.kind() == proximity_type,
    {
        Self { size, _type: proximity_type }
    }

    /// The pixels around `(x, y)` in an image of `width` by `height`
    /// pixels that belong to this neighbourhood, column by column.
    ///
    /// The window spans from `radius` pixels before the centre (clipped at
    /// zero) up to, but not including, `radius` pixels after it (clipped at
    /// the last row or column).
    pub fn get_pixels(&self, x: u32, y: u32, width: u32, height: u32) -> (pixels: Vec<(u32, u32)>)
        requires
            x < width,
            y < height,
        ensures
            pixels@ == self.neighbourhood(x, y, width, height),
            forall|a: u32, b: u32|
                #[trigger] pixels@.contains((a, b)) <==> ((if x < self.size() { 0 } else { x - self.size() }) <= a
                    < (if width - x - 1 < self.size() { width - 1 } else { x + self.size() })
                    && (if y < self.size() { 0 } else { y - self.size() }) <= b
                    < (if height - y - 1 < self.size() { height - 1 } else { y + self.size() })
                    && (self.kind() is Square || (if x < a { a - x } else { x - a }) + (if y < b { b - y } else { y - b }) < self.size())),
            pixels@.no_duplicates(),
            forall|k: int, l: int|
                0 <= k < l < pixels@.len() ==> (#[trigger] pixels@[k]).0 < (#[trigger] pixels@[l]).0 || (
                pixels@[k].0 == pixels@[l].0 && pixels@[k].1 < pixels@[l].1),
            self.kind() is Square ==> pixels@.len() == ((if width - x - 1 < self.size() { width - 1 } else { x + self.size() })
                - (if x < self.size() { 0 } else { x - self.size() })) * ((if height - y - 1 < self.size() { height - 1 } else { y + self.size() })
                - (if y < self.size() { 0 } else { y - self.size() })),
            self.kind() is Square ==> forall|k: int|
                0 <= k < pixels@.len() ==> #[trigger] pixels@[k] == ((
                (if x < self.size() { 0 } else { x - self.size() }) + k / ((if height - y - 1
                    < self.size() { height - 1 } else { y + self.size() }) - (if y < self.size() { 0 } else { y - self.size() })))
                    as u32, ((if y < self.size() { 0 } else { y - self.size() }) + k % ((if height - y
                    - 1 < self.size() { height - 1 } else { y + self.size() }) - (if y < self.size() { 0 } else { y - self.size() })))
                    as u32),
    {
        let left = x - if x < self.size {
            x
        } else {
            self.size
        };
        let up = y - if y < self.size {
            y
        } else {
            self.size
        };
        let right = x + if width - x - 1 < self.size {
            width - x - 1
        } else {
            self.size
        };
        let down = y + if height - y - 1 < self.size {
            height - y - 1
        } else {
            self.size
        };

        let ghost kind = self.kind();
        let ghost s = self.size() as int;
        let mut pixels: Vec<(u32, u32)> = Vec::new();

        let mut i = left;
        while i < right
            invariant
                left <= i <= right,
                right < width,
                up <= down,
                kind == self.kind(),
                s == self.size(),
                pixels@ == grid_pixels(kind, s, x as int, y as int, left as int, i as int, up as int, down as int),
            decreases right - i,
        {
            let mut j = up;
            while j < down
                invariant
                    left <= i < right,
                    up <= j <= down,
                    kind == self.kind(),
                    s == self.size(),
                    pixels@ == grid_pixels(kind, s, x as int, y as int, left as int, i as int, up as int, down as int)
                        + column_pixels(kind, s, x as int, y as int, i as int, up as int, j as int),
                decreases down - j,
            {
                let ghost before = pixels@;
                match self._type {
                    ProximityType::Square => {
                        pixels.push((i, j));
                    },
                    ProximityType::Edges => {
                        let dx: u64 = if x < i {
                            (i - x) as u64
                        } else {
                            (x - i) as u64
                        };
                        let dy: u64 = if y < j {
                            (j - y) as u64
                        } else {
                            (y - j) as u64
                        };
                        if dx + dy < self.size as u64 {
                            pixels.push((i, j));
                        }
                    },
                }
                assert(pixels@ == grid_pixels(kind, s, x as int, y as int, left as int, i as int, up as int, down as int)
                        + column_pixels(kind, s, x as int, y as int, i as int, up as int, j + 1));
                j = j + 1;
            }
            assert(pixels@ == grid_pixels(kind, s, x as int, y as int, left as int, i + 1, up as int, down as int));
            i = i + 1;
        }
        proof {
            lemma_pixels_exactly(self, x, y, width, height);
            lemma_neighbourhood_sorted(self, x, y, width, height);
            if self.kind() is Square {
                lemma_square_neighbourhood(self, x, y, width, height);
            }
        }
        pixels
    }
}

} // verus!
