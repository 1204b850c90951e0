//! Memory layout of 8-bit RGB images: rows of pixels packed into the
//! row-major byte buffer that an image file is written from.

use vstd::prelude::*;

verus! {

/// The bytes of the first `w` pixels of a row, pixel after pixel.
pub open spec fn row_bytes(row: Seq<[u8; 3]>, w: int) -> Seq<u8>
    decreases w,
{
    if w <= 0 {
        Seq::empty()
    } else {
        row_bytes(row, w - 1) + row[w - 1]@
    }
}

/// The bytes of the first `h` rows, each cut to its first `w` pixels, row
/// after row.
pub open spec fn image_bytes(rows: Seq<Vec<[u8; 3]>>, w: int, h: int) -> Seq<u8>
    decreases h,
{
    if h <= 0 {
        Seq::empty()
    } else {
        image_bytes(rows, w, h - 1) + row_bytes(rows[h - 1]@, w)
    }
}

/// Rows of pixels that make an image: at least one row, every row at least
/// as long as the first, and both extents within `u32`.
pub open spec fn is_image(rows: Seq<Vec<[u8; 3]>>) -> bool {
    &&& rows.len() > 0
    &&& rows.len() <= u32::MAX
    &&& rows[0].len() <= u32::MAX
    &&& forall|y: int| 0 <= y < rows.len() ==> #[trigger] rows[y].len() >= rows[0].len()
}

/// Packs rows of pixels into an image buffer: the width is the length of the
/// first row, the height the number of rows, and pixel `(x, y)` is
/// `rows[y][x]`; pixels of a row beyond the width are left out.
pub fn pack_rows(rows: &Vec<Vec<[u8; 3]>>) -> (img: (u32, u32, Vec<u8>))
    requires
        is_image(rows@),
        3 * rows@[0].len() * rows@.len() <= usize::MAX,
    ensures
        img.0 == rows@[0].len(),
        img.1 == rows@.len(),
        img.2@ == image_bytes(rows@, img.0 as int, img.1 as int),
        img.2.len() == 3 * img.0 * img.1,
        forall|x: int, y: int, c: int|
            0 <= x < img.0 && 0 <= y < img.1 && 0 <= c < 3 ==> #[trigger] img.2@[3 * (y * img.0 + x) + c]
                == rows@[y]@[x][c],
{
    let width = rows[0].len();
    let height = rows.len();
    let mut buf: Vec<u8> = Vec::new();
    let mut y: usize = 0;
    while y < height
        invariant
            height == rows@.len(),
            width == rows@[0].len(),
            is_image(rows@),
            0 <= y <= height,
            buf@ == image_bytes(rows@, width as int, y as int),
        decreases height - y,
    {
        let row = &rows[y];
        let mut x: usize = 0;
        while x < width
            invariant
                height == rows@.len(),
                width == rows@[0].len(),
                y < height,
                row == rows@[y as int],
                width <= row.len(),
                0 <= x <= width,
                buf@ == image_bytes(rows@, width as int, y as int) + row_bytes(row@, x as int),
            decreases width - x,
        {
            let p = row[x];
            buf.push(p[0]);
            buf.push(p[1]);
            buf.push(p[2]);
            assert(p@ =~= seq![p[0], p[1], p[2]]);
            assert(buf@ =~= image_bytes(rows@, width as int, y as int) + row_bytes(row@, x + 1));
            x = x + 1;
        }
        assert(buf@ =~= image_bytes(rows@, width as int, y + 1));
        y = y + 1;
    }
    proof {
        lemma_image_layout(rows@, width as int, height as int);
    }
    (width as u32, height as u32, buf)
}

/// The bytes of `w` pixels of a row: three per pixel, pixel `x` at offset
/// `3 * x`.
proof fn lemma_row_bytes(row: Seq<[u8; 3]>, w: int)
    requires
        0 <= w <= row.len(),
    ensures
        row_bytes(row, w).len() == 3 * w,
        forall|x: int, c: int|
            0 <= x < w && 0 <= c < 3 ==> #[trigger] row_bytes(row, w)[3 * x + c] == row[x][c],
    decreases w,
{
    if w > 0 {
        lemma_row_bytes(row, w - 1);
        let prev = row_bytes(row, w - 1);
        let s = row_bytes(row, w);
        assert(s == prev + row[w - 1]@);
        assert forall|x: int, c: int| 0 <= x < w && 0 <= c < 3 implies #[trigger] s[3 * x + c]
            == row[x][c] by {
            if x < w - 1 {
                assert(s[3 * x + c] == prev[3 * x + c]);
            } else {
                assert(s[3 * x + c] == row[w - 1]@[c]);
            }
        }
    }
}

/// A packed image has three bytes per pixel, and pixel `(x, y)` starts at
/// offset `3 * (y * w + x)`.
pub proof fn lemma_image_layout(rows: Seq<Vec<[u8; 3]>>, w: int, h: int)
    requires
        0 <= w,
        0 <= h <= rows.len(),
        forall|y: int| 0 <= y < h ==> #[trigger] rows[y].len() >= w,
    ensures
        image_bytes(rows, w, h).len() == 3 * w * h,
        forall|x: int, y: int, c: int|
            0 <= x < w && 0 <= y < h && 0 <= c < 3 ==> #[trigger] image_bytes(rows, w, h)[3 * (y
                * w + x) + c] == rows[y]@[x][c],
    decreases h,
{
    if h > 0 {
        lemma_image_layout(rows, w, h - 1);
        assert(rows[h - 1].len() >= w);
        lemma_row_bytes(rows[h - 1]@, w);
        let prev = image_bytes(rows, w, h - 1);
        let r = row_bytes(rows[h - 1]@, w);
        let s = image_bytes(rows, w, h);
        assert(s == prev + r);
        assert(3 * w * h == 3 * w * (h - 1) + 3 * w) by (nonlinear_arith);
        assert forall|x: int, y: int, c: int|
            0 <= x < w && 0 <= y < h && 0 <= c < 3 implies #[trigger] s[3 * (y * w + x) + c]
            == rows[y]@[x][c] by {
            assert(3 * (y * w + x) + c == 3 * w * y + (3 * x + c)) by (nonlinear_arith);
            if y < h - 1 {
                assert(3 * w * y + (3 * x + c) < 3 * w * (h - 1)) by (nonlinear_arith)
                    requires
                        0 <= x < w,
                        0 <= c < 3,
                        0 <= y < h - 1,
                ;
                assert(s[3 * (y * w + x) + c] == prev[3 * (y * w + x) + c]);
            } else {
                assert(3 * w * y == 3 * w * (h - 1));
                assert(s[3 * (y * w + x) + c] == r[3 * x + c]);
            }
        }
    } else {
        assert(3 * w * h == 0) by (nonlinear_arith)
            requires
                h == 0,
        ;
    }
}

} // verus!
