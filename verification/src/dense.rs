//! Dense-matching helpers: the square search window of the patch matcher,
//! the census comparison of two patches, and the naming of the side outputs
//! written next to a surface model.

use vstd::prelude::*;
use crate::fast::GrayImage;
use crate::paths::{
    extension_of, file_stem_of, path_extension, path_file_stem, path_with_file_name,
    with_file_name_of,
};
use crate::text::{opt_str_chars, push_str_chars};

verus! {

/// Whether (`x`, `y`) lies strictly inside the `border`-wide frame of a
/// `width` x `height` image.
pub open spec fn inside_window(x: int, y: int, width: int, height: int, border: int) -> bool {
    border < x && border < y && x < width - border && y < height - border
}

/// The candidates of row `dy` of the search square around (`cx`, `cy`), for
/// the first `j` columns `dx = -radius, -radius + 1, ...`.
pub open spec fn row_candidates(
    cx: int,
    cy: int,
    radius: int,
    dy: int,
    width: int,
    height: int,
    border: int,
    j: int,
) -> Seq<(i32, i32)>
    decreases j,
{
    if j <= 0 {
        Seq::empty()
    } else {
        let prev = row_candidates(cx, cy, radius, dy, width, height, border, j - 1);
        let x = cx - radius + j - 1;
        let y = cy + dy;
        if inside_window(x, y, width, height, border) {
            prev.push((x as i32, y as i32))
        } else {
            prev
        }
    }
}

/// The candidates of the first `i` rows `dy = -radius, -radius + 1, ...` of
/// the search square, in raster order.
pub open spec fn grid_candidates(
    cx: int,
    cy: int,
    radius: int,
    width: int,
    height: int,
    border: int,
    i: int,
) -> Seq<(i32, i32)>
    decreases i,
{
    if i <= 0 {
        Seq::empty()
    } else {
        grid_candidates(cx, cy, radius, width, height, border, i - 1) + row_candidates(
            cx,
            cy,
            radius,
            -radius + i - 1,
            width,
            height,
            border,
            2 * radius + 1,
        )
    }
}

/// Every pixel of the square of half-size `radius` around (`cx`, `cy`) that
/// lies strictly inside the border frame, row by row.
pub open spec fn window_candidates(
    cx: int,
    cy: int,
    radius: int,
    width: int,
    height: int,
    border: int,
) -> Seq<(i32, i32)> {
    grid_candidates(cx, cy, radius, width, height, border, 2 * radius + 1)
}

/// Whether `p` lies within the square of half-size `radius` around
/// (`cx`, `cy`) and strictly inside the border frame.
pub open spec fn window_member(
    p: (i32, i32),
    cx: int,
    cy: int,
    radius: int,
    width: int,
    height: int,
    border: int,
) -> bool {
    &&& cx - radius <= p.0 <= cx + radius
    &&& cy - radius <= p.1 <= cy + radius
    &&& inside_window(p.0 as int, p.1 as int, width, height, border)
}

/// The sum of coordinates that the window visits fits `i32`.
pub open spec fn window_fits_i32(cx: int, cy: int, radius: int, width: int, height: int, border: int) -> bool {
    radius >= 0 ==> {
        &&& i32::MIN <= cx - radius
        &&& cx + radius <= i32::MAX
        &&& i32::MIN <= cy - radius
        &&& cy + radius <= i32::MAX
        &&& i32::MIN <= width - border <= i32::MAX
        &&& i32::MIN <= height - border <= i32::MAX
    }
}

proof fn lemma_row_candidates_members(
    cx: int,
    cy: int,
    radius: int,
    dy: int,
    width: int,
    height: int,
    border: int,
    j: int,
)
    requires
        -radius <= dy <= radius,
        j <= 2 * radius + 1,
        window_fits_i32(cx, cy, radius, width, height, border),
    ensures
        forall|k: int|
            0 <= k < row_candidates(cx, cy, radius, dy, width, height, border, j).len()
                ==> window_member(
                #[trigger] row_candidates(cx, cy, radius, dy, width, height, border, j)[k],
                cx,
                cy,
                radius,
                width,
                height,
                border,
            ),
    decreases j,
{
    if j > 0 {
        lemma_row_candidates_members(cx, cy, radius, dy, width, height, border, j - 1);
        let x = cx - radius + j - 1;
        let y = cy + dy;
        assert(i32::MIN <= x <= i32::MAX);
        assert(i32::MIN <= y <= i32::MAX);
        assert((x as i32) as int == x);
        assert((y as i32) as int == y);
        let prev = row_candidates(cx, cy, radius, dy, width, height, border, j - 1);
        let cur = row_candidates(cx, cy, radius, dy, width, height, border, j);
        assert forall|k: int| 0 <= k < cur.len() implies window_member(
            #[trigger] cur[k],
            cx,
            cy,
            radius,
            width,
            height,
            border,
        ) by {
            if k < prev.len() {
                assert(cur[k] == prev[k]);
            }
        }
    }
}

proof fn lemma_grid_candidates_members(
    cx: int,
    cy: int,
    radius: int,
    width: int,
    height: int,
    border: int,
    i: int,
)
    requires
        i <= 2 * radius + 1,
        window_fits_i32(cx, cy, radius, width, height, border),
    ensures
        forall|k: int|
            0 <= k < grid_candidates(cx, cy, radius, width, height, border, i).len()
                ==> window_member(
                #[trigger] grid_candidates(cx, cy, radius, width, height, border, i)[k],
                cx,
                cy,
                radius,
                width,
                height,
                border,
            ),
    decreases i,
{
    if i > 0 {
        lemma_grid_candidates_members(cx, cy, radius, width, height, border, i - 1);
        lemma_row_candidates_members(
            cx,
            cy,
            radius,
            -radius + i - 1,
            width,
            height,
            border,
            2 * radius + 1,
        );
        let a = grid_candidates(cx, cy, radius, width, height, border, i - 1);
        let b = row_candidates(cx, cy, radius, -radius + i - 1, width, height, border, 2 * radius + 1);
        assert forall|k: int| 0 <= k < (a + b).len() implies window_member(
            #[trigger] (a + b)[k],
            cx,
            cy,
            radius,
            width,
            height,
            border,
        ) by {
            if k >= a.len() {
                assert((a + b)[k] == b[k - a.len()]);
            }
        }
    }
}

/// Every search candidate lies within the search square and strictly inside
/// the border frame.
pub proof fn lemma_window_candidates_inside(
    cx: int,
    cy: int,
    radius: int,
    width: int,
    height: int,
    border: int,
)
    requires
        window_fits_i32(cx, cy, radius, width, height, border),
    ensures
        forall|k: int|
            0 <= k < window_candidates(cx, cy, radius, width, height, border).len()
                ==> window_member(
                #[trigger] window_candidates(cx, cy, radius, width, height, border)[k],
                cx,
                cy,
                radius,
                width,
                height,
                border,
            ),
{
    lemma_grid_candidates_members(cx, cy, radius, width, height, border, 2 * radius + 1);
}

/// The pixels of the square of half-size `radius` around (`center_x`,
/// `center_y`) that lie strictly inside the `border` frame of a `width` x
/// `height` image, in raster order.
pub fn square_window_candidates(
    center_x: i32,
    center_y: i32,
    radius: i32,
    width: i32,
    height: i32,
    border: i32,
) -> (r: Vec<(i32, i32)>)
    requires
        radius > i32::MIN,
        window_fits_i32(
            center_x as int,
            center_y as int,
            radius as int,
            width as int,
            height as int,
            border as int,
        ),
    ensures
        r@ == window_candidates(
            center_x as int,
            center_y as int,
            radius as int,
            width as int,
            height as int,
            border as int,
        ),
        forall|k: int|
            0 <= k < r@.len() ==> window_member(
                #[trigger] r@[k],
                center_x as int,
                center_y as int,
                radius as int,
                width as int,
                height as int,
                border as int,
            ),
{
    let ghost (cx, cy, rad, w, h, b) = (
        center_x as int,
        center_y as int,
        radius as int,
        width as int,
        height as int,
        border as int,
    );
    let mut candidates: Vec<(i32, i32)> = Vec::new();
    let r: i64 = radius as i64;
    let mut dy: i64 = -r;
    while dy <= r
        invariant
            r == rad,
            -r <= dy <= r + 1 || (r < 0 && dy == -r),
            r >= 0 ==> -r <= dy <= r + 1,
            window_fits_i32(cx, cy, rad, w, h, b),
            cx == center_x,
            cy == center_y,
            w == width,
            h == height,
            b == border,
            r >= 0 ==> candidates@ == grid_candidates(cx, cy, rad, w, h, b, dy + r),
            r < 0 ==> candidates@.len() == 0,
        decreases r + 1 - dy,
    {
        let mut dx: i64 = -r;
        while dx <= r
            invariant
                r == rad,
                0 <= r,
                -r <= dy <= r,
                -r <= dx <= r + 1,
                window_fits_i32(cx, cy, rad, w, h, b),
                cx == center_x,
                cy == center_y,
                w == width,
                h == height,
                b == border,
                candidates@ == grid_candidates(cx, cy, rad, w, h, b, dy + r) + row_candidates(
                    cx,
                    cy,
                    rad,
                    dy as int,
                    w,
                    h,
                    b,
                    dx + r,
                ),
            decreases r + 1 - dx,
        {
            let x: i32 = (center_x as i64 + dx) as i32;
            let y: i32 = (center_y as i64 + dy) as i32;
            if !(x <= border || y <= border || x >= width - border || y >= height - border) {
                candidates.push((x, y));
                assert(candidates@ == grid_candidates(cx, cy, rad, w, h, b, dy + r)
                    + row_candidates(cx, cy, rad, dy as int, w, h, b, dx + r + 1));
            }
            dx = dx + 1;
        }
        assert(dx + r == 2 * r + 1);
        dy = dy + 1;
    }
    proof {
        lemma_window_candidates_inside(cx, cy, rad, w, h, b);
    }
    candidates
}

/// Whether the census bits of two patches differ at offset (`dx`, `dy`); a
/// pixel's bit is set when it is at least as bright as its patch centre.
pub open spec fn census_differs(
    left: GrayImage,
    right: GrayImage,
    xl: int,
    yl: int,
    xr: int,
    yr: int,
    dx: int,
    dy: int,
) -> bool {
    (left.pixel(xl + dx, yl + dy) >= left.pixel(xl, yl)) != (right.pixel(xr + dx, yr + dy)
        >= right.pixel(xr, yr))
}

/// (differing bits, compared bits) over the first `j` columns of row `dy` of
/// the census window, the centre left out.
pub open spec fn census_row(
    left: GrayImage,
    right: GrayImage,
    xl: int,
    yl: int,
    xr: int,
    yr: int,
    radius: int,
    dy: int,
    j: int,
) -> (int, int)
    decreases j,
{
    if j <= 0 {
        (0, 0)
    } else {
        let p = census_row(left, right, xl, yl, xr, yr, radius, dy, j - 1);
        let dx = -radius + j - 1;
        if dx == 0 && dy == 0 {
            p
        } else {
            (p.0 + if census_differs(left, right, xl, yl, xr, yr, dx, dy) {
                1int
            } else {
                0int
            }, p.1 + 1)
        }
    }
}

/// (differing bits, compared bits) over the first `i` rows of the census
/// window.
pub open spec fn census_grid(
    left: GrayImage,
    right: GrayImage,
    xl: int,
    yl: int,
    xr: int,
    yr: int,
    radius: int,
    i: int,
) -> (int, int)
    decreases i,
{
    if i <= 0 {
        (0, 0)
    } else {
        let a = census_grid(left, right, xl, yl, xr, yr, radius, i - 1);
        let b = census_row(left, right, xl, yl, xr, yr, radius, -radius + i - 1, 2 * radius + 1);
        (a.0 + b.0, a.1 + b.1)
    }
}

/// (differing bits, compared bits) of the census transforms of the
/// `(2 radius + 1)`-square patches around (`xl`, `yl`) and (`xr`, `yr`).
pub open spec fn census_counts(
    left: GrayImage,
    right: GrayImage,
    xl: int,
    yl: int,
    xr: int,
    yr: int,
    radius: int,
) -> (int, int) {
    census_grid(left, right, xl, yl, xr, yr, radius, 2 * radius + 1)
}

proof fn lemma_census_row_bound(
    left: GrayImage,
    right: GrayImage,
    xl: int,
    yl: int,
    xr: int,
    yr: int,
    radius: int,
    dy: int,
    j: int,
)
    requires
        0 <= j,
    ensures
        0 <= census_row(left, right, xl, yl, xr, yr, radius, dy, j).0 <= census_row(
            left,
            right,
            xl,
            yl,
            xr,
            yr,
            radius,
            dy,
            j,
        ).1 <= j,
    decreases j,
{
    if j > 0 {
        lemma_census_row_bound(left, right, xl, yl, xr, yr, radius, dy, j - 1);
    }
}

proof fn lemma_census_grid_bound(
    left: GrayImage,
    right: GrayImage,
    xl: int,
    yl: int,
    xr: int,
    yr: int,
    radius: int,
    i: int,
)
    requires
        0 <= i,
        0 <= radius,
    ensures
        0 <= census_grid(left, right, xl, yl, xr, yr, radius, i).0 <= census_grid(
            left,
            right,
            xl,
            yl,
            xr,
            yr,
            radius,
            i,
        ).1 <= i * (2 * radius + 1),
    decreases i,
{
    if i > 0 {
        lemma_census_grid_bound(left, right, xl, yl, xr, yr, radius, i - 1);
        lemma_census_row_bound(left, right, xl, yl, xr, yr, radius, -radius + i - 1, 2 * radius + 1);
        assert((i - 1) * (2 * radius + 1) + (2 * radius + 1) == i * (2 * radius + 1))
            by (nonlinear_arith);
    }
}

/// The square of half-size `radius` around (`xb`, `yb`) in `b` is the one
/// around (`xa`, `ya`) in `a` with `c` added to every pixel.
pub open spec fn patch_offset_by(
    a: GrayImage,
    xa: int,
    ya: int,
    b: GrayImage,
    xb: int,
    yb: int,
    radius: int,
    c: int,
) -> bool {
    forall|dx: int, dy: int|
        -radius <= dx <= radius && -radius <= dy <= radius ==> #[trigger] b.pixel(xb + dx, yb + dy)
            == a.pixel(xa + dx, ya + dy) + c
}

proof fn lemma_census_row_shift(
    l: GrayImage, r: GrayImage, xl: int, yl: int, xr: int, yr: int,
    l2: GrayImage, r2: GrayImage, xl2: int, yl2: int, xr2: int, yr2: int,
    radius: int, dy: int, j: int,
)
    requires
        -radius <= dy <= radius,
        j <= 2 * radius + 1,
        forall|dx: int| -radius <= dx <= radius ==> census_differs(l, r, xl, yl, xr, yr, dx, dy)
            == #[trigger] census_differs(l2, r2, xl2, yl2, xr2, yr2, dx, dy),
    ensures
        census_row(l, r, xl, yl, xr, yr, radius, dy, j) == census_row(l2, r2, xl2, yl2, xr2, yr2, radius, dy, j),
    decreases j,
{
    if j > 0 {
        lemma_census_row_shift(l, r, xl, yl, xr, yr, l2, r2, xl2, yl2, xr2, yr2, radius, dy, j - 1);
        let dx = -radius + j - 1;
        assert(census_differs(l2, r2, xl2, yl2, xr2, yr2, dx, dy) == census_differs(l, r, xl, yl, xr, yr, dx, dy));
    }
}

proof fn lemma_census_grid_shift(
    l: GrayImage, r: GrayImage, xl: int, yl: int, xr: int, yr: int,
    l2: GrayImage, r2: GrayImage, xl2: int, yl2: int, xr2: int, yr2: int,
    radius: int, i: int,
)
    requires
        i <= 2 * radius + 1,
        forall|dx: int, dy: int| -radius <= dx <= radius && -radius <= dy <= radius
            ==> census_differs(l, r, xl, yl, xr, yr, dx, dy)
            == #[trigger] census_differs(l2, r2, xl2, yl2, xr2, yr2, dx, dy),
    ensures
        census_grid(l, r, xl, yl, xr, yr, radius, i) == census_grid(l2, r2, xl2, yl2, xr2, yr2, radius, i),
    decreases i,
{
    if i > 0 {
        lemma_census_grid_shift(l, r, xl, yl, xr, yr, l2, r2, xl2, yl2, xr2, yr2, radius, i - 1);
        lemma_census_row_shift(l, r, xl, yl, xr, yr, l2, r2, xl2, yl2, xr2, yr2, radius, -radius + i - 1,
            2 * radius + 1);
    }
}

/// Law of the census comparison: each bit compares a pixel with its own
/// patch centre, so adding a constant to every pixel of either patch (and a
/// possibly different constant to the other) changes neither count.
pub proof fn lemma_census_brightness_invariant(
    left: GrayImage, right: GrayImage, xl: int, yl: int, xr: int, yr: int,
    left2: GrayImage, right2: GrayImage, xl2: int, yl2: int, xr2: int, yr2: int,
    radius: int, cl: int, cr: int,
)
    requires
        patch_offset_by(left, xl, yl, left2, xl2, yl2, radius, cl),
        patch_offset_by(right, xr, yr, right2, xr2, yr2, radius, cr),
    ensures
        census_counts(left2, right2, xl2, yl2, xr2, yr2, radius) == census_counts(left, right, xl, yl, xr, yr, radius),
{
    assert forall|dx: int, dy: int| -radius <= dx <= radius && -radius <= dy <= radius
        implies census_differs(left, right, xl, yl, xr, yr, dx, dy)
            == #[trigger] census_differs(left2, right2, xl2, yl2, xr2, yr2, dx, dy) by {
        assert(left2.pixel(xl2 + dx, yl2 + dy) == left.pixel(xl + dx, yl + dy) + cl);
        assert(left2.pixel(xl2 + 0, yl2 + 0) == left.pixel(xl + 0, yl + 0) + cl);
        assert(right2.pixel(xr2 + dx, yr2 + dy) == right.pixel(xr + dx, yr + dy) + cr);
        assert(right2.pixel(xr2 + 0, yr2 + 0) == right.pixel(xr + 0, yr + 0) + cr);
    }
    lemma_census_grid_shift(left, right, xl, yl, xr, yr, left2, right2, xl2, yl2, xr2, yr2, radius,
        2 * radius + 1);
}

proof fn lemma_census_row_same(
    l: GrayImage, r: GrayImage, xl: int, yl: int, xr: int, yr: int, radius: int, dy: int, j: int,
)
    requires
        0 <= radius,
        -radius <= dy <= radius,
        0 <= j <= 2 * radius + 1,
        forall|dx: int| -radius <= dx <= radius ==> !#[trigger] census_differs(l, r, xl, yl, xr, yr, dx, dy),
    ensures
        census_row(l, r, xl, yl, xr, yr, radius, dy, j).0 == 0,
        census_row(l, r, xl, yl, xr, yr, radius, dy, j).1 == (if dy == 0 && j > radius { j - 1 } else { j }),
    decreases j,
{
    if j > 0 {
        lemma_census_row_same(l, r, xl, yl, xr, yr, radius, dy, j - 1);
        let dx = -radius + j - 1;
        assert(!census_differs(l, r, xl, yl, xr, yr, dx, dy));
    }
}

proof fn lemma_census_grid_same(
    l: GrayImage, r: GrayImage, xl: int, yl: int, xr: int, yr: int, radius: int, i: int,
)
    requires
        0 <= radius,
        0 <= i <= 2 * radius + 1,
        forall|dx: int, dy: int| -radius <= dx <= radius && -radius <= dy <= radius
            ==> !#[trigger] census_differs(l, r, xl, yl, xr, yr, dx, dy),
    ensures
        census_grid(l, r, xl, yl, xr, yr, radius, i).0 == 0,
        census_grid(l, r, xl, yl, xr, yr, radius, i).1 == i * (2 * radius + 1) - (if i > radius { 1int } else { 0int }),
    decreases i,
{
    if i > 0 {
        lemma_census_grid_same(l, r, xl, yl, xr, yr, radius, i - 1);
        let dy = -radius + i - 1;
        assert forall|dx: int| -radius <= dx <= radius implies !#[trigger] census_differs(l, r, xl, yl, xr, yr, dx, dy) by {
            assert(!census_differs(l, r, xl, yl, xr, yr, dx, dy));
        }
        lemma_census_row_same(l, r, xl, yl, xr, yr, radius, dy, 2 * radius + 1);
        assert((i - 1) * (2 * radius + 1) + (2 * radius + 1) == i * (2 * radius + 1)) by (nonlinear_arith);
    }
}

/// Law of the census comparison: two patches of the same shape (one is the
/// other with a constant added to every pixel) differ in no census bit, and
/// every pixel of the window but the centre is compared.
pub proof fn lemma_census_same_shape(
    left: GrayImage, right: GrayImage, xl: int, yl: int, xr: int, yr: int, radius: int, c: int,
)
    requires
        0 <= radius,
        patch_offset_by(left, xl, yl, right, xr, yr, radius, c),
    ensures
        census_counts(left, right, xl, yl, xr, yr, radius).0 == 0,
        census_counts(left, right, xl, yl, xr, yr, radius).1 == (2 * radius + 1) * (2 * radius + 1) - 1,
{
    assert forall|dx: int, dy: int| -radius <= dx <= radius && -radius <= dy <= radius
        implies !#[trigger] census_differs(left, right, xl, yl, xr, yr, dx, dy) by {
        assert(right.pixel(xr + dx, yr + dy) == left.pixel(xl + dx, yl + dy) + c);
        assert(right.pixel(xr + 0, yr + 0) == left.pixel(xl + 0, yl + 0) + c);
    }
    lemma_census_grid_same(left, right, xl, yl, xr, yr, radius, 2 * radius + 1);
    assert((2 * radius + 1) * (2 * radius + 1) == (2 * radius + 1) * (2 * radius + 1));
}

/// Whether every pixel of the square of half-size `radius` around (`x`, `y`)
/// lies inside `img`, the centre included.
pub open spec fn patch_in_image(img: GrayImage, x: int, y: int, radius: int) -> bool {
    &&& 0 <= x < img.width
    &&& 0 <= y < img.height
    &&& radius >= 0 ==> (0 <= x - radius && x + radius < img.width && 0 <= y - radius && y
        + radius < img.height)
}

/// Counts the census bits that differ between the patches around (`xl`,
/// `yl`) in `left` and (`xr`, `yr`) in `right`, and the bits compared; the
/// matching cost is their ratio.
pub fn census_mismatch_counts(
    left: &GrayImage,
    right: &GrayImage,
    xl: i32,
    yl: i32,
    xr: i32,
    yr: i32,
    radius: i32,
) -> (r: (u64, u64))
    requires
        left.wf(),
        right.wf(),
        patch_in_image(*left, xl as int, yl as int, radius as int),
        patch_in_image(*right, xr as int, yr as int, radius as int),
    ensures
        (r.0 as int, r.1 as int) == census_counts(
            *left,
            *right,
            xl as int,
            yl as int,
            xr as int,
            yr as int,
            radius as int,
        ),
        r.0 <= r.1,
{
    let ghost (l, rt, xli, yli, xri, yri, rad) = (
        *left,
        *right,
        xl as int,
        yl as int,
        xr as int,
        yr as int,
        radius as int,
    );
    let center_l = left.get_pixel(xl as u32, yl as u32);
    let center_r = right.get_pixel(xr as u32, yr as u32);
    let mut hamming: u64 = 0;
    let mut total: u64 = 0;
    if radius < 0 {
        return (0, 0);
    }
    let r: i64 = radius as i64;
    assert(2 * rad + 1 <= left.width);
    let mut dy: i64 = -r;
    while dy <= r
        invariant
            r == rad,
            0 <= r,
            -r <= dy <= r + 1,
            2 * r + 1 < 0x4000_0000,
            l == *left,
            rt == *right,
            left.wf(),
            right.wf(),
            xli == xl,
            yli == yl,
            xri == xr,
            yri == yr,
            patch_in_image(l, xli, yli, rad),
            patch_in_image(rt, xri, yri, rad),
            center_l == l.pixel(xli, yli),
            center_r == rt.pixel(xri, yri),
            (hamming as int, total as int) == census_grid(l, rt, xli, yli, xri, yri, rad, dy + r),
        decreases r + 1 - dy,
    {
        let ghost before = census_grid(l, rt, xli, yli, xri, yri, rad, dy + r);
        proof {
            lemma_census_grid_bound(l, rt, xli, yli, xri, yri, rad, dy + r);
            assert((dy + r) * (2 * r + 1) + (2 * r + 1) <= (2 * r + 1) * (2 * r + 1))
                by (nonlinear_arith)
                requires
                    0 <= dy + r < 2 * r + 1,
            ;
            assert((2 * r + 1) * (2 * r + 1) <= 0x4000_0000 * 0x4000_0000) by (nonlinear_arith)
                requires
                    0 < 2 * r + 1 < 0x4000_0000,
            ;
        }
        let mut dx: i64 = -r;
        while dx <= r
            invariant
                r == rad,
                0 <= r,
                -r <= dy <= r,
                -r <= dx <= r + 1,
                l == *left,
                rt == *right,
                left.wf(),
                right.wf(),
                xli == xl,
                yli == yl,
                xri == xr,
                yri == yr,
                patch_in_image(l, xli, yli, rad),
                patch_in_image(rt, xri, yri, rad),
                center_l == l.pixel(xli, yli),
                center_r == rt.pixel(xri, yri),
                before == census_grid(l, rt, xli, yli, xri, yri, rad, dy + r),
                0 <= before.0 <= before.1,
                before.1 + (2 * r + 1) <= 0x4000_0000 * 0x4000_0000,
                ({
                    let row = census_row(l, rt, xli, yli, xri, yri, rad, dy as int, dx + r);
                    hamming == before.0 + row.0 && total == before.1 + row.1
                }),
            decreases r + 1 - dx,
        {
            proof {
                lemma_census_row_bound(l, rt, xli, yli, xri, yri, rad, dy as int, dx + r);
            }
            if !(dx == 0 && dy == 0) {
                let lv = left.get_pixel((xl as i64 + dx) as u32, (yl as i64 + dy) as u32);
                let rv = right.get_pixel((xr as i64 + dx) as u32, (yr as i64 + dy) as u32);
                let bit_l = lv >= center_l;
                let bit_r = rv >= center_r;
                if bit_l != bit_r {
                    hamming = hamming + 1;
                }
                total = total + 1;
            }
            dx = dx + 1;
        }
        proof {
            lemma_census_row_bound(l, rt, xli, yli, xri, yri, rad, dy as int, 2 * r + 1);
        }
        dy = dy + 1;
    }
    proof {
        lemma_census_grid_bound(l, rt, xli, yli, xri, yri, rad, 2 * rad + 1);
    }
    (hamming, total)
}

/// The file name `stem` + `suffix` + `.` + `ext`, with `output` standing in
/// for a missing stem and `tif` for a missing extension.
pub open spec fn suffixed_name(stem: Option<Seq<char>>, ext: Option<Seq<char>>, suffix: Seq<char>) -> Seq<
    char,
> {
    let s = match stem {
        Some(t) => t,
        None => "output"@,
    };
    let e = match ext {
        Some(t) => t,
        None => "tif"@,
    };
    s + suffix + "."@ + e
}

/// Builds the file name of a side output from the stem and extension of the
/// main output's path.
pub fn suffixed_file_name(stem: Option<&str>, ext: Option<&str>, suffix: &str) -> (r: String)
    ensures
        r@ == suffixed_name(opt_str_chars(stem), opt_str_chars(ext), suffix@),
{
    let mut r = String::new();
    match stem {
        Some(t) => push_str_chars(&mut r, t),
        None => push_str_chars(&mut r, "output"),
    }
    push_str_chars(&mut r, suffix);
    push_str_chars(&mut r, ".");
    match ext {
        Some(t) => push_str_chars(&mut r, t),
        None => push_str_chars(&mut r, "tif"),
    }
    r
}

/// The path of a side output written next to `path`: the same directory,
/// with `suffix` inserted between the file stem and the extension.
pub fn with_suffix_before_ext(path: &str, suffix: &str) -> (r: String)
    ensures
        r@ == path_with_file_name(
            path@,
            suffixed_name(path_file_stem(path@), path_extension(path@), suffix@),
        ),
{
    let stem = file_stem_of(path);
    let ext = extension_of(path);
    let stem_str: Option<&str> = match &stem {
        Some(s) => Some(s.as_str()),
        None => None,
    };
    let ext_str: Option<&str> = match &ext {
        Some(s) => Some(s.as_str()),
        None => None,
    };
    let name = suffixed_file_name(stem_str, ext_str, suffix);
    with_file_name_of(path, name.as_str())
}

} // verus!
