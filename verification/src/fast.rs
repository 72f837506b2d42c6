//! FAST-style corner detection on 8-bit grayscale images.

use vstd::prelude::*;

verus! {

/// Pixels kept free of detections at every image border.
pub const FAST_EDGE_RADIUS_PX: u32 = 17;
/// Radius of the non-maximum suppression window.
pub const NON_MAX_SUPPRESSION_RADIUS_PX: i32 = 1;
/// Minimum spacing between accepted corners (compared squared).
pub const MIN_CORNER_SPACING_PX: i32 = 5;
/// Number of contiguous circle pixels that must all be brighter or darker.
pub const FAST_ARC_LENGTH: usize = 9;
/// Largest score a FAST corner can have: sixteen differences of at most 255.
pub const FAST_MAX_SCORE: u32 = 4080;

/// An 8-bit single-channel image stored row-major.
#[derive(Debug, Clone)]
pub struct GrayImage {
    pub width: u32,
    pub height: u32,
    pub pixels: Vec<u8>,
}

/// A detected corner with its FAST score.
#[derive(Debug, Clone, Copy, PartialEq, Eq, Structural)]
pub struct Keypoint {
    pub x: u32,
    pub y: u32,
    pub score: u32,
}

impl GrayImage {
    /// The buffer holds one byte per pixel, and coordinates and linear
    /// indices fit the integer types used to address pixels.
    pub open spec fn wf(&self) -> bool {
        &&& self.pixels@.len() == (self.width as int) * (self.height as int)
        &&& (self.width as int) * (self.height as int) <= u32::MAX
        &&& self.width < 0x4000_0000
        &&& self.height < 0x4000_0000
    }

    /// Intensity at column `x`, row `y`.
    pub open spec fn pixel(&self, x: int, y: int) -> int {
        self.pixels@[y * self.width + x] as int
    }

    /// A `width` x `height` image with every pixel set to `value`.
    pub fn from_pixel(width: u32, height: u32, value: u8) -> (r: Option<GrayImage>)
        ensures
            r is Some <==> ((width as int) * (height as int) <= u32::MAX && width < 0x4000_0000
                && height < 0x4000_0000),
            r matches Some(img) ==> img.wf() && img.width == width && img.height == height
                && forall|i: int| 0 <= i < img.pixels@.len() ==> img.pixels@[i] == value,
    {
        if width >= 0x4000_0000 || height >= 0x4000_0000 {
            return None;
        }
        assert((width as int) * (height as int) <= 0x4000_0000 * 0x4000_0000) by (nonlinear_arith)
            requires width <= 0x4000_0000, height <= 0x4000_0000;
        let total: u64 = (width as u64) * (height as u64);
        if total > 0xffff_ffff {
            return None;
        }
        let n = total as usize;
        let mut pixels: Vec<u8> = Vec::new();
        let mut i: usize = 0;
        while i < n
            invariant
                i <= n,
                pixels@.len() == i,
                forall|j: int| 0 <= j < i ==> pixels@[j] == value,
            decreases n - i,
        {
            pixels.push(value);
            i = i + 1;
        }
        Some(GrayImage { width, height, pixels })
    }

    /// Intensity at (`x`, `y`).
    pub fn get_pixel(&self, x: u32, y: u32) -> (v: u8)
        requires
            self.wf(),
            x < self.width,
            y < self.height,
        ensures
            v == self.pixel(x as int, y as int),
    {
        proof { lemma_index_in_bounds(x as int, y as int, self.width as int, self.height as int); }
        self.pixels[(y * self.width + x) as usize]
    }

    /// Sets the intensity at (`x`, `y`).
    pub fn put_pixel(&mut self, x: u32, y: u32, value: u8)
        requires
            old(self).wf(),
            x < old(self).width,
            y < old(self).height,
        ensures
            final(self).wf(),
            final(self).width == old(self).width,
            final(self).height == old(self).height,
            final(self).pixels@ == old(self).pixels@.update(y * old(self).width + x, value),
    {
        proof { lemma_index_in_bounds(x as int, y as int, self.width as int, self.height as int); }
        let idx = (y * self.width + x) as usize;
        self.pixels.set(idx, value);
    }
}

/// A pixel inside a `w` x `h` grid has a row-major index inside the grid.
pub proof fn lemma_index_in_bounds(x: int, y: int, w: int, h: int)
    requires
        0 <= x < w,
        0 <= y < h,
    ensures
        0 <= y * w + x < w * h,
{
    assert(0 <= y * w) by (nonlinear_arith)
        requires 0 <= y, 0 <= w;
    assert(y * w + x < w * h) by (nonlinear_arith)
        requires 0 <= x < w, 0 <= y < h;
}

/// Offset of the `i`-th pixel on the radius-3 Bresenham circle.
pub open spec fn circle_offset(i: int) -> (int, int) {
    if i == 0 { (0, -3) }
    else if i == 1 { (1, -3) }
    else if i == 2 { (2, -2) }
    else if i == 3 { (3, -1) }
    else if i == 4 { (3, 0) }
    else if i == 5 { (3, 1) }
    else if i == 6 { (2, 2) }
    else if i == 7 { (1, 3) }
    else if i == 8 { (0, 3) }
    else if i == 9 { (-1, 3) }
    else if i == 10 { (-2, 2) }
    else if i == 11 { (-3, 1) }
    else if i == 12 { (-3, 0) }
    else if i == 13 { (-3, -1) }
    else if i == 14 { (-2, -2) }
    else { (-1, -3) }
}

/// Executable form of [`circle_offset`].
pub fn fast_circle_offset(i: usize) -> (r: (i32, i32))
    requires
        i < 16,
    ensures
        r.0 as int == circle_offset(i as int).0,
        r.1 as int == circle_offset(i as int).1,
{
    if i == 0 { (0, -3) }
    else if i == 1 { (1, -3) }
    else if i == 2 { (2, -2) }
    else if i == 3 { (3, -1) }
    else if i == 4 { (3, 0) }
    else if i == 5 { (3, 1) }
    else if i == 6 { (2, 2) }
    else if i == 7 { (1, 3) }
    else if i == 8 { (0, 3) }
    else if i == 9 { (-1, 3) }
    else if i == 10 { (-2, 2) }
    else if i == 11 { (-3, 1) }
    else if i == 12 { (-3, 0) }
    else if i == 13 { (-3, -1) }
    else if i == 14 { (-2, -2) }
    else { (-1, -3) }
}

/// Circular run: some window of `len` consecutive flags, read around the
/// circle twice, ends at a set flag and holds only set flags.
pub open spec fn has_run(flags: Seq<bool>, len: int) -> bool {
    exists|e: int|
        #![trigger flags[e % flags.len() as int]]
        0 <= e < 2 * flags.len() && len <= e + 1 && flags[e % flags.len() as int]
            && forall|j: int| e + 1 - len <= j <= e ==> #[trigger] flags[j % flags.len() as int]
}

/// Whether `flags`, read cyclically, holds `required_len` consecutive `true` values.
pub fn has_contiguous_run(flags: &[bool], required_len: usize) -> (r: bool)
    requires
        flags@.len() * 2 <= usize::MAX,
    ensures
        r == has_run(flags@, required_len as int),
{
    let n = flags.len();
    let mut run: usize = 0;
    let mut idx: usize = 0;
    while idx < n * 2
        invariant
            n == flags@.len(),
            n * 2 <= usize::MAX,
            idx <= n * 2,
            run <= idx,
            n > 0 ==> forall|j: int| idx - run <= j < idx ==> #[trigger] flags@[j % n as int],
            n > 0 && run < idx ==> !flags@[(idx - run - 1) % n as int],
            forall|e: int|
                0 <= e < idx && required_len <= e + 1 && #[trigger] flags@[e % n as int]
                    ==> !(forall|j: int| e + 1 - required_len <= j <= e ==> #[trigger] flags@[j % n as int]),
        decreases n * 2 - idx,
    {
        if flags[idx % n] {
            run = run + 1;
            if run >= required_len {
                assert(forall|j: int| idx + 1 - required_len <= j <= idx ==> #[trigger] flags@[j % n as int]);
                return true;
            }
        } else {
            run = 0;
        }
        assert forall|e: int|
            0 <= e < idx + 1 && required_len <= e + 1 && #[trigger] flags@[e % n as int]
                implies !(forall|j: int| e + 1 - required_len <= j <= e ==> #[trigger] flags@[j % n as int]) by {
            if e == idx {
                if flags@[(idx as int) % (n as int)] {
                    // run counted every set flag back to the first unset one
                    let k = idx - run;
                    assert(!flags@[k % n as int]);
                    assert(e + 1 - required_len <= k <= e);
                }
            }
        }
        idx = idx + 1;
    }
    false
}


/// Difference between the `i`-th circle pixel around (`x`, `y`) and the centre.
pub open spec fn fast_diff(img: GrayImage, x: int, y: int, i: int) -> int {
    img.pixel(x + circle_offset(i).0, y + circle_offset(i).1) - img.pixel(x, y)
}

/// Circle pixels at least `t` brighter than the centre.
pub open spec fn bright_flags(img: GrayImage, x: int, y: int, t: int) -> Seq<bool> {
    Seq::new(16, |i: int| fast_diff(img, x, y, i) >= t)
}

/// Circle pixels at least `t` darker than the centre.
pub open spec fn dark_flags(img: GrayImage, x: int, y: int, t: int) -> Seq<bool> {
    Seq::new(16, |i: int| fast_diff(img, x, y, i) <= -t)
}

pub open spec fn abs_int(v: int) -> int {
    if v < 0 { -v } else { v }
}

/// Sum of the absolute differences of the first `k` circle pixels.
pub open spec fn diff_abs_sum(img: GrayImage, x: int, y: int, k: int) -> int
    decreases k,
{
    if k <= 0 { 0 } else { diff_abs_sum(img, x, y, k - 1) + abs_int(fast_diff(img, x, y, k - 1)) }
}

/// FAST corner test: nine contiguous circle pixels all brighter or all darker
/// than the centre by the threshold; the score is the total absolute contrast.
pub open spec fn fast_score(img: GrayImage, x: int, y: int, t: int) -> Option<u32> {
    if has_run(bright_flags(img, x, y, t), 9) || has_run(dark_flags(img, x, y, t), 9) {
        Some(diff_abs_sum(img, x, y, 16) as u32)
    } else {
        None
    }
}

/// FAST corner score at (`x`, `y`), or `None` when the pixel is not a corner.
pub fn fast_corner_score(image: &GrayImage, x: i32, y: i32, threshold: u8) -> (r: Option<u32>)
    requires
        image.wf(),
        3 <= x,
        x + 3 < image.width,
        3 <= y,
        y + 3 < image.height,
    ensures
        r == fast_score(*image, x as int, y as int, threshold as int),
        r matches Some(s) ==> s <= FAST_MAX_SCORE,
{
    let center = image.get_pixel(x as u32, y as u32) as i16;
    let t = threshold as i16;
    let mut bright: Vec<bool> = Vec::new();
    let mut dark: Vec<bool> = Vec::new();
    let mut sum: u32 = 0;
    let mut i: usize = 0;
    while i < 16
        invariant
            image.wf(),
            3 <= x,
            x + 3 < image.width,
            3 <= y,
            y + 3 < image.height,
            center == image.pixel(x as int, y as int),
            t == threshold,
            i <= 16,
            bright@.len() == i,
            dark@.len() == i,
            forall|j: int| 0 <= j < i ==> bright@[j] == (fast_diff(*image, x as int, y as int, j) >= t),
            forall|j: int| 0 <= j < i ==> dark@[j] == (fast_diff(*image, x as int, y as int, j) <= -t),
            sum == diff_abs_sum(*image, x as int, y as int, i as int),
            sum <= 255 * i,
        decreases 16 - i,
    {
        let (dx, dy) = fast_circle_offset(i);
        let v = image.get_pixel((x + dx) as u32, (y + dy) as u32) as i16;
        let diff: i16 = v - center;
        bright.push(diff >= t);
        dark.push(diff <= -t);
        let a: u32 = if diff < 0 { (-diff) as u32 } else { diff as u32 };
        sum = sum + a;
        i = i + 1;
    }
    assert(bright@ == bright_flags(*image, x as int, y as int, threshold as int));
    assert(dark@ == dark_flags(*image, x as int, y as int, threshold as int));
    if has_contiguous_run(bright.as_slice(), FAST_ARC_LENGTH) || has_contiguous_run(dark.as_slice(), FAST_ARC_LENGTH) {
        Some(sum)
    } else {
        None
    }
}


/// The neighbour (`nx`, `ny`) does not beat a candidate of score `score` at
/// (`x`, `y`): it is not stronger, and on a tie it does not come first in
/// raster order.
pub open spec fn neighbour_yields(map: Seq<u32>, w: int, x: int, y: int, score: int, nx: int, ny: int) -> bool {
    let s = map[ny * w + nx] as int;
    !(s > score) && !(s == score && (ny < y || (ny == y && nx < x)))
}

/// (`x`, `y`) with score `score` survives non-maximum suppression in the
/// `(2r+1)` x `(2r+1)` window of `map`, a `w` x `h` row-major score grid.
pub open spec fn is_local_max(map: Seq<u32>, w: int, h: int, x: int, y: int, score: int, r: int) -> bool {
    forall|nx: int, ny: int|
        #![trigger neighbour_yields(map, w, x, y, score, nx, ny)]
        x - r <= nx <= x + r && y - r <= ny <= y + r && 0 <= nx < w && 0 <= ny < h
            && !(nx == x && ny == y) ==> neighbour_yields(map, w, x, y, score, nx, ny)
}

/// Non-maximum suppression test for one candidate in a row-major score map.
pub fn is_local_maximum(
    score_map: &[u32],
    width: u32,
    height: u32,
    x: i32,
    y: i32,
    score: u32,
    radius: i32,
) -> (r: bool)
    requires
        score_map@.len() >= (width as int) * (height as int),
        (width as int) * (height as int) <= u32::MAX,
        width <= i32::MAX,
        height <= i32::MAX,
        i32::MIN <= x - radius,
        x + radius < i32::MAX,
        i32::MIN <= y - radius,
        y + radius < i32::MAX,
    ensures
        r == is_local_max(score_map@, width as int, height as int, x as int, y as int, score as int, radius as int),
{
    if radius < 0 {
        return true;
    }
    let w = width as i32;
    let h = height as i32;
    let mut ny: i32 = y - radius;
    while ny <= y + radius
        invariant
            score_map@.len() >= (width as int) * (height as int),
            (width as int) * (height as int) <= u32::MAX,
            w == width,
            h == height,
            0 <= radius,
            y + radius < i32::MAX,
            y - radius <= ny <= y + radius + 1,
            i32::MIN <= x - radius,
            x + radius < i32::MAX,
            forall|nx: int, ny2: int|
                #![trigger neighbour_yields(score_map@, width as int, x as int, y as int, score as int, nx, ny2)]
                x - radius <= nx <= x + radius && y - radius <= ny2 < ny && 0 <= nx < w && 0 <= ny2 < h
                    && !(nx == x && ny2 == y) ==> neighbour_yields(score_map@, width as int, x as int, y as int, score as int, nx, ny2),
        decreases y + radius + 1 - ny,
    {
        let mut nx: i32 = x - radius;
        while nx <= x + radius
            invariant
                score_map@.len() >= (width as int) * (height as int),
                (width as int) * (height as int) <= u32::MAX,
                w == width,
                h == height,
                0 <= radius,
                y - radius <= ny <= y + radius,
                y + radius < i32::MAX,
                x - radius <= nx <= x + radius + 1,
                i32::MIN <= x - radius,
                x + radius < i32::MAX,
                forall|nx2: int, ny2: int|
                    #![trigger neighbour_yields(score_map@, width as int, x as int, y as int, score as int, nx2, ny2)]
                    x - radius <= nx2 <= x + radius && y - radius <= ny2 < ny && 0 <= nx2 < w && 0 <= ny2 < h
                        && !(nx2 == x && ny2 == y) ==> neighbour_yields(score_map@, width as int, x as int, y as int, score as int, nx2, ny2),
                forall|nx2: int|
                    #![trigger neighbour_yields(score_map@, width as int, x as int, y as int, score as int, nx2, ny as int)]
                    x - radius <= nx2 < nx && 0 <= nx2 < w && 0 <= ny < h
                        && !(nx2 == x && ny == y) ==> neighbour_yields(score_map@, width as int, x as int, y as int, score as int, nx2, ny as int),
            decreases x + radius + 1 - nx,
        {
            if nx < 0 || ny < 0 || nx >= w || ny >= h {
                nx = nx + 1;
                continue;
            }
            if nx == x && ny == y {
                nx = nx + 1;
                continue;
            }
            proof { lemma_index_in_bounds(nx as int, ny as int, width as int, height as int); }
            let neighbor_score = score_map[(ny as u32 * width + nx as u32) as usize];
            if neighbor_score > score {
                assert(!neighbour_yields(score_map@, width as int, x as int, y as int, score as int, nx as int, ny as int));
                return false;
            }
            if neighbor_score == score && (ny < y || (ny == y && nx < x)) {
                assert(!neighbour_yields(score_map@, width as int, x as int, y as int, score as int, nx as int, ny as int));
                return false;
            }
            nx = nx + 1;
        }
        ny = ny + 1;
    }
    true
}


/// Intensity of the `i`-th pixel of the radius-3 ring around (`x`, `y`).
pub open spec fn ring_pixel(img: GrayImage, x: int, y: int, i: int) -> int {
    img.pixel(x + circle_offset(i).0, y + circle_offset(i).1)
}

/// Whether ring position `i` lies in the arc of nine positions that starts
/// at position `k` and runs on clockwise, wrapping after position 15.
pub open spec fn in_arc(k: int, i: int) -> bool {
    (i - k + 16) % 16 < 9
}

/// Every ring pixel of the arc starting at `k` is at least `t` brighter
/// than the centre.
pub open spec fn bright_arc(img: GrayImage, x: int, y: int, t: int, k: int) -> bool {
    forall|i: int| 0 <= i < 16 && in_arc(k, i) ==> #[trigger] ring_pixel(img, x, y, i) >= img.pixel(x, y) + t
}

/// Every ring pixel of the arc starting at `k` is at least `t` darker than
/// the centre.
pub open spec fn dark_arc(img: GrayImage, x: int, y: int, t: int, k: int) -> bool {
    forall|i: int| 0 <= i < 16 && in_arc(k, i) ==> #[trigger] ring_pixel(img, x, y, i) <= img.pixel(x, y) - t
}

/// Sum over the whole ring of the absolute differences with the centre.
pub open spec fn ring_contrast(img: GrayImage, x: int, y: int, k: int) -> int
    decreases k,
{
    if k <= 0 {
        0
    } else {
        ring_contrast(img, x, y, k - 1) + abs_int(ring_pixel(img, x, y, k - 1) - img.pixel(x, y))
    }
}

proof fn lemma_ring_contrast(img: GrayImage, x: int, y: int, k: int)
    ensures
        ring_contrast(img, x, y, k) == diff_abs_sum(img, x, y, k),
    decreases k,
{
    if k > 0 {
        lemma_ring_contrast(img, x, y, k - 1);
    }
}

proof fn lemma_arc_run(flags: Seq<bool>, k: int)
    requires
        flags.len() == 16,
        0 <= k < 16,
        forall|i: int| 0 <= i < 16 && in_arc(k, i) ==> #[trigger] flags[i],
    ensures
        has_run(flags, 9),
{
    let e = k + 8;
    assert forall|j: int| e + 1 - 9 <= j <= e implies #[trigger] flags[j % flags.len() as int] by {
        let i = j % 16;
        assert(in_arc(k, i));
    }
    assert(flags[e % flags.len() as int]);
}

proof fn lemma_run_arc(flags: Seq<bool>) -> (k: int)
    requires
        flags.len() == 16,
        has_run(flags, 9),
    ensures
        0 <= k < 16,
        forall|i: int| 0 <= i < 16 && in_arc(k, i) ==> #[trigger] flags[i],
{
    let e = choose|e: int|
        #![trigger flags[e % flags.len() as int]]
        0 <= e < 2 * flags.len() && 9 <= e + 1 && flags[e % flags.len() as int]
            && forall|j: int| e + 1 - 9 <= j <= e ==> #[trigger] flags[j % flags.len() as int];
    let k = (e - 8) % 16;
    assert forall|i: int| 0 <= i < 16 && in_arc(k, i) implies #[trigger] flags[i] by {
        let d = (i - k + 16) % 16;
        let j = e - 8 + d;
        assert(j % 16 == i);
        assert(flags[j % flags.len() as int]);
    }
    k
}

/// Law of the FAST test: a pixel is a corner exactly when some arc of nine
/// contiguous ring pixels is all at least the threshold brighter than the
/// centre, or all at least the threshold darker; a corner is scored with the
/// sum of the absolute differences between the ring and the centre.
pub proof fn lemma_fast_corner_arcs(img: GrayImage, x: int, y: int, t: int)
    ensures
        (fast_score(img, x, y, t) is Some) <==> ((exists|k: int| 0 <= k < 16 && #[trigger] bright_arc(img, x, y, t, k))
            || (exists|k: int| 0 <= k < 16 && #[trigger] dark_arc(img, x, y, t, k))),
        fast_score(img, x, y, t) is Some ==> fast_score(img, x, y, t) == Some(
            ring_contrast(img, x, y, 16) as u32,
        ),
{
    lemma_ring_contrast(img, x, y, 16);
    let bf = bright_flags(img, x, y, t);
    let df = dark_flags(img, x, y, t);
    if has_run(bf, 9) {
        let k = lemma_run_arc(bf);
        assert forall|i: int| 0 <= i < 16 && in_arc(k, i) implies #[trigger] ring_pixel(img, x, y, i)
            >= img.pixel(x, y) + t by {
            assert(bf[i]);
        }
        assert(bright_arc(img, x, y, t, k));
    } else if has_run(df, 9) {
        let k = lemma_run_arc(df);
        assert forall|i: int| 0 <= i < 16 && in_arc(k, i) implies #[trigger] ring_pixel(img, x, y, i)
            <= img.pixel(x, y) - t by {
            assert(df[i]);
        }
        assert(dark_arc(img, x, y, t, k));
    }
    if exists|k: int| 0 <= k < 16 && #[trigger] bright_arc(img, x, y, t, k) {
        let k = choose|k: int| 0 <= k < 16 && #[trigger] bright_arc(img, x, y, t, k);
        assert forall|i: int| 0 <= i < 16 && in_arc(k, i) implies #[trigger] bf[i] by {
            assert(ring_pixel(img, x, y, i) >= img.pixel(x, y) + t);
        }
        lemma_arc_run(bf, k);
    }
    if exists|k: int| 0 <= k < 16 && #[trigger] dark_arc(img, x, y, t, k) {
        let k = choose|k: int| 0 <= k < 16 && #[trigger] dark_arc(img, x, y, t, k);
        assert forall|i: int| 0 <= i < 16 && in_arc(k, i) implies #[trigger] df[i] by {
            assert(ring_pixel(img, x, y, i) <= img.pixel(x, y) - t);
        }
        lemma_arc_run(df, k);
    }
}

/// Law of the FAST test under photometric inversion: replacing every pixel
/// value `v` by `255 - v` turns bright arcs into dark ones and back, so the
/// corner decision and its score are the same for both images.
pub proof fn lemma_fast_score_inverted(a: GrayImage, b: GrayImage, x: int, y: int, t: int)
    requires
        a.width == b.width,
        a.height == b.height,
        3 <= x,
        x + 3 < a.width,
        3 <= y,
        y + 3 < a.height,
        forall|px: int, py: int|
            0 <= px < a.width && 0 <= py < a.height ==> #[trigger] b.pixel(px, py) == 255 - a.pixel(px, py),
    ensures
        fast_score(a, x, y, t) == fast_score(b, x, y, t),
{
    assert forall|i: int| 0 <= i < 16 implies fast_diff(b, x, y, i) == -fast_diff(a, x, y, i) by {
        let px = x + circle_offset(i).0;
        let py = y + circle_offset(i).1;
        assert(b.pixel(px, py) == 255 - a.pixel(px, py));
        assert(b.pixel(x, y) == 255 - a.pixel(x, y));
    }
    assert(bright_flags(b, x, y, t) =~= dark_flags(a, x, y, t));
    assert(dark_flags(b, x, y, t) =~= bright_flags(a, x, y, t));
    lemma_inverted_abs_sum(a, b, x, y, 16);
}

proof fn lemma_inverted_abs_sum(a: GrayImage, b: GrayImage, x: int, y: int, k: int)
    requires
        k <= 16,
        forall|i: int| 0 <= i < 16 ==> fast_diff(b, x, y, i) == -fast_diff(a, x, y, i),
    ensures
        diff_abs_sum(a, x, y, k) == diff_abs_sum(b, x, y, k),
    decreases k,
{
    if k > 0 {
        lemma_inverted_abs_sum(a, b, x, y, k - 1);
        assert(fast_diff(b, x, y, k - 1) == -fast_diff(a, x, y, k - 1));
    }
}

/// Law of non-maximum suppression: a candidate is suppressed by any
/// stronger score in its window, and of two distinct candidates of equal
/// score within each other's window at most one survives, the later one in
/// raster order (a row below, or the same row to the right) being dropped.
pub proof fn lemma_suppression_ties(
    map: Seq<u32>,
    w: int,
    h: int,
    x1: int,
    y1: int,
    x2: int,
    y2: int,
    r: int,
)
    requires
        0 <= x1 < w,
        0 <= y1 < h,
        0 <= x2 < w,
        0 <= y2 < h,
        !(x1 == x2 && y1 == y2),
        -r <= x1 - x2 <= r,
        -r <= y1 - y2 <= r,
    ensures
        map[y2 * w + x2] > map[y1 * w + x1] ==> !is_local_max(map, w, h, x1, y1, map[y1 * w + x1] as int, r),
        map[y1 * w + x1] == map[y2 * w + x2] ==> !(is_local_max(map, w, h, x1, y1, map[y1 * w + x1] as int, r)
            && is_local_max(map, w, h, x2, y2, map[y2 * w + x2] as int, r)),
        map[y1 * w + x1] == map[y2 * w + x2] && (y2 < y1 || (y2 == y1 && x2 < x1)) ==> !is_local_max(
            map,
            w,
            h,
            x1,
            y1,
            map[y1 * w + x1] as int,
            r,
        ),
{
    let s1 = map[y1 * w + x1] as int;
    let s2 = map[y2 * w + x2] as int;
    if s2 > s1 {
        assert(!neighbour_yields(map, w, x1, y1, s1, x2, y2));
    }
    if s1 == s2 {
        if y2 < y1 || (y2 == y1 && x2 < x1) {
            assert(!neighbour_yields(map, w, x1, y1, s1, x2, y2));
        } else {
            assert(!neighbour_yields(map, w, x2, y2, s2, x1, y1));
        }
    }
}

/// Pixels where the detector runs: at least the edge radius away from every border.
pub open spec fn is_interior(img: GrayImage, x: int, y: int) -> bool {
    FAST_EDGE_RADIUS_PX <= x < img.width - FAST_EDGE_RADIUS_PX
        && FAST_EDGE_RADIUS_PX <= y < img.height - FAST_EDGE_RADIUS_PX
}

/// Detector score at a pixel: the FAST score at interior corners, 0 elsewhere.
pub open spec fn score_at(img: GrayImage, t: int, x: int, y: int) -> u32 {
    if is_interior(img, x, y) {
        match fast_score(img, x, y, t) {
            Some(s) => s,
            None => 0,
        }
    } else {
        0
    }
}

/// The row-major score map of the whole image.
pub open spec fn fast_score_map(img: GrayImage, t: int) -> Seq<u32> {
    Seq::new(
        ((img.width as int) * (img.height as int)) as nat,
        |i: int| score_at(img, t, i % (img.width as int), i / (img.width as int)),
    )
}

/// The keypoint found at (`x`, `y`), if the pixel is a corner.
pub open spec fn corner_at(img: GrayImage, t: int, x: int, y: int) -> Seq<Keypoint> {
    match fast_score(img, x, y, t) {
        Some(s) => seq![Keypoint { x: x as u32, y: y as u32, score: s }],
        None => Seq::empty(),
    }
}

/// Corners of row `y` at columns from the edge radius up to `x`, left to right.
pub open spec fn row_corners(img: GrayImage, t: int, y: int, x: int) -> Seq<Keypoint>
    decreases x,
{
    if x <= FAST_EDGE_RADIUS_PX {
        Seq::empty()
    } else {
        row_corners(img, t, y, x - 1) + corner_at(img, t, x - 1, y)
    }
}

/// Corners of all interior rows above `y`, in raster order.
pub open spec fn rows_corners(img: GrayImage, t: int, y: int) -> Seq<Keypoint>
    decreases y,
{
    if y <= FAST_EDGE_RADIUS_PX {
        Seq::empty()
    } else {
        rows_corners(img, t, y - 1) + row_corners(img, t, y - 1, img.width - FAST_EDGE_RADIUS_PX)
    }
}

/// Every interior corner in raster order.
pub open spec fn fast_candidates(img: GrayImage, t: int) -> Seq<Keypoint> {
    rows_corners(img, t, img.height - FAST_EDGE_RADIUS_PX)
}

/// Scans the interior, returning the corners in raster order and the score map.
fn collect_fast_candidates(image: &GrayImage, threshold: u8) -> (r: (Vec<Keypoint>, Vec<u32>))
    requires
        image.wf(),
        image.width > 2 * FAST_EDGE_RADIUS_PX,
        image.height > 2 * FAST_EDGE_RADIUS_PX,
    ensures
        r.0@ == fast_candidates(*image, threshold as int),
        r.1@ == fast_score_map(*image, threshold as int),
        forall|i: int| 0 <= i < r.0@.len() ==> #[trigger] r.0@[i].score <= FAST_MAX_SCORE,
{
    let width = image.width;
    let height = image.height;
    let ghost w = width as int;
    let ghost h = height as int;
    let ghost t = threshold as int;
    let n = (width * height) as usize;
    let mut map: Vec<u32> = Vec::new();
    let mut k: usize = 0;
    while k < n
        invariant
            k <= n,
            map@.len() == k,
            forall|j: int| 0 <= j < k ==> map@[j] == 0,
        decreases n - k,
    {
        map.push(0);
        k = k + 1;
    }
    let mut cands: Vec<Keypoint> = Vec::new();
    let mut y: u32 = FAST_EDGE_RADIUS_PX;
    assert forall|px: int, py: int|
        0 <= px < w && 0 <= py < h implies #[trigger] map@[py * w + px] == (if py < y {
            score_at(*image, t, px, py)
        } else {
            0
        }) by {
        lemma_index_in_bounds(px, py, w, h);
    }
    while y < height - FAST_EDGE_RADIUS_PX
        invariant
            image.wf(),
            width == image.width,
            height == image.height,
            w == width,
            h == height,
            t == threshold,
            width > 2 * FAST_EDGE_RADIUS_PX,
            height > 2 * FAST_EDGE_RADIUS_PX,
            FAST_EDGE_RADIUS_PX <= y <= height - FAST_EDGE_RADIUS_PX,
            map@.len() == w * h,
            cands@ == rows_corners(*image, t, y as int),
            forall|i: int| 0 <= i < cands@.len() ==> #[trigger] cands@[i].score <= FAST_MAX_SCORE,
            forall|px: int, py: int|
                0 <= px < w && 0 <= py < h ==> #[trigger] map@[py * w + px] == (if py < y {
                    score_at(*image, t, px, py)
                } else {
                    0
                }),
        decreases height - y,
    {
        let ghost rows_before = cands@;
        let mut x: u32 = FAST_EDGE_RADIUS_PX;
        while x < width - FAST_EDGE_RADIUS_PX
            invariant
                image.wf(),
                width == image.width,
                height == image.height,
                w == width,
                h == height,
                t == threshold,
                width > 2 * FAST_EDGE_RADIUS_PX,
                height > 2 * FAST_EDGE_RADIUS_PX,
                FAST_EDGE_RADIUS_PX <= y < height - FAST_EDGE_RADIUS_PX,
                FAST_EDGE_RADIUS_PX <= x <= width - FAST_EDGE_RADIUS_PX,
                map@.len() == w * h,
                rows_before == rows_corners(*image, t, y as int),
                cands@ == rows_before + row_corners(*image, t, y as int, x as int),
                forall|i: int| 0 <= i < cands@.len() ==> #[trigger] cands@[i].score <= FAST_MAX_SCORE,
                forall|px: int, py: int|
                    0 <= px < w && 0 <= py < h ==> #[trigger] map@[py * w + px] == (if py < y || (py == y && px < x) {
                        score_at(*image, t, px, py)
                    } else {
                        0
                    }),
            decreases width - FAST_EDGE_RADIUS_PX - x,
        {
            let ghost before = cands@;
            let sc = fast_corner_score(image, x as i32, y as i32, threshold);
            proof { lemma_index_in_bounds(x as int, y as int, w, h); }
            match sc {
                Some(score) => {
                    let idx = (y * width + x) as usize;
                    map.set(idx, score);
                    cands.push(Keypoint { x, y, score });
                    assert(corner_at(*image, t, x as int, y as int) =~= seq![Keypoint { x, y, score }]);
                },
                None => {
                    assert(corner_at(*image, t, x as int, y as int) =~= Seq::<Keypoint>::empty());
                },
            }
            assert forall|px: int, py: int|
                0 <= px < w && 0 <= py < h implies #[trigger] map@[py * w + px] == (if py < y || (py == y && px < x + 1) {
                    score_at(*image, t, px, py)
                } else {
                    0
                }) by {
                lemma_index_in_bounds(px, py, w, h);
                if px == x && py == y {
                } else {
                    lemma_index_injective(px, py, x as int, y as int, w, h);
                }
            }
            assert(row_corners(*image, t, y as int, x + 1) == row_corners(*image, t, y as int, x as int) + corner_at(*image, t, x as int, y as int));
            assert(cands@ =~= rows_before + row_corners(*image, t, y as int, x + 1));
            x = x + 1;
        }
        assert forall|px: int, py: int|
            0 <= px < w && 0 <= py < h implies #[trigger] map@[py * w + px] == (if py < y + 1 {
                score_at(*image, t, px, py)
            } else {
                0
            }) by {
            lemma_index_in_bounds(px, py, w, h);
            if py == y && px >= x {
                assert(!is_interior(*image, px, py));
            }
        }
        assert(rows_corners(*image, t, y + 1) == rows_corners(*image, t, y as int) + row_corners(*image, t, y as int, w - FAST_EDGE_RADIUS_PX));
        y = y + 1;
    }
    assert forall|px: int, py: int|
        0 <= px < w && 0 <= py < h implies #[trigger] map@[py * w + px] == score_at(*image, t, px, py) by {
        lemma_index_in_bounds(px, py, w, h);
        if py >= y {
            assert(!is_interior(*image, px, py));
        }
    }
    assert forall|i: int| 0 <= i < w * h implies map@[i] == #[trigger] fast_score_map(*image, t)[i] by {
        let px = i % w;
        let py = i / w;
        vstd::arithmetic::div_mod::lemma_fundamental_div_mod(i, w);
        assert(0 <= px < w);
        assert(0 <= py < h) by (nonlinear_arith)
            requires i == w * py + px, 0 <= px < w, 0 <= i < w * h, w > 0;
        assert(i == py * w + px) by (nonlinear_arith)
            requires i == w * (i / w) + i % w, px == i % w, py == i / w;
    }
    assert(map@ =~= fast_score_map(*image, t));
    (cands, map)
}

/// Distinct pixels of a grid have distinct row-major indices.
pub proof fn lemma_index_injective(x1: int, y1: int, x2: int, y2: int, w: int, h: int)
    requires
        0 <= x1 < w,
        0 <= y1 < h,
        0 <= x2 < w,
        0 <= y2 < h,
        !(x1 == x2 && y1 == y2),
    ensures
        y1 * w + x1 != y2 * w + x2,
{
    if y1 == y2 {
    } else if y1 < y2 {
        assert(y1 * w + x1 < y2 * w + x2) by (nonlinear_arith)
            requires y1 < y2, 0 <= x1 < w, 0 <= x2;
    } else {
        assert(y2 * w + x2 < y1 * w + x1) by (nonlinear_arith)
            requires y2 < y1, 0 <= x2 < w, 0 <= x1;
    }
}


/// Candidates that survive non-maximum suppression against the image's score map.
pub open spec fn local_maxima(img: GrayImage, t: int, cands: Seq<Keypoint>) -> Seq<Keypoint> {
    cands.filter(|k: Keypoint| is_local_max(fast_score_map(img, t), img.width as int, img.height as int,
        k.x as int, k.y as int, k.score as int, NON_MAX_SUPPRESSION_RADIUS_PX as int))
}

/// Concatenation of the keypoints of score `top`, `top - 1`, ..., `top - n + 1`,
/// each group in input order.
pub open spec fn scores_desc(c: Seq<Keypoint>, top: int, n: int) -> Seq<Keypoint>
    decreases n,
{
    if n <= 0 {
        Seq::empty()
    } else {
        scores_desc(c, top, n - 1) + c.filter(|k: Keypoint| k.score as int == top - (n - 1))
    }
}

/// Stable sort by descending score of keypoints whose scores lie in `0..=FAST_MAX_SCORE`.
pub open spec fn sort_by_score_desc(c: Seq<Keypoint>) -> Seq<Keypoint> {
    scores_desc(c, FAST_MAX_SCORE as int, FAST_MAX_SCORE as int + 1)
}

/// Squared pixel distance between two keypoints.
pub open spec fn dist2(a: Keypoint, b: Keypoint) -> int {
    (a.x as int - b.x as int) * (a.x as int - b.x as int) + (a.y as int - b.y as int) * (a.y as int - b.y as int)
}

/// `c` lies within the minimum corner spacing of some keypoint of `acc`.
pub open spec fn too_close(acc: Seq<Keypoint>, c: Keypoint) -> bool {
    exists|j: int| 0 <= j < acc.len() && dist2(#[trigger] acc[j], c) <= MIN_CORNER_SPACING_PX * MIN_CORNER_SPACING_PX
}

/// Greedy selection over the first `i` keypoints of `s`: keep a keypoint when
/// fewer than `max` are kept and none kept so far is too close to it.
pub open spec fn greedy_spaced(s: Seq<Keypoint>, max: int, i: int) -> Seq<Keypoint>
    decreases i,
{
    if i <= 0 {
        Seq::empty()
    } else {
        let acc = greedy_spaced(s, max, i - 1);
        if acc.len() >= max || too_close(acc, s[i - 1]) {
            acc
        } else {
            acc.push(s[i - 1])
        }
    }
}

/// What the detector returns: interior FAST corners that survive non-maximum
/// suppression, strongest first (raster order among equal scores), thinned
/// greedily to the minimum spacing and capped at `max_features`.
pub open spec fn fast_corners(img: GrayImage, t: int, max_features: int) -> Seq<Keypoint> {
    if img.width <= 2 * FAST_EDGE_RADIUS_PX || img.height <= 2 * FAST_EDGE_RADIUS_PX {
        Seq::empty()
    } else {
        let sorted = sort_by_score_desc(local_maxima(img, t, fast_candidates(img, t)));
        greedy_spaced(sorted, max_features, sorted.len() as int)
    }
}

fn retain_local_maxima(image: &GrayImage, threshold: u8, cands: &Vec<Keypoint>, map: &Vec<u32>) -> (r: Vec<Keypoint>)
    requires
        image.wf(),
        map@ == fast_score_map(*image, threshold as int),
        forall|i: int| 0 <= i < cands@.len() ==> (#[trigger] cands@[i]).x < image.width && cands@[i].y < image.height,
    ensures
        r@ == local_maxima(*image, threshold as int, cands@),
        forall|i: int| 0 <= i < r@.len() ==> (#[trigger] r@[i]).x < image.width && r@[i].y < image.height,
{
    let ghost pred = |k: Keypoint| is_local_max(fast_score_map(*image, threshold as int), image.width as int,
        image.height as int, k.x as int, k.y as int, k.score as int, NON_MAX_SUPPRESSION_RADIUS_PX as int);
    let mut out: Vec<Keypoint> = Vec::new();
    let mut i: usize = 0;
    while i < cands.len()
        invariant
            image.wf(),
            map@ == fast_score_map(*image, threshold as int),
            forall|j: int| 0 <= j < cands@.len() ==> (#[trigger] cands@[j]).x < image.width && cands@[j].y < image.height,
            i <= cands@.len(),
            pred == (|k: Keypoint| is_local_max(fast_score_map(*image, threshold as int), image.width as int,
                image.height as int, k.x as int, k.y as int, k.score as int, NON_MAX_SUPPRESSION_RADIUS_PX as int)),
            out@ == cands@.take(i as int).filter(pred),
            forall|j: int| 0 <= j < out@.len() ==> (#[trigger] out@[j]).x < image.width && out@[j].y < image.height,
        decreases cands.len() - i,
    {
        let k = cands[i];
        let keep = is_local_maximum(map.as_slice(), image.width, image.height, k.x as i32, k.y as i32, k.score,
            NON_MAX_SUPPRESSION_RADIUS_PX);
        proof {
            assert(cands@.take(i + 1) =~= cands@.take(i as int).push(k));
            cands@.take(i as int).lemma_filter_push(k, pred);
        }
        if keep {
            out.push(k);
        }
        i = i + 1;
    }
    assert(cands@.take(cands@.len() as int) =~= cands@);
    out
}

fn sort_keypoints_by_score_desc(c: &Vec<Keypoint>, bound: u32) -> (r: Vec<Keypoint>)
    requires
        forall|i: int| 0 <= i < c@.len() ==> (#[trigger] c@[i]).x < bound && c@[i].y < bound,
    ensures
        r@ == sort_by_score_desc(c@),
        forall|i: int| 0 <= i < r@.len() ==> (#[trigger] r@[i]).x < bound && r@[i].y < bound,
{
    let mut out: Vec<Keypoint> = Vec::new();
    let mut n: u32 = 0;
    while n <= FAST_MAX_SCORE
        invariant
            n <= FAST_MAX_SCORE + 1,
            out@ == scores_desc(c@, FAST_MAX_SCORE as int, n as int),
            forall|i: int| 0 <= i < c@.len() ==> (#[trigger] c@[i]).x < bound && c@[i].y < bound,
            forall|i: int| 0 <= i < out@.len() ==> (#[trigger] out@[i]).x < bound && out@[i].y < bound,
        decreases FAST_MAX_SCORE + 1 - n,
    {
        let s = FAST_MAX_SCORE - n;
        let ghost pred = |k: Keypoint| k.score as int == FAST_MAX_SCORE - n;
        let ghost prefix = out@;
        let mut i: usize = 0;
        while i < c.len()
            invariant
                i <= c@.len(),
                s == FAST_MAX_SCORE - n,
                pred == (|k: Keypoint| k.score as int == FAST_MAX_SCORE - n),
                out@ == prefix + c@.take(i as int).filter(pred),
                forall|j: int| 0 <= j < c@.len() ==> (#[trigger] c@[j]).x < bound && c@[j].y < bound,
                forall|j: int| 0 <= j < out@.len() ==> (#[trigger] out@[j]).x < bound && out@[j].y < bound,
            decreases c.len() - i,
        {
            let k = c[i];
            proof {
                assert(c@.take(i + 1) =~= c@.take(i as int).push(k));
                c@.take(i as int).lemma_filter_push(k, pred);
            }
            if k.score == s {
                out.push(k);
            }
            i = i + 1;
        }
        assert(c@.take(c@.len() as int) =~= c@);
        assert(scores_desc(c@, FAST_MAX_SCORE as int, n + 1) =~= prefix + c@.filter(pred));
        n = n + 1;
    }
    out
}

fn select_spaced_keypoints(sorted: &Vec<Keypoint>, max_features: usize) -> (r: Vec<Keypoint>)
    requires
        forall|i: int| 0 <= i < sorted@.len() ==> (#[trigger] sorted@[i]).x < i32::MAX && sorted@[i].y < i32::MAX,
    ensures
        r@ == greedy_spaced(sorted@, max_features as int, sorted@.len() as int),
{
    let mut accepted: Vec<Keypoint> = Vec::new();
    let mut i: usize = 0;
    while i < sorted.len()
        invariant
            i <= sorted@.len(),
            forall|q: int| 0 <= q < sorted@.len() ==> (#[trigger] sorted@[q]).x < i32::MAX && sorted@[q].y < i32::MAX,
            forall|q: int| 0 <= q < accepted@.len() ==> (#[trigger] accepted@[q]).x < i32::MAX && accepted@[q].y < i32::MAX,
            accepted@ == greedy_spaced(sorted@, max_features as int, i as int),
        decreases sorted.len() - i,
    {
        if accepted.len() >= max_features {
            proof { lemma_greedy_full_stays(sorted@, max_features as int, i as int, sorted@.len() as int); }
            return accepted;
        }
        let c = sorted[i];
        let mut close = false;
        let mut j: usize = 0;
        while j < accepted.len()
            invariant
                j <= accepted@.len(),
                c.x < i32::MAX && c.y < i32::MAX,
                forall|q: int| 0 <= q < accepted@.len() ==> (#[trigger] accepted@[q]).x < i32::MAX && accepted@[q].y < i32::MAX,
                !close ==> forall|q: int| 0 <= q < j ==> dist2(#[trigger] accepted@[q], c) > MIN_CORNER_SPACING_PX * MIN_CORNER_SPACING_PX,
                close ==> too_close(accepted@, c),
            decreases accepted.len() - j,
        {
            let o = accepted[j];
            let dx: i64 = o.x as i64 - c.x as i64;
            let dy: i64 = o.y as i64 - c.y as i64;
            assert(0 <= dx * dx <= 0x7fff_fffe * 0x7fff_fffe) by (nonlinear_arith)
                requires -0x7fff_fffe <= dx <= 0x7fff_fffe;
            assert(0 <= dy * dy <= 0x7fff_fffe * 0x7fff_fffe) by (nonlinear_arith)
                requires -0x7fff_fffe <= dy <= 0x7fff_fffe;
            if dx * dx + dy * dy <= (MIN_CORNER_SPACING_PX * MIN_CORNER_SPACING_PX) as i64 {
                close = true;
                assert(dist2(accepted@[j as int], c) <= MIN_CORNER_SPACING_PX * MIN_CORNER_SPACING_PX);
            }
            j = j + 1;
        }
        if !close {
            accepted.push(c);
        }
        i = i + 1;
    }
    accepted
}

/// Once the greedy selection holds `max` keypoints it never changes again.
proof fn lemma_greedy_full_stays(s: Seq<Keypoint>, max: int, i: int, j: int)
    requires
        0 <= i <= j,
        greedy_spaced(s, max, i).len() >= max,
    ensures
        greedy_spaced(s, max, j) == greedy_spaced(s, max, i),
    decreases j - i,
{
    if j > i {
        lemma_greedy_full_stays(s, max, i, j - 1);
    }
}

/// Detects FAST corners, suppresses non-maxima, and keeps at most
/// `max_features` well-spaced corners, strongest first.
pub fn detect_fast_corners(image: &GrayImage, threshold: u8, max_features: usize) -> (r: Vec<Keypoint>)
    requires
        image.wf(),
    ensures
        r@ == fast_corners(*image, threshold as int, max_features as int),
{
    let width = image.width;
    let height = image.height;
    if width <= FAST_EDGE_RADIUS_PX * 2 || height <= FAST_EDGE_RADIUS_PX * 2 {
        return Vec::new();
    }
    let (cands, map) = collect_fast_candidates(image, threshold);
    proof { lemma_candidates_in_image(*image, threshold as int, (image.height - FAST_EDGE_RADIUS_PX) as int); }
    let maxima = retain_local_maxima(image, threshold, &cands, &map);
    let sorted = sort_keypoints_by_score_desc(&maxima, 0x7fff_ffff);
    select_spaced_keypoints(&sorted, max_features)
}


/// Every keypoint scanned in a row lies on that row at a scanned column and is a corner there.
proof fn lemma_row_corners(img: GrayImage, t: int, y: int, x: int)
    requires
        img.wf(),
        FAST_EDGE_RADIUS_PX <= y < img.height - FAST_EDGE_RADIUS_PX,
        x <= img.width - FAST_EDGE_RADIUS_PX,
    ensures
        forall|i: int| 0 <= i < row_corners(img, t, y, x).len() ==> {
            let k = #[trigger] row_corners(img, t, y, x)[i];
            &&& k.y == y
            &&& FAST_EDGE_RADIUS_PX <= k.x < x
            &&& is_interior(img, k.x as int, k.y as int)
            &&& fast_score(img, k.x as int, k.y as int, t) == Some(k.score)
        },
    decreases x,
{
    if x > FAST_EDGE_RADIUS_PX {
        lemma_row_corners(img, t, y, x - 1);
        let prev = row_corners(img, t, y, x - 1);
        let cur = corner_at(img, t, x - 1, y);
        assert(row_corners(img, t, y, x) == prev + cur);
        assert forall|i: int| 0 <= i < row_corners(img, t, y, x).len() implies {
            let k = #[trigger] row_corners(img, t, y, x)[i];
            &&& k.y == y
            &&& FAST_EDGE_RADIUS_PX <= k.x < x
            &&& is_interior(img, k.x as int, k.y as int)
            &&& fast_score(img, k.x as int, k.y as int, t) == Some(k.score)
        } by {
            if i >= prev.len() {
                assert(row_corners(img, t, y, x)[i] == cur[i - prev.len()]);
            } else {
                assert(row_corners(img, t, y, x)[i] == prev[i]);
            }
        }
    }
}

/// Every scanned keypoint is an interior corner carrying its FAST score.
proof fn lemma_rows_corners(img: GrayImage, t: int, y: int)
    requires
        img.wf(),
        y <= img.height - FAST_EDGE_RADIUS_PX,
        img.width > 2 * FAST_EDGE_RADIUS_PX,
    ensures
        forall|i: int| 0 <= i < rows_corners(img, t, y).len() ==> {
            let k = #[trigger] rows_corners(img, t, y)[i];
            &&& k.y < y
            &&& is_interior(img, k.x as int, k.y as int)
            &&& fast_score(img, k.x as int, k.y as int, t) == Some(k.score)
        },
    decreases y,
{
    if y > FAST_EDGE_RADIUS_PX {
        lemma_rows_corners(img, t, y - 1);
        lemma_row_corners(img, t, y - 1, img.width - FAST_EDGE_RADIUS_PX);
        let prev = rows_corners(img, t, y - 1);
        let cur = row_corners(img, t, y - 1, img.width - FAST_EDGE_RADIUS_PX);
        assert(rows_corners(img, t, y) == prev + cur);
        assert forall|i: int| 0 <= i < rows_corners(img, t, y).len() implies {
            let k = #[trigger] rows_corners(img, t, y)[i];
            &&& k.y < y
            &&& is_interior(img, k.x as int, k.y as int)
            &&& fast_score(img, k.x as int, k.y as int, t) == Some(k.score)
        } by {
            if i >= prev.len() {
                assert(rows_corners(img, t, y)[i] == cur[i - prev.len()]);
            } else {
                assert(rows_corners(img, t, y)[i] == prev[i]);
            }
        }
    }
}

proof fn lemma_candidates_in_image(img: GrayImage, t: int, y: int)
    requires
        img.wf(),
        y == img.height - FAST_EDGE_RADIUS_PX,
        img.width > 2 * FAST_EDGE_RADIUS_PX,
        img.height > 2 * FAST_EDGE_RADIUS_PX,
    ensures
        forall|i: int| 0 <= i < fast_candidates(img, t).len() ==> {
            let k = #[trigger] fast_candidates(img, t)[i];
            &&& k.x < img.width && k.y < img.height
            &&& is_interior(img, k.x as int, k.y as int)
            &&& fast_score(img, k.x as int, k.y as int, t) == Some(k.score)
        },
{
    lemma_rows_corners(img, t, y);
}


/// Blocks concatenated by [`scores_desc`] come from `c`, carry scores in
/// `(top - n, top]`, and appear strongest first.
proof fn lemma_scores_desc(c: Seq<Keypoint>, top: int, n: int)
    requires
        n >= 0,
    ensures
        forall|k: int| 0 <= k < scores_desc(c, top, n).len() ==> {
            let e = #[trigger] scores_desc(c, top, n)[k];
            &&& c.contains(e)
            &&& top - n < e.score <= top
        },
        forall|a: int, b: int| 0 <= a < b < scores_desc(c, top, n).len() ==>
            (#[trigger] scores_desc(c, top, n)[a]).score >= (#[trigger] scores_desc(c, top, n)[b]).score,
    decreases n,
{
    if n > 0 {
        lemma_scores_desc(c, top, n - 1);
        let prev = scores_desc(c, top, n - 1);
        let pred = |k: Keypoint| k.score as int == top - (n - 1);
        let blk = c.filter(pred);
        let all = scores_desc(c, top, n);
        assert(all == prev + blk);
        assert forall|k: int| 0 <= k < blk.len() implies #[trigger] blk[k].score == top - (n - 1) && c.contains(blk[k]) by {
            c.lemma_filter_pred(pred, k);
            assert(blk.contains(blk[k]));
            c.lemma_filter_contains_rev(pred, blk[k]);
        }
        assert forall|k: int| 0 <= k < all.len() implies {
            let e = #[trigger] all[k];
            &&& c.contains(e)
            &&& top - n < e.score <= top
        } by {
            if k < prev.len() {
                assert(all[k] == prev[k]);
            } else {
                assert(all[k] == blk[k - prev.len()]);
            }
        }
        assert forall|a: int, b: int| 0 <= a < b < all.len() implies
            (#[trigger] all[a]).score >= (#[trigger] all[b]).score by {
            if b < prev.len() {
                assert(all[a] == prev[a] && all[b] == prev[b]);
            } else if a < prev.len() {
                assert(all[a] == prev[a] && all[b] == blk[b - prev.len()]);
            } else {
                assert(all[a] == blk[a - prev.len()] && all[b] == blk[b - prev.len()]);
            }
        }
    }
}

/// The greedy selection over a strongest-first sequence is a strongest-first
/// subsequence, holds at most `max` keypoints, and keeps them pairwise farther
/// apart than the minimum spacing.
proof fn lemma_greedy_spaced(s: Seq<Keypoint>, max: int, i: int)
    requires
        0 <= i <= s.len(),
        max >= 0,
        forall|a: int, b: int| 0 <= a < b < s.len() ==> (#[trigger] s[a]).score >= (#[trigger] s[b]).score,
    ensures
        greedy_spaced(s, max, i).len() <= max,
        forall|k: int| 0 <= k < greedy_spaced(s, max, i).len() ==>
            exists|j: int| 0 <= j < i && s[j] == #[trigger] greedy_spaced(s, max, i)[k],
        forall|a: int, b: int| 0 <= a < b < greedy_spaced(s, max, i).len() ==>
            (#[trigger] greedy_spaced(s, max, i)[a]).score >= (#[trigger] greedy_spaced(s, max, i)[b]).score,
        forall|a: int, b: int| 0 <= a < b < greedy_spaced(s, max, i).len() ==>
            dist2(#[trigger] greedy_spaced(s, max, i)[a], #[trigger] greedy_spaced(s, max, i)[b])
                > MIN_CORNER_SPACING_PX * MIN_CORNER_SPACING_PX,
    decreases i,
{
    if i > 0 {
        lemma_greedy_spaced(s, max, i - 1);
        let acc = greedy_spaced(s, max, i - 1);
        let g = greedy_spaced(s, max, i);
        if !(acc.len() >= max || too_close(acc, s[i - 1])) {
            assert(g == acc.push(s[i - 1]));
            assert forall|k: int| 0 <= k < g.len() implies exists|j: int| 0 <= j < i && s[j] == #[trigger] g[k] by {
                if k < acc.len() {
                    assert(g[k] == acc[k]);
                    let j = choose|j: int| 0 <= j < i - 1 && s[j] == acc[k];
                    assert(s[j] == g[k]);
                } else {
                    assert(s[i - 1] == g[k]);
                }
            }
            assert forall|a: int, b: int| 0 <= a < b < g.len() implies
                (#[trigger] g[a]).score >= (#[trigger] g[b]).score by {
                if b == acc.len() {
                    assert(g[a] == acc[a]);
                    let j = choose|j: int| 0 <= j < i - 1 && s[j] == acc[a];
                    assert(s[j].score >= s[i - 1].score);
                } else {
                    assert(g[a] == acc[a] && g[b] == acc[b]);
                }
            }
            assert forall|a: int, b: int| 0 <= a < b < g.len() implies
                dist2(#[trigger] g[a], #[trigger] g[b]) > MIN_CORNER_SPACING_PX * MIN_CORNER_SPACING_PX by {
                if b == acc.len() {
                    assert(g[a] == acc[a]);
                    assert(!(dist2(acc[a], s[i - 1]) <= MIN_CORNER_SPACING_PX * MIN_CORNER_SPACING_PX));
                } else {
                    assert(g[a] == acc[a] && g[b] == acc[b]);
                }
            }
        } else {
            assert forall|k: int| 0 <= k < g.len() implies exists|j: int| 0 <= j < i && s[j] == #[trigger] g[k] by {
                let j = choose|j: int| 0 <= j < i - 1 && s[j] == acc[k];
                assert(s[j] == g[k]);
            }
        }
    }
}

/// Law of the detector: every returned keypoint is an interior FAST corner
/// carrying its own score that survives non-maximum suppression; the
/// keypoints come strongest first, are pairwise farther apart than the
/// minimum spacing, and number at most `max_features`.
pub proof fn lemma_fast_corners_properties(img: GrayImage, t: int, max_features: nat)
    requires
        img.wf(),
    ensures
        fast_corners(img, t, max_features as int).len() <= max_features,
        forall|k: int| 0 <= k < fast_corners(img, t, max_features as int).len() ==> {
            let e = #[trigger] fast_corners(img, t, max_features as int)[k];
            &&& is_interior(img, e.x as int, e.y as int)
            &&& fast_score(img, e.x as int, e.y as int, t) == Some(e.score)
            &&& is_local_max(fast_score_map(img, t), img.width as int, img.height as int, e.x as int,
                e.y as int, e.score as int, NON_MAX_SUPPRESSION_RADIUS_PX as int)
        },
        forall|a: int, b: int| 0 <= a < b < fast_corners(img, t, max_features as int).len() ==>
            (#[trigger] fast_corners(img, t, max_features as int)[a]).score
                >= (#[trigger] fast_corners(img, t, max_features as int)[b]).score,
        forall|a: int, b: int| 0 <= a < b < fast_corners(img, t, max_features as int).len() ==>
            dist2(#[trigger] fast_corners(img, t, max_features as int)[a],
                #[trigger] fast_corners(img, t, max_features as int)[b])
                > MIN_CORNER_SPACING_PX * MIN_CORNER_SPACING_PX,
{
    if !(img.width <= 2 * FAST_EDGE_RADIUS_PX || img.height <= 2 * FAST_EDGE_RADIUS_PX) {
        let cands = fast_candidates(img, t);
        let pred = |k: Keypoint| is_local_max(fast_score_map(img, t), img.width as int, img.height as int,
            k.x as int, k.y as int, k.score as int, NON_MAX_SUPPRESSION_RADIUS_PX as int);
        let maxima = local_maxima(img, t, cands);
        assert(maxima == cands.filter(pred));
        let sorted = sort_by_score_desc(maxima);
        let top = FAST_MAX_SCORE as int;
        lemma_candidates_in_image(img, t, (img.height - FAST_EDGE_RADIUS_PX) as int);
        lemma_scores_desc(maxima, top, top + 1);
        lemma_greedy_spaced(sorted, max_features as int, sorted.len() as int);
        let res = fast_corners(img, t, max_features as int);
        assert forall|k: int| 0 <= k < res.len() implies {
            let e = #[trigger] res[k];
            &&& is_interior(img, e.x as int, e.y as int)
            &&& fast_score(img, e.x as int, e.y as int, t) == Some(e.score)
            &&& is_local_max(fast_score_map(img, t), img.width as int, img.height as int, e.x as int,
                e.y as int, e.score as int, NON_MAX_SUPPRESSION_RADIUS_PX as int)
        } by {
            let j = choose|j: int| 0 <= j < sorted.len() && sorted[j] == res[k];
            assert(maxima.contains(sorted[j]));
            let m = choose|m: int| 0 <= m < maxima.len() && maxima[m] == sorted[j];
            cands.lemma_filter_pred(pred, m);
            assert(cands.filter(pred).contains(maxima[m]));
            cands.lemma_filter_contains_rev(pred, maxima[m]);
            let q = choose|q: int| 0 <= q < cands.len() && cands[q] == maxima[m];
        }
    }
}


/// Radius of the box averaged for each BRIEF comparison.
pub const BRIEF_AVERAGE_RADIUS_PX: i32 = 2;

/// Intensity of an in-image pixel, 0 outside.
pub open spec fn pixel_or_zero(img: GrayImage, px: int, py: int) -> int {
    if 0 <= px < img.width && 0 <= py < img.height { img.pixel(px, py) } else { 0 }
}

/// 1 for an in-image pixel, 0 outside.
pub open spec fn pixel_count(img: GrayImage, px: int, py: int) -> int {
    if 0 <= px < img.width && 0 <= py < img.height { 1 } else { 0 }
}

/// Sum of in-image intensities on row `py` over columns `[x0, px_end)`.
pub open spec fn row_box_sum(img: GrayImage, x0: int, py: int, px_end: int) -> int
    decreases px_end - x0,
{
    if px_end <= x0 { 0 } else { row_box_sum(img, x0, py, px_end - 1) + pixel_or_zero(img, px_end - 1, py) }
}

/// Number of in-image pixels on row `py` over columns `[x0, px_end)`.
pub open spec fn row_box_count(img: GrayImage, x0: int, py: int, px_end: int) -> int
    decreases px_end - x0,
{
    if px_end <= x0 { 0 } else { row_box_count(img, x0, py, px_end - 1) + pixel_count(img, px_end - 1, py) }
}

/// Sum of in-image intensities in the box centred on (`x`, `y`), rows `[y - r, py_end)`.
pub open spec fn box_sum(img: GrayImage, x: int, y: int, r: int, py_end: int) -> int
    decreases py_end - (y - r),
{
    if py_end <= y - r { 0 } else { box_sum(img, x, y, r, py_end - 1) + row_box_sum(img, x - r, py_end - 1, x + r + 1) }
}

/// Number of in-image pixels in the box centred on (`x`, `y`), rows `[y - r, py_end)`.
pub open spec fn box_count(img: GrayImage, x: int, y: int, r: int, py_end: int) -> int
    decreases py_end - (y - r),
{
    if py_end <= y - r { 0 } else { box_count(img, x, y, r, py_end - 1) + row_box_count(img, x - r, py_end - 1, x + r + 1) }
}

/// Integer mean of the in-image pixels of the 5 x 5 box at (`x`, `y`); 0 when none is inside.
pub open spec fn patch_mean(img: GrayImage, x: int, y: int) -> int {
    let r = BRIEF_AVERAGE_RADIUS_PX as int;
    let c = box_count(img, x, y, r, y + r + 1);
    if c == 0 { 0 } else { box_sum(img, x, y, r, y + r + 1) / c }
}

proof fn lemma_row_box_bounds(img: GrayImage, x0: int, py: int, px_end: int)
    ensures
        0 <= row_box_count(img, x0, py, px_end) <= if px_end > x0 { px_end - x0 } else { 0 },
        0 <= row_box_sum(img, x0, py, px_end) <= 255 * row_box_count(img, x0, py, px_end),
    decreases px_end - x0,
{
    if px_end > x0 {
        lemma_row_box_bounds(img, x0, py, px_end - 1);
        if 0 <= px_end - 1 < img.width && 0 <= py < img.height {
            assert(0 <= img.pixels@[py * img.width + px_end - 1] <= 255);
        }
    }
}

/// Mean intensity of the 5 x 5 box centred on (`x`, `y`), clipped to the image.
pub fn patch_average(image: &GrayImage, x: i32, y: i32) -> (r: u32)
    requires
        image.wf(),
        i32::MIN + BRIEF_AVERAGE_RADIUS_PX <= x < i32::MAX - BRIEF_AVERAGE_RADIUS_PX,
        i32::MIN + BRIEF_AVERAGE_RADIUS_PX <= y < i32::MAX - BRIEF_AVERAGE_RADIUS_PX,
    ensures
        r == patch_mean(*image, x as int, y as int),
{
    let rad = BRIEF_AVERAGE_RADIUS_PX;
    let ghost r = rad as int;
    let mut sum: u32 = 0;
    let mut count: u32 = 0;
    let width = image.width as i32;
    let height = image.height as i32;
    let mut py: i32 = y - rad;
    while py <= y + rad
        invariant
            image.wf(),
            rad == BRIEF_AVERAGE_RADIUS_PX,
            r == rad,
            width == image.width,
            height == image.height,
            i32::MIN + BRIEF_AVERAGE_RADIUS_PX <= x < i32::MAX - BRIEF_AVERAGE_RADIUS_PX,
            i32::MIN + BRIEF_AVERAGE_RADIUS_PX <= y < i32::MAX - BRIEF_AVERAGE_RADIUS_PX,
            y - rad <= py <= y + rad + 1,
            sum == box_sum(*image, x as int, y as int, r, py as int),
            count == box_count(*image, x as int, y as int, r, py as int),
            0 <= count <= 5 * (py - (y - rad)),
            sum <= 255 * count,
        decreases y + rad + 1 - py,
    {
        let mut px: i32 = x - rad;
        let ghost s0 = sum;
        let ghost c0 = count;
        while px <= x + rad
            invariant
                image.wf(),
                rad == BRIEF_AVERAGE_RADIUS_PX,
                r == rad,
                width == image.width,
                height == image.height,
                i32::MIN + BRIEF_AVERAGE_RADIUS_PX <= x < i32::MAX - BRIEF_AVERAGE_RADIUS_PX,
                y - rad <= py <= y + rad,
                x - rad <= px <= x + rad + 1,
                s0 == box_sum(*image, x as int, y as int, r, py as int),
                c0 == box_count(*image, x as int, y as int, r, py as int),
                0 <= c0 <= 5 * (py - (y - rad)),
                s0 <= 255 * c0,
                sum == s0 + row_box_sum(*image, x - r, py as int, px as int),
                count == c0 + row_box_count(*image, x - r, py as int, px as int),
                sum <= 255 * count,
                count <= c0 + (px - (x - rad)),
            decreases x + rad + 1 - px,
        {
            proof { lemma_row_box_bounds(*image, x - r, py as int, px as int); }
            if !(px < 0 || py < 0 || px >= width || py >= height) {
                let v = image.get_pixel(px as u32, py as u32);
                sum = sum + v as u32;
                count = count + 1;
            }
            px = px + 1;
        }
        py = py + 1;
    }
    if count == 0 {
        return 0;
    }
    sum / count
}

/// The square patch of `radius` around (`cx`, `cy`), widened by the averaging
/// radius, lies strictly inside the image.
pub fn is_patch_inside(image: &GrayImage, cx: i32, cy: i32, radius: i32) -> (r: bool)
    requires
        image.wf(),
        i32::MIN <= cx - radius - BRIEF_AVERAGE_RADIUS_PX,
        cx - radius <= i32::MAX,
        i32::MIN <= cx + radius,
        cx + radius + BRIEF_AVERAGE_RADIUS_PX <= i32::MAX,
        i32::MIN <= cy - radius - BRIEF_AVERAGE_RADIUS_PX,
        cy - radius <= i32::MAX,
        i32::MIN <= cy + radius,
        cy + radius + BRIEF_AVERAGE_RADIUS_PX <= i32::MAX,
    ensures
        r == (cx - radius - BRIEF_AVERAGE_RADIUS_PX >= 0 && cy - radius - BRIEF_AVERAGE_RADIUS_PX >= 0
            && cx + radius + BRIEF_AVERAGE_RADIUS_PX < image.width
            && cy + radius + BRIEF_AVERAGE_RADIUS_PX < image.height),
{
    let width = image.width as i32;
    let height = image.height as i32;
    cx - radius - BRIEF_AVERAGE_RADIUS_PX >= 0 && cy - radius - BRIEF_AVERAGE_RADIUS_PX >= 0
        && cx + radius + BRIEF_AVERAGE_RADIUS_PX < width && cy + radius + BRIEF_AVERAGE_RADIUS_PX < height
}

/// FAST threshold used on ORB pyramid level `level_idx`: two lower per level, never below 6.
pub fn orb_fast_threshold_for_level(base_threshold: u8, level_idx: usize) -> (r: u8)
    requires
        level_idx * 2 <= i32::MAX,
    ensures
        r as int == if base_threshold - 2 * level_idx >= 6 { base_threshold - 2 * level_idx } else { 6 },
{
    let relaxed = base_threshold as i32 - level_idx as i32 * 2;
    let relaxed = if relaxed >= 6 { relaxed } else { 6 };
    relaxed as u8
}

} // verus!
