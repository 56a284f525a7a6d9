//! Pixel work for the app icon: resampling to the sizes the shell draws at, and the colour
//! layout a Windows icon bitmap wants.

use vstd::prelude::*;

verus! {

/// `c` scaled by `a / 255`, rounding down: a channel premultiplied by its alpha.
pub open spec fn premultiply(c: u8, a: u8) -> int {
    (c as int * a as int) / 255
}

/// One pixel as premultiplied BGRA packed into a `u32` (`0xAARRGGBB`, little-endian, so B,G,R,A
/// in memory).
pub open spec fn bgra_pixel(r: u8, g: u8, b: u8, a: u8) -> int {
    a as int * 0x100_0000 + premultiply(r, a) * 0x1_0000 + premultiply(g, a) * 0x100 + premultiply(
        b,
        a,
    )
}

/// Straight-alpha RGBA to premultiplied BGRA, one `u32` per whole pixel (trailing bytes that do
/// not make a whole pixel are ignored). That is the layout a Windows icon's colour bitmap is
/// blended as.
pub fn premultiplied_bgra(rgba: &[u8]) -> (r: Vec<u32>)
    ensures
        r@.len() == rgba@.len() / 4,
        forall|i: int|
            0 <= i < r@.len() ==> #[trigger] r@[i] as int == bgra_pixel(
                rgba@[4 * i],
                rgba@[4 * i + 1],
                rgba@[4 * i + 2],
                rgba@[4 * i + 3],
            ),
{
    let n = rgba.len() / 4;
    assert(4 * n <= rgba@.len()) by (nonlinear_arith)
        requires
            n == rgba@.len() / 4,
    ;
    let mut out: Vec<u32> = Vec::new();
    let mut i: usize = 0;
    while i < n
        invariant
            n == rgba@.len() / 4,
            4 * n <= rgba@.len(),
            i <= n,
            out@.len() == i,
            forall|j: int|
                0 <= j < i ==> #[trigger] out@[j] as int == bgra_pixel(
                    rgba@[4 * j],
                    rgba@[4 * j + 1],
                    rgba@[4 * j + 2],
                    rgba@[4 * j + 3],
                ),
        decreases n - i,
    {
        assert(4 * i + 3 < rgba@.len()) by (nonlinear_arith)
            requires
                i < n,
                4 * n <= rgba@.len(),
        ;
        let len = rgba.len();
        assert(i * 4 < len);
        let k = i * 4;
        let r = rgba[k];
        let g = rgba[k + 1];
        let b = rgba[k + 2];
        let a = rgba[k + 3] as u32;
        proof {
            assert((r as u32) * a <= 255 * 255) by (nonlinear_arith)
                requires
                    r <= 255,
                    a <= 255,
            ;
            assert((g as u32) * a <= 255 * 255) by (nonlinear_arith)
                requires
                    g <= 255,
                    a <= 255,
            ;
            assert((b as u32) * a <= 255 * 255) by (nonlinear_arith)
                requires
                    b <= 255,
                    a <= 255,
            ;
        }
        let pr = (r as u32) * a / 255;
        let pg = (g as u32) * a / 255;
        let pb = (b as u32) * a / 255;
        let px = a << 24 | pr << 16 | pg << 8 | pb;
        assert(px == a * 0x100_0000 + pr * 0x1_0000 + pg * 0x100 + pb) by (bit_vector)
            requires
                px == a << 24 | pr << 16 | pg << 8 | pb,
                a <= 255,
                pr <= 255,
                pg <= 255,
                pb <= 255,
        ;
        out.push(px);
        i += 1;
    }
    out
}


/// An image as plain RGBA bytes: four per pixel, rows top to bottom.
#[derive(Debug, Clone)]
pub struct Image {
    pub rgba: Vec<u8>,
    pub width: u32,
    pub height: u32,
}

impl Image {
    /// An image over the given bytes, taken as they are.
    pub fn new_owned(rgba: Vec<u8>, width: u32, height: u32) -> (r: Image)
        ensures
            r.rgba@ == rgba@,
            r.width == width,
            r.height == height,
    {
        Image { rgba, width, height }
    }

    pub fn width(&self) -> (r: u32)
        ensures
            r == self.width,
    {
        self.width
    }

    pub fn height(&self) -> (r: u32)
        ensures
            r == self.height,
    {
        self.height
    }

    pub fn rgba(&self) -> (r: &[u8])
        ensures
            r@ == self.rgba@,
    {
        self.rgba.as_slice()
    }
}

/// Where destination row (or column) `i` of `d` starts in a source of `s`: `i * s / d`.
pub open spec fn lo_edge(i: int, s: int, d: int) -> int {
    i * s / d
}

/// Where destination row (or column) `i` of `d` ends in a source of `s`: `(i + 1) * s / d`, but
/// always at least one past its start, so that scaling up still reads one source pixel.
pub open spec fn hi_edge(i: int, s: int, d: int) -> int {
    let e = (i + 1) * s / d;
    if e > lo_edge(i, s, d) {
        e
    } else {
        lo_edge(i, s, d) + 1
    }
}

/// Channel `k` of the source pixel at (`x`, `y`) weighted by that pixel's alpha; for `k == 3`,
/// the alpha itself.
pub open spec fn weighted(src: Seq<u8>, sw: int, x: int, y: int, k: int) -> int {
    let p = (y * sw + x) * 4;
    if k == 3 {
        src[p + 3] as int
    } else {
        src[p + k] as int * src[p + 3] as int
    }
}

/// The weighted channel `k` summed over columns `x0..x1` of source row `y`.
pub open spec fn row_sum(src: Seq<u8>, sw: int, y: int, x0: int, x1: int, k: int) -> int
    decreases x1 - x0,
{
    if x1 <= x0 {
        0
    } else {
        row_sum(src, sw, y, x0, x1 - 1, k) + weighted(src, sw, x1 - 1, y, k)
    }
}

/// The weighted channel `k` summed over the source rectangle of columns `x0..x1` and rows
/// `y0..y1`.
pub open spec fn box_sum(src: Seq<u8>, sw: int, x0: int, x1: int, y0: int, y1: int, k: int) -> int
    decreases y1 - y0,
{
    if y1 <= y0 {
        0
    } else {
        box_sum(src, sw, x0, x1, y0, y1 - 1, k) + row_sum(src, sw, y1 - 1, x0, x1, k)
    }
}

/// Channel `k` of the average of a source rectangle: colour weighted by alpha (so transparent
/// pixels add no colour, and none at all when the whole rectangle is transparent), alpha the
/// plain mean.
pub open spec fn box_average(src: Seq<u8>, sw: int, x0: int, x1: int, y0: int, y1: int, k: int) -> int {
    let alpha = box_sum(src, sw, x0, x1, y0, y1, 3);
    if k == 3 {
        alpha / ((y1 - y0) * (x1 - x0))
    } else if alpha == 0 {
        0
    } else {
        box_sum(src, sw, x0, x1, y0, y1, k) / alpha
    }
}

/// Byte `i` of a `sw` x `sh` image resampled to `w` x `h`: channel `i % 4` of the average of
/// the source rectangle under destination pixel `i / 4`.
pub open spec fn scaled_byte(src: Seq<u8>, sw: int, sh: int, w: int, h: int, i: int) -> int {
    let x = (i / 4) % w;
    let y = (i / 4) / w;
    box_average(
        src,
        sw,
        lo_edge(x, sw, w),
        hi_edge(x, sw, w),
        lo_edge(y, sh, h),
        hi_edge(y, sh, h),
        i % 4,
    )
}

/// Resampling leaves an image as it is when the size does not change or either size is empty.
pub open spec fn keeps_size(sw: int, sh: int, w: int, h: int) -> bool {
    (sw == w && sh == h) || sw == 0 || sh == 0 || w == 0 || h == 0
}


/// Every destination row of a non-empty scale starts inside the source and ends after its start,
/// at most at the source's end.
proof fn lemma_edges(i: int, s: int, d: int)
    requires
        0 <= i < d,
        0 < s,
    ensures
        0 <= lo_edge(i, s, d) < hi_edge(i, s, d) <= s,
{
    assert(0 <= i * s / d < s) by (nonlinear_arith)
        requires
            0 <= i < d,
            0 < s,
    ;
    assert((i + 1) * s / d <= s) by (nonlinear_arith)
        requires
            0 <= i < d,
            0 < s,
    ;
}

/// The start and end of destination row (or column) `i` of `d` in a source of `s`.
fn edges(i: u32, s: u32, d: u32) -> (r: (u32, u32))
    requires
        i < d,
        0 < s,
        d * s <= u32::MAX,
    ensures
        r.0 == lo_edge(i as int, s as int, d as int),
        r.1 == hi_edge(i as int, s as int, d as int),
        r.0 < r.1 <= s,
{
    proof {
        lemma_edges(i as int, s as int, d as int);
        assert(i * s <= (i + 1) * s <= d * s) by (nonlinear_arith)
            requires
                i < d,
        ;
    }
    let lo = i * s / d;
    let e = (i + 1) * s / d;
    let hi = if e > lo {
        e
    } else {
        lo + 1
    };
    (lo, hi)
}

/// A row of pixels never weighs a colour by more than its alpha allows: each channel sums to at
/// most 255 times the alphas, and the alphas to at most 255 per pixel.
proof fn lemma_row_sum_bounds(src: Seq<u8>, sw: int, y: int, x0: int, x1: int, k: int)
    requires
        x0 <= x1,
        0 <= k < 4,
    ensures
        0 <= row_sum(src, sw, y, x0, x1, k),
        k < 3 ==> row_sum(src, sw, y, x0, x1, k) <= 255 * row_sum(src, sw, y, x0, x1, 3),
        k == 3 ==> row_sum(src, sw, y, x0, x1, 3) <= 255 * (x1 - x0),
    decreases x1 - x0,
{
    if x1 > x0 {
        lemma_row_sum_bounds(src, sw, y, x0, x1 - 1, k);
        lemma_row_sum_bounds(src, sw, y, x0, x1 - 1, 3);
        let p = (y * sw + (x1 - 1)) * 4;
        let c = src[p + k] as int;
        let a = src[p + 3] as int;
        assert(0 <= c * a <= 255 * a) by (nonlinear_arith)
            requires
                0 <= c <= 255,
                0 <= a,
        ;
    }
}

/// The same bounds over a rectangle of rows.
proof fn lemma_box_sum_bounds(src: Seq<u8>, sw: int, x0: int, x1: int, y0: int, y1: int, k: int)
    requires
        x0 <= x1,
        y0 <= y1,
        0 <= k < 4,
    ensures
        0 <= box_sum(src, sw, x0, x1, y0, y1, k),
        k < 3 ==> box_sum(src, sw, x0, x1, y0, y1, k) <= 255 * box_sum(src, sw, x0, x1, y0, y1, 3),
        k == 3 ==> box_sum(src, sw, x0, x1, y0, y1, 3) <= 255 * ((y1 - y0) * (x1 - x0)),
    decreases y1 - y0,
{
    if y1 > y0 {
        lemma_box_sum_bounds(src, sw, x0, x1, y0, y1 - 1, k);
        lemma_box_sum_bounds(src, sw, x0, x1, y0, y1 - 1, 3);
        lemma_row_sum_bounds(src, sw, y1 - 1, x0, x1, k);
        lemma_row_sum_bounds(src, sw, y1 - 1, x0, x1, 3);
        assert((y1 - 1 - y0) * (x1 - x0) + (x1 - x0) == (y1 - y0) * (x1 - x0)) by (nonlinear_arith);
    }
}

/// Summing more columns of a row never gives less.
proof fn lemma_row_sum_grows(src: Seq<u8>, sw: int, y: int, x0: int, x: int, x1: int, k: int)
    requires
        x0 <= x <= x1,
        0 <= k < 4,
    ensures
        row_sum(src, sw, y, x0, x, k) <= row_sum(src, sw, y, x0, x1, k),
    decreases x1 - x,
{
    if x < x1 {
        lemma_row_sum_grows(src, sw, y, x0, x, x1 - 1, k);
        let p = (y * sw + (x1 - 1)) * 4;
        assert(0 <= src[p + k] as int * src[p + 3] as int) by (nonlinear_arith);
    }
}

/// Summing more rows of a rectangle never gives less.
proof fn lemma_box_sum_grows(src: Seq<u8>, sw: int, x0: int, x1: int, y0: int, y: int, y1: int, k: int)
    requires
        x0 <= x1,
        y0 <= y <= y1,
        0 <= k < 4,
    ensures
        box_sum(src, sw, x0, x1, y0, y, k) <= box_sum(src, sw, x0, x1, y0, y1, k),
    decreases y1 - y,
{
    if y < y1 {
        lemma_box_sum_grows(src, sw, x0, x1, y0, y, y1 - 1, k);
        lemma_row_sum_bounds(src, sw, y1 - 1, x0, x1, k);
    }
}


/// While a rectangle is being summed, what has been added so far stays within what the whole
/// rectangle adds up to, which is small enough for a `u64`.
proof fn lemma_partial_sum_fits(
    src: Seq<u8>,
    sw: int,
    sh: int,
    x0: int,
    x1: int,
    y0: int,
    y1: int,
    sx: int,
    sy: int,
    k: int,
)
    requires
        0 <= x0 <= sx < x1 <= sw,
        0 <= y0 <= sy < y1 <= sh,
        sw * sh * 4 <= u32::MAX,
        0 <= k < 4,
    ensures
        box_sum(src, sw, x0, x1, y0, sy, k) + row_sum(src, sw, sy, x0, sx + 1, k) <= 65025
            * 0x4000_0000,
{
    lemma_row_sum_grows(src, sw, sy, x0, sx + 1, x1, k);
    lemma_box_sum_grows(src, sw, x0, x1, y0, sy + 1, y1, k);
    lemma_box_sum_bounds(src, sw, x0, x1, y0, y1, k);
    lemma_box_sum_bounds(src, sw, x0, x1, y0, y1, 3);
    let n = (y1 - y0) * (x1 - x0);
    assert(n <= 0x4000_0000) by (nonlinear_arith)
        requires
            n == (y1 - y0) * (x1 - x0),
            0 < y1 - y0 <= sh,
            0 < x1 - x0 <= sw,
            sw * sh * 4 <= u32::MAX,
    ;
    assert(255 * (255 * n) <= 65025 * 0x4000_0000) by (nonlinear_arith)
        requires
            0 <= n <= 0x4000_0000,
    ;
}

/// Source pixel (`sx`, `sy`) of a `sw` x `sh` image lies inside its bytes.
proof fn lemma_pixel_in_source(sx: int, sy: int, sw: int, sh: int)
    requires
        0 <= sx < sw,
        0 <= sy < sh,
    ensures
        0 <= (sy * sw + sx) * 4,
        (sy * sw + sx) * 4 + 3 < sw * sh * 4,
{
    assert(0 <= sy * sw + sx < sw * sh) by (nonlinear_arith)
        requires
            0 <= sx < sw,
            0 <= sy < sh,
    ;
}

/// The four channels of the average of the source rectangle of columns `x0..x1` and rows
/// `y0..y1`.
fn average_box(src: &[u8], sw: u32, sh: u32, x0: u32, x1: u32, y0: u32, y1: u32) -> (r: (
    u8,
    u8,
    u8,
    u8,
))
    requires
        x0 < x1 <= sw,
        y0 < y1 <= sh,
        src@.len() == sw * sh * 4,
        sw * sh * 4 <= u32::MAX,
    ensures
        r.0 == box_average(src@, sw as int, x0 as int, x1 as int, y0 as int, y1 as int, 0),
        r.1 == box_average(src@, sw as int, x0 as int, x1 as int, y0 as int, y1 as int, 1),
        r.2 == box_average(src@, sw as int, x0 as int, x1 as int, y0 as int, y1 as int, 2),
        r.3 == box_average(src@, sw as int, x0 as int, x1 as int, y0 as int, y1 as int, 3),
{
    let ghost s = src@;
    let ghost (gx0, gx1, gy0, gy1) = (x0 as int, x1 as int, y0 as int, y1 as int);
    let mut rr: u64 = 0;
    let mut gg: u64 = 0;
    let mut bb: u64 = 0;
    let mut aa: u64 = 0;
    let mut sy = y0;
    while sy < y1
        invariant
            x0 < x1 <= sw,
            y0 <= sy <= y1 <= sh,
            src@ == s,
            s.len() == sw * sh * 4,
            sw * sh * 4 <= u32::MAX,
            gx0 == x0 && gx1 == x1 && gy0 == y0 && gy1 == y1,
            rr == box_sum(s, sw as int, gx0, gx1, gy0, sy as int, 0),
            gg == box_sum(s, sw as int, gx0, gx1, gy0, sy as int, 1),
            bb == box_sum(s, sw as int, gx0, gx1, gy0, sy as int, 2),
            aa == box_sum(s, sw as int, gx0, gx1, gy0, sy as int, 3),
        decreases y1 - sy,
    {
        let mut sx = x0;
        while sx < x1
            invariant
                x0 <= sx <= x1 <= sw,
                y0 <= sy < y1 <= sh,
                src@ == s,
                s.len() == sw * sh * 4,
                sw * sh * 4 <= u32::MAX,
                gx0 == x0 && gx1 == x1 && gy0 == y0 && gy1 == y1,
                rr == box_sum(s, sw as int, gx0, gx1, gy0, sy as int, 0) + row_sum(
                    s,
                    sw as int,
                    sy as int,
                    gx0,
                    sx as int,
                    0,
                ),
                gg == box_sum(s, sw as int, gx0, gx1, gy0, sy as int, 1) + row_sum(
                    s,
                    sw as int,
                    sy as int,
                    gx0,
                    sx as int,
                    1,
                ),
                bb == box_sum(s, sw as int, gx0, gx1, gy0, sy as int, 2) + row_sum(
                    s,
                    sw as int,
                    sy as int,
                    gx0,
                    sx as int,
                    2,
                ),
                aa == box_sum(s, sw as int, gx0, gx1, gy0, sy as int, 3) + row_sum(
                    s,
                    sw as int,
                    sy as int,
                    gx0,
                    sx as int,
                    3,
                ),
            decreases x1 - sx,
        {
            proof {
                lemma_pixel_in_source(sx as int, sy as int, sw as int, sh as int);
                lemma_partial_sum_fits(s, sw as int, sh as int, gx0, gx1, gy0, gy1, sx as int, sy as int, 0);
                lemma_partial_sum_fits(s, sw as int, sh as int, gx0, gx1, gy0, gy1, sx as int, sy as int, 1);
                lemma_partial_sum_fits(s, sw as int, sh as int, gx0, gx1, gy0, gy1, sx as int, sy as int, 2);
                lemma_partial_sum_fits(s, sw as int, sh as int, gx0, gx1, gy0, gy1, sx as int, sy as int, 3);
            }
            let p = ((sy as u64 * sw as u64 + sx as u64) * 4) as usize;
            let a = src[p + 3] as u64;
            let r = src[p] as u64;
            let g = src[p + 1] as u64;
            let b = src[p + 2] as u64;
            proof {
                assert(r * a <= 65025 && g * a <= 65025 && b * a <= 65025) by (nonlinear_arith)
                    requires
                        r <= 255,
                        g <= 255,
                        b <= 255,
                        a <= 255,
                ;
            }
            rr = rr + r * a;
            gg = gg + g * a;
            bb = bb + b * a;
            aa = aa + a;
            sx += 1;
        }
        sy += 1;
    }
    proof {
        lemma_box_sum_bounds(s, sw as int, gx0, gx1, gy0, gy1, 0);
        lemma_box_sum_bounds(s, sw as int, gx0, gx1, gy0, gy1, 1);
        lemma_box_sum_bounds(s, sw as int, gx0, gx1, gy0, gy1, 2);
        lemma_box_sum_bounds(s, sw as int, gx0, gx1, gy0, gy1, 3);
        assert((y1 - y0) * (x1 - x0) <= 0x4000_0000 && 0 < (y1 - y0) * (x1 - x0)) by (nonlinear_arith)
            requires
                0 < y1 - y0 <= sh,
                0 < x1 - x0 <= sw,
                sw * sh * 4 <= u32::MAX,
        ;
    }
    let n = (y1 - y0) as u64 * (x1 - x0) as u64;
    proof {
        assert(aa / n <= 255) by (nonlinear_arith)
            requires
                aa <= 255 * n,
                n > 0,
        ;
        if aa > 0 {
            assert(rr / aa <= 255 && gg / aa <= 255 && bb / aa <= 255) by (nonlinear_arith)
                requires
                    rr <= 255 * aa,
                    gg <= 255 * aa,
                    bb <= 255 * aa,
                    aa > 0,
            ;
        }
    }
    let alpha = (aa / n) as u8;
    if aa == 0 {
        (0, 0, 0, alpha)
    } else {
        ((rr / aa) as u8, (gg / aa) as u8, (bb / aa) as u8, alpha)
    }
}


/// Byte `4 * (y * w + x) + k` is channel `k` of destination pixel (`x`, `y`).
proof fn lemma_byte_position(x: int, y: int, w: int, k: int)
    requires
        0 <= x < w,
        0 <= y,
        0 <= k < 4,
    ensures
        (4 * (y * w + x) + k) / 4 == y * w + x,
        (4 * (y * w + x) + k) % 4 == k,
        (y * w + x) / w == y,
        (y * w + x) % w == x,
{
    vstd::arithmetic::div_mod::lemma_fundamental_div_mod_converse(
        4 * (y * w + x) + k,
        4,
        y * w + x,
        k,
    );
    vstd::arithmetic::div_mod::lemma_fundamental_div_mod_converse(y * w + x, w, y, x);
}

/// Resamples to `w` x `h` by averaging the source rectangle under each destination pixel, colour
/// weighted by alpha so that transparent pixels cannot pull an edge towards whatever colour they
/// carry. An image whose size does not change, or with an empty side on either end, comes back
/// as it is.
pub fn scaled(img: &Image, w: u32, h: u32) -> (out: Image)
    requires
        !keeps_size(img.width as int, img.height as int, w as int, h as int) ==> img.rgba@.len()
            == img.width * img.height * 4,
        !keeps_size(img.width as int, img.height as int, w as int, h as int) ==> img.width
            * img.height * 4 <= u32::MAX,
        !keeps_size(img.width as int, img.height as int, w as int, h as int) ==> w * h * 4
            <= u32::MAX,
        !keeps_size(img.width as int, img.height as int, w as int, h as int) ==> h * img.height
            <= u32::MAX,
        !keeps_size(img.width as int, img.height as int, w as int, h as int) ==> w * img.width
            <= u32::MAX,
    ensures
        keeps_size(img.width as int, img.height as int, w as int, h as int) ==> out.rgba@
            == img.rgba@,
        keeps_size(img.width as int, img.height as int, w as int, h as int) ==> out.width
            == img.width && out.height == img.height,
        !keeps_size(img.width as int, img.height as int, w as int, h as int) ==> out.width == w
            && out.height == h,
        !keeps_size(img.width as int, img.height as int, w as int, h as int) ==> out.rgba@.len()
            == w * h * 4,
        !keeps_size(img.width as int, img.height as int, w as int, h as int) ==> forall|i: int|
            0 <= i < w * h * 4 ==> #[trigger] out.rgba@[i] as int == scaled_byte(
                img.rgba@,
                img.width as int,
                img.height as int,
                w as int,
                h as int,
                i,
            ),
{
    let sw = img.width;
    let sh = img.height;
    if (sw == w && sh == h) || sw == 0 || sh == 0 || w == 0 || h == 0 {
        let rgba = img.rgba.clone();
        proof {
            assert(rgba@ =~= img.rgba@);
        }
        return Image { rgba, width: sw, height: sh };
    }
    let src = img.rgba.as_slice();
    let ghost s = src@;
    let mut out: Vec<u8> = Vec::new();
    let mut y: u32 = 0;
    while y < h
        invariant
            0 < sw && 0 < sh && 0 < w && 0 < h,
            s == img.rgba@ && src@ == s,
            s.len() == sw * sh * 4,
            sw * sh * 4 <= u32::MAX,
            w * h * 4 <= u32::MAX,
            h * sh <= u32::MAX,
            w * sw <= u32::MAX,
            y <= h,
            out@.len() == 4 * (y * w),
            forall|i: int|
                0 <= i < out@.len() ==> #[trigger] out@[i] as int == scaled_byte(
                    s,
                    sw as int,
                    sh as int,
                    w as int,
                    h as int,
                    i,
                ),
        decreases h - y,
    {
        let (y0, y1) = edges(y, sh, h);
        let mut x: u32 = 0;
        while x < w
            invariant
                0 < sw && 0 < sh && 0 < w && 0 < h,
                src@ == s,
                s.len() == sw * sh * 4,
                sw * sh * 4 <= u32::MAX,
                w * h * 4 <= u32::MAX,
                w * sw <= u32::MAX,
                y < h,
                y0 == lo_edge(y as int, sh as int, h as int),
                y1 == hi_edge(y as int, sh as int, h as int),
                y0 < y1 <= sh,
                x <= w,
                out@.len() == 4 * (y * w + x),
                forall|i: int|
                    0 <= i < out@.len() ==> #[trigger] out@[i] as int == scaled_byte(
                        s,
                        sw as int,
                        sh as int,
                        w as int,
                        h as int,
                        i,
                    ),
            decreases w - x,
        {
            let (x0, x1) = edges(x, sw, w);
            let (r, g, b, a) = average_box(src, sw, sh, x0, x1, y0, y1);
            let ghost start = out@.len() as int;
            proof {
                lemma_byte_position(x as int, y as int, w as int, 0);
                lemma_byte_position(x as int, y as int, w as int, 1);
                lemma_byte_position(x as int, y as int, w as int, 2);
                lemma_byte_position(x as int, y as int, w as int, 3);
            }
            out.push(r);
            out.push(g);
            out.push(b);
            out.push(a);
            proof {
                assert forall|i: int| 0 <= i < out@.len() implies #[trigger] out@[i] as int
                    == scaled_byte(s, sw as int, sh as int, w as int, h as int, i) by {
                    if i >= start {
                        assert(start == 4 * (y * w + x));
                    }
                }
            }
            x += 1;
        }
        proof {
            assert(4 * (y * w + w) == 4 * ((y + 1) * w)) by (nonlinear_arith);
        }
        y += 1;
    }
    proof {
        assert(4 * (h * w) == w * h * 4) by (nonlinear_arith);
    }
    Image { rgba: out, width: w, height: h }
}

} // verus!
