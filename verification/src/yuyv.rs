//! Pixel-format conversion into packed RGB8 rows, with the horizontal mirror
//! folded into the conversion.
//!
//! All conversions use BT.601 limited-range fixed-point coefficients scaled by
//! 1024; the scaled sum is divided by 1024 rounding toward zero and clamped to
//! a byte.

use vstd::arithmetic::div_mod::lemma_fundamental_div_mod_converse;
use vstd::prelude::*;

verus! {

/// Luma scale (1.164 * 1024).
pub const K_Y: i32 = 1192;
/// V contribution to red (1.596 * 1024).
pub const K_V_R: i32 = 1634;
/// V contribution subtracted from green (0.813 * 1024).
pub const K_V_G: i32 = 833;
/// U contribution subtracted from green (0.391 * 1024).
pub const K_U_G: i32 = 400;
/// U contribution to blue (2.018 * 1024).
pub const K_U_B: i32 = 2066;

/// `v` clamped into `0..=255`.
pub open spec fn clamp_byte(v: int) -> u8 {
    if v < 0 {
        0u8
    } else if v > 255 {
        255u8
    } else {
        v as u8
    }
}

/// `v / 1024`, rounding toward zero.
pub open spec fn div_toward_zero(v: int) -> int {
    if v < 0 {
        -((-v) / 1024)
    } else {
        v / 1024
    }
}

/// Clamps an intermediate colour value into a byte.
pub fn clamp8(v: i32) -> (r: u8)
    ensures
        r == clamp_byte(v as int),
{
    if v < 0 {
        0
    } else if v > 255 {
        255
    } else {
        v as u8
    }
}


/// `x` is representable as an `i32`.
pub open spec fn fits_i32(x: int) -> bool {
    i32::MIN <= x <= i32::MAX
}

/// Scaled luma term shared by the three channels.
pub open spec fn luma_term(y: int) -> int {
    K_Y * (y - 16)
}

/// Scaled red value, before division and clamping.
pub open spec fn red_sum(y: int, v: int) -> int {
    luma_term(y) + K_V_R * v
}

/// Scaled green value, before division and clamping.
pub open spec fn green_sum(y: int, u: int, v: int) -> int {
    luma_term(y) - K_V_G * v - K_U_G * u
}

/// Scaled blue value, before division and clamping.
pub open spec fn blue_sum(y: int, u: int) -> int {
    luma_term(y) + K_U_B * u
}

/// The RGB bytes of one pixel with luma `y` and centred chroma `u`, `v`.
pub open spec fn rgb_of(y: int, u: int, v: int) -> Seq<u8> {
    seq![
        clamp_byte(div_toward_zero(red_sum(y, v))),
        clamp_byte(div_toward_zero(green_sum(y, u, v))),
        clamp_byte(div_toward_zero(blue_sum(y, u))),
    ]
}

/// Every intermediate of the fixed-point conversion of `(y, u, v)` fits an
/// `i32`, and each scaled sum is above `i32::MIN` (which has no negation).
pub open spec fn convert_fits(y: int, u: int, v: int) -> bool {
    &&& fits_i32(y - 16)
    &&& fits_i32(luma_term(y))
    &&& fits_i32(K_V_R * v)
    &&& fits_i32(K_V_G * v)
    &&& fits_i32(K_U_G * u)
    &&& fits_i32(K_U_B * u)
    &&& fits_i32(luma_term(y) - K_V_G * v)
    &&& i32::MIN < red_sum(y, v) <= i32::MAX
    &&& i32::MIN < green_sum(y, u, v) <= i32::MAX
    &&& i32::MIN < blue_sum(y, u) <= i32::MAX
}

/// Sample values taken from bytes (`y` a byte, `u`, `v` a byte minus 128)
/// never overflow the conversion.
pub proof fn lemma_byte_samples_fit(y: int, u: int, v: int)
    requires
        0 <= y <= 255,
        -128 <= u <= 127,
        -128 <= v <= 127,
    ensures
        convert_fits(y, u, v),
{
}

/// Divides by 1024, rounding toward zero.
pub fn div_scale(v: i32) -> (r: i32)
    requires
        v > i32::MIN,
    ensures
        r == div_toward_zero(v as int),
{
    let neg = v < 0;
    let abs = if neg {
        -v
    } else {
        v
    };
    let au = abs as u32;
    let q = (au >> 10) as i32;
    proof {
        assert(au >> 10 == au / 1024) by (bit_vector);
    }
    if neg {
        -q
    } else {
        q
    }
}

/// Converts one pixel: luma `y` and centred chroma `u`, `v` to RGB.
pub fn convert(y: i32, u: i32, v: i32) -> (rgb: [u8; 3])
    requires
        convert_fits(y as int, u as int, v as int),
    ensures
        rgb@ == rgb_of(y as int, u as int, v as int),
{
    let base = K_Y * (y - 16);
    let r = div_scale(base + K_V_R * v);
    let g = div_scale(base - K_V_G * v - K_U_G * u);
    let b = div_scale(base + K_U_B * u);
    let out = [clamp8(r), clamp8(g), clamp8(b)];
    assert(out@ =~= rgb_of(y as int, u as int, v as int));
    out
}


/// Output column that receives source column `c` of a row `w` pixels wide.
/// Mirroring is its own inverse: the same map takes output columns back to
/// source columns.
pub open spec fn dest_col(w: int, c: int, mirror: bool) -> int {
    if mirror {
        w - 1 - c
    } else {
        c
    }
}

/// Byte `k` of packed RGB pixel `p` in `s`.
pub open spec fn pixel_byte(s: Seq<u8>, p: int, k: int) -> u8 {
    s[p * 3 + k]
}

/// Byte `k` of output pixel `p` of a frame `w` pixels wide, whose source
/// pixels are `px(row, column)`.
pub open spec fn frame_byte(
    w: int,
    mirror: bool,
    px: spec_fn(int, int) -> Seq<u8>,
    p: int,
    k: int,
) -> u8 {
    px(p / w, dest_col(w, p % w, mirror))[k]
}

/// The packed RGB8 frame, `w` by `h`, whose source pixel at `(row, column)`
/// is `px(row, column)`; with `mirror` each row is flipped horizontally.
pub open spec fn frame_seq(w: nat, h: nat, mirror: bool, px: spec_fn(int, int) -> Seq<u8>) -> Seq<
    u8,
> {
    Seq::new(w * h * 3, |i: int| frame_byte(w as int, mirror, px, i / 3, i % 3))
}

/// RGB of pixel `(r, c)` of a YUYV frame `w` pixels wide: each 4-byte group
/// `Y0 U Y1 V` covers two pixels that share the chroma.
#[verifier::opaque]
pub open spec fn yuyv_pixel(src: Seq<u8>, w: int, r: int, c: int) -> Seq<u8> {
    let pair = (r * w + c - c % 2) * 2;
    rgb_of(src[(r * w + c) * 2] as int, src[pair + 1] - 128, src[pair + 3] - 128)
}

/// The source pixels of a YUYV frame `w` pixels wide.
pub open spec fn yuyv_pixels(src: Seq<u8>, w: int) -> spec_fn(int, int) -> Seq<u8> {
    |r: int, c: int| yuyv_pixel(src, w, r, c)
}

/// The RGB8 frame that a YUYV frame converts to.
pub open spec fn yuyv_frame(src: Seq<u8>, w: nat, h: nat, mirror: bool) -> Seq<u8> {
    frame_seq(w, h, mirror, yuyv_pixels(src, w as int))
}

/// Pixel `r * w + c` of a frame `w` pixels wide lies in row `r`, column `c`.
pub proof fn lemma_row_col(w: int, r: int, c: int)
    requires
        0 <= c < w,
    ensures
        (r * w + c) / w == r,
        (r * w + c) % w == c,
{
    lemma_fundamental_div_mod_converse(r * w + c, w, r, c);
}

/// `r + 1` rows of `w` fit in `h` rows when `r < h`.
pub proof fn lemma_rows_fit(w: int, r: int, h: int)
    requires
        0 <= w,
        0 <= r < h,
    ensures
        r * w + w <= h * w,
        0 <= r * w,
{
    assert(r * w + w <= h * w) by (nonlinear_arith)
        requires
            0 <= w,
            0 <= r < h,
    ;
    assert(0 <= r * w) by (nonlinear_arith)
        requires
            0 <= w,
            0 <= r,
    ;
}

/// Writes one RGB pixel at byte offset `o`.
fn put_rgb(dst: &mut [u8], o: usize, rgb: [u8; 3])
    requires
        o + 3 <= old(dst)@.len(),
    ensures
        final(dst)@ == old(dst)@.update(o as int, rgb@[0]).update(o + 1, rgb@[1]).update(
            o + 2,
            rgb@[2],
        ),
{
    dst[o] = rgb[0];
    dst[o + 1] = rgb[1];
    dst[o + 2] = rgb[2];
}


/// Every pixel before `row_base`, and every pixel of the row starting at
/// `row_base` whose source column is below `x`, already holds its frame bytes.
pub open spec fn rows_done(
    dst: Seq<u8>,
    w: int,
    mirror: bool,
    px: spec_fn(int, int) -> Seq<u8>,
    row_base: int,
    x: int,
) -> bool {
    forall|p: int, k: int|
        0 <= k < 3 && 0 <= p && (p < row_base || (row_base <= p < row_base + w && dest_col(
            w,
            p - row_base,
            mirror,
        ) < x)) ==> #[trigger] pixel_byte(dst, p, k) == frame_byte(w, mirror, px, p, k)
}

/// Once every column of the row at `row_base` is stored, all pixels before the
/// next row hold their frame bytes.
proof fn lemma_row_finished(
    dst: Seq<u8>,
    w: int,
    mirror: bool,
    px: spec_fn(int, int) -> Seq<u8>,
    row: int,
    row_base: int,
    x: int,
)
    requires
        0 <= w,
        0 <= row,
        row_base == row * w,
        x >= w,
        rows_done(dst, w, mirror, px, row_base, x),
    ensures
        rows_done(dst, w, mirror, px, (row + 1) * w, 0),
        (row + 1) * w == row_base + w,
{
    reveal(rows_done);
    assert((row + 1) * w == row * w + w) by (nonlinear_arith);
    assert forall|p: int, k: int|
        0 <= k < 3 && 0 <= p && (p < (row + 1) * w || ((row + 1) * w <= p < (row + 1) * w + w
            && dest_col(w, p - (row + 1) * w, mirror) < 0)) implies #[trigger] pixel_byte(
        dst,
        p,
        k,
    ) == frame_byte(w, mirror, px, p, k) by {
        if p >= row_base {
            assert(dest_col(w, p - row_base, mirror) < x);
        }
    }
}

/// Once `x` reaches the width, raising it changes nothing.
proof fn lemma_row_done_past_end(
    dst: Seq<u8>,
    w: int,
    mirror: bool,
    px: spec_fn(int, int) -> Seq<u8>,
    row_base: int,
    x: int,
    x2: int,
)
    requires
        x >= w,
        rows_done(dst, w, mirror, px, row_base, x),
    ensures
        rows_done(dst, w, mirror, px, row_base, x2),
{
    reveal(rows_done);
    assert forall|p: int, k: int|
        0 <= k < 3 && 0 <= p && (p < row_base || (row_base <= p < row_base + w && dest_col(
            w,
            p - row_base,
            mirror,
        ) < x2)) implies #[trigger] pixel_byte(dst, p, k) == frame_byte(w, mirror, px, p, k) by {
        if p >= row_base {
            assert(dest_col(w, p - row_base, mirror) < x);
        }
    }
}

/// Stores source column `c` of row `y` at its output position.
fn store_pixel(
    dst: &mut [u8],
    width: usize,
    y: usize,
    row_base: usize,
    c: usize,
    rgb: [u8; 3],
    mirror: bool,
    Ghost(px): Ghost<spec_fn(int, int) -> Seq<u8>>,
)
    requires
        c < width,
        row_base == y * width,
        (row_base + width) * 3 <= old(dst)@.len(),
        rgb@ == px(y as int, c as int),
        rows_done(old(dst)@, width as int, mirror, px, row_base as int, c as int),
    ensures
        final(dst)@.len() == old(dst)@.len(),
        rows_done(final(dst)@, width as int, mirror, px, row_base as int, c + 1),
        forall|i: int|
            (row_base + width) * 3 <= i < old(dst)@.len() ==> final(dst)@[i] == old(dst)@[i],
{
    let dx = if mirror {
        width - 1 - c
    } else {
        c
    };
    let ghost before = dst@;
    let ghost w = width as int;
    let dst_len = dst.len();
    assert((row_base + dx) * 3 + 3 <= dst_len);
    put_rgb(dst, (row_base + dx) * 3, rgb);
    proof {
        reveal(rows_done);
        lemma_row_col(w, y as int, dx as int);
        assert forall|p: int, k: int|
            0 <= k < 3 && 0 <= p && (p < row_base || (row_base <= p < row_base + w && dest_col(
                w,
                p - row_base,
                mirror,
            ) < c + 1)) implies #[trigger] pixel_byte(dst@, p, k) == frame_byte(
            w,
            mirror,
            px,
            p,
            k,
        ) by {
            if p == row_base + dx {
            } else {
                assert(pixel_byte(dst@, p, k) == pixel_byte(before, p, k));
            }
        }
    }
}

/// Turns the per-pixel facts of a finished frame into the frame itself.
proof fn lemma_frame_done(
    dst: Seq<u8>,
    old_dst: Seq<u8>,
    w: nat,
    h: nat,
    mirror: bool,
    px: spec_fn(int, int) -> Seq<u8>,
)
    requires
        dst.len() == old_dst.len(),
        w * h * 3 <= dst.len(),
        forall|p: int, k: int|
            0 <= k < 3 && 0 <= p < w * h ==> #[trigger] pixel_byte(dst, p, k) == frame_byte(
                w as int,
                mirror,
                px,
                p,
                k,
            ),
        forall|i: int| w * h * 3 <= i < dst.len() ==> dst[i] == old_dst[i],
    ensures
        dst == frame_seq(w, h, mirror, px) + old_dst.skip((w * h * 3) as int),
{
    let f = frame_seq(w, h, mirror, px);
    assert forall|i: int| 0 <= i < w * h * 3 implies dst[i] == f[i] by {
        let p = i / 3;
        let k = i % 3;
        assert(i == p * 3 + k);
        assert(pixel_byte(dst, p, k) == frame_byte(w as int, mirror, px, p, k));
    }
    assert(dst =~= f + old_dst.skip((w * h * 3) as int));
}

/// Converts the 4-byte group at `s`, which holds columns `x` and `x + 1` of
/// row `y`.
#[verifier::spinoff_prover]
fn convert_yuyv_pair(src: &[u8], s: usize, width: usize, y: usize, row_base: usize, x: usize) -> (ab: (
    [u8; 3],
    [u8; 3],
))
    requires
        row_base == y * width,
        x % 2 == 0,
        x < width,
        width % 2 == 0,
        s == (row_base + x) * 2,
        (row_base + width) * 2 <= src@.len(),
    ensures
        ab.0@ == yuyv_pixel(src@, width as int, y as int, x as int),
        ab.1@ == yuyv_pixel(src@, width as int, y as int, x + 1),
{
    let u = src[s + 1] as i32 - 128;
    let v = src[s + 3] as i32 - 128;
    let y0 = src[s] as i32;
    let y1 = src[s + 2] as i32;
    proof {
        lemma_byte_samples_fit(y0 as int, u as int, v as int);
        lemma_byte_samples_fit(y1 as int, u as int, v as int);
        assert((x + 1) % 2 == 1);
        reveal(yuyv_pixel);
    }
    (convert(y0, u, v), convert(y1, u, v))
}

/// Converts a YUYV frame to RGB8, one row at a time, mirroring each row when
/// `mirror` is set. Bytes of `dst` past the frame are left as they were.
pub fn yuyv_to_rgb8_scalar(src: &[u8], dst: &mut [u8], width: usize, height: usize, mirror: bool)
    requires
        width % 2 == 0,
        src@.len() >= width * height * 2,
        old(dst)@.len() >= width * height * 3,
    ensures
        final(dst)@ == yuyv_frame(src@, width as nat, height as nat, mirror) + old(dst)@.skip(
            width * height * 3,
        ),
{
    let ghost px = yuyv_pixels(src@, width as int);
    let ghost w = width as int;
    proof {
        assert(height * w * 2 == width * height * 2 && height * w * 3 == width * height * 3)
            by (nonlinear_arith)
            requires
                w == width,
        ;
    }
    let src_len = src.len();
    let mut s: usize = 0;
    let mut y: usize = 0;
    while y < height
        invariant
            src_len == src@.len(),
            width % 2 == 0,
            height * w * 2 <= src@.len(),
            height * w * 3 <= old(dst)@.len(),
            dst@.len() == old(dst)@.len(),
            px == yuyv_pixels(src@, width as int),
            w == width,
            0 <= y <= height,
            0 <= y * w <= height * w,
            s == y * w * 2,
            rows_done(dst@, w, mirror, px, y * w, 0),
            forall|i: int| y * w * 3 <= i < dst@.len() ==> dst@[i] == old(dst)@[i],
        decreases height - y,
    {
        proof {
            lemma_rows_fit(w, y as int, height as int);
        }
        let row_base = y * width;
        let mut x: usize = 0;
        while x < width
            invariant
                src_len == src@.len(),
                width % 2 == 0,
                x % 2 == 0,
                0 <= x <= width,
                w == width,
                px == yuyv_pixels(src@, width as int),
                y < height,
                row_base == y * w,
                row_base + w <= height * w,
                height * w * 2 <= src@.len(),
                height * w * 3 <= dst@.len(),
                dst@.len() == old(dst)@.len(),
                s == (row_base + x) * 2,
                rows_done(dst@, w, mirror, px, row_base as int, x as int),
                forall|i: int| (row_base + w) * 3 <= i < dst@.len() ==> dst@[i] == old(dst)@[i],
            decreases width - x,
        {
            let (a, b) = convert_yuyv_pair(src, s, width, y, row_base, x);
            store_pixel(dst, width, y, row_base, x, a, mirror, Ghost(px));
            store_pixel(dst, width, y, row_base, x + 1, b, mirror, Ghost(px));
            assert(x + 2 <= width);
            s += 4;
            x += 2;
        }
        proof {
            lemma_row_finished(dst@, w, mirror, px, y as int, row_base as int, x as int);
        }
        y += 1;
    }
    proof {
        reveal(rows_done);
        assert(w * height == width * height);
        lemma_frame_done(dst@, old(dst)@, width as nat, height as nat, mirror, px);
    }
}


/// Converts a YUYV frame (`Y0 U Y1 V` per pixel pair) to packed RGB8,
/// mirroring each row when `mirror` is set. Bytes of `dst` past the frame are
/// left as they were.
pub fn yuyv_to_rgb8(src: &[u8], dst: &mut [u8], width: usize, height: usize, mirror: bool)
    requires
        width % 2 == 0,
        src@.len() >= width * height * 2,
        old(dst)@.len() >= width * height * 3,
    ensures
        final(dst)@ == yuyv_frame(src@, width as nat, height as nat, mirror) + old(dst)@.skip(
            width * height * 3,
        ),
{
    yuyv_to_rgb8_scalar(src, dst, width, height, mirror);
}

/// RGB of pixel `(r, c)` of a planar YU12 (I420) frame `w` pixels wide: one
/// full-resolution luma plane, and U and V planes subsampled by two in both
/// directions, each `w / 2` samples wide.
#[verifier::opaque]
pub open spec fn yuv420_pixel(yp: Seq<u8>, up: Seq<u8>, vp: Seq<u8>, w: int, r: int, c: int) -> Seq<
    u8,
> {
    let uv = (r / 2) * (w / 2) + c / 2;
    rgb_of(yp[r * w + c] as int, up[uv] - 128, vp[uv] - 128)
}

/// The source pixels of a YU12 frame `w` pixels wide.
pub open spec fn yuv420_pixels(yp: Seq<u8>, up: Seq<u8>, vp: Seq<u8>, w: int) -> spec_fn(
    int,
    int,
) -> Seq<u8> {
    |r: int, c: int| yuv420_pixel(yp, up, vp, w, r, c)
}

/// The RGB8 frame that the planes of a YU12 frame convert to.
pub open spec fn yuv420_frame(
    yp: Seq<u8>,
    up: Seq<u8>,
    vp: Seq<u8>,
    w: nat,
    h: nat,
    mirror: bool,
) -> Seq<u8> {
    frame_seq(w, h, mirror, yuv420_pixels(yp, up, vp, w as int))
}

/// Number of chroma samples that converting a `w` by `h` frame reads from each
/// of the U and V planes.
pub open spec fn chroma_samples_read(w: int, h: int) -> int {
    if w == 0 || h == 0 {
        0
    } else {
        ((h - 1) / 2) * (w / 2) + (w + 1) / 2
    }
}

/// Converts pixel `(row, col)` of a YU12 frame, given its centred chroma.
fn convert_yuv420_pixel(
    y_plane: &[u8],
    u: i32,
    v: i32,
    width: usize,
    row: usize,
    row_base: usize,
    col: usize,
    Ghost(up): Ghost<Seq<u8>>,
    Ghost(vp): Ghost<Seq<u8>>,
) -> (rgb: [u8; 3])
    requires
        row_base == row * width,
        col < width,
        row_base + width <= y_plane@.len(),
        0 <= (row / 2) * (width / 2) + col / 2 < up.len(),
        0 <= (row / 2) * (width / 2) + col / 2 < vp.len(),
        u == up[(row / 2) * (width / 2) + col / 2] - 128,
        v == vp[(row / 2) * (width / 2) + col / 2] - 128,
    ensures
        rgb@ == yuv420_pixel(y_plane@, up, vp, width as int, row as int, col as int),
{
    assert(row_base + col < y_plane.len());
    let y = y_plane[row_base + col] as i32;
    proof {
        lemma_byte_samples_fit(y as int, u as int, v as int);
        reveal(yuv420_pixel);
    }
    convert(y, u, v)
}


/// The chroma row of any luma row starts within the samples read.
proof fn lemma_chroma_base(w: int, h: int, row: int)
    requires
        0 <= row < h,
        0 <= w,
    ensures
        0 <= (row / 2) * (w / 2) <= chroma_samples_read(w, h),
{
    assert(0 <= (row / 2) * (w / 2) <= ((h - 1) / 2) * (w / 2)) by (nonlinear_arith)
        requires
            0 <= row < h,
            0 <= w,
    ;
    if w == 0 {
        assert((row / 2) * (w / 2) == 0) by (nonlinear_arith)
            requires
                w == 0,
        ;
    }
}

/// Chroma rows are shared by two luma rows: the chroma row of an earlier
/// luma row starts no later than that of the last one.
pub proof fn lemma_chroma_row_bound(w: int, h: int, row: int, col: int)
    requires
        0 <= row < h,
        0 <= col < w,
    ensures
        0 <= (row / 2) * (w / 2),
        (row / 2) * (w / 2) + col / 2 < chroma_samples_read(w, h),
{
    assert(0 <= (row / 2) * (w / 2) <= ((h - 1) / 2) * (w / 2)) by (nonlinear_arith)
        requires
            0 <= row < h,
            0 <= w,
    ;
}

/// Converts a planar YU12 frame (planes given separately) to RGB8, one row at
/// a time, mirroring each row when `mirror` is set. An odd last column reads
/// the chroma sample after the last full pair. Bytes of `dst` past the frame
/// are left as they were.
pub fn yuv420_to_rgb8_scalar(
    y_plane: &[u8],
    u_plane: &[u8],
    v_plane: &[u8],
    dst: &mut [u8],
    width: usize,
    height: usize,
    mirror: bool,
)
    requires
        y_plane@.len() >= width * height,
        u_plane@.len() >= chroma_samples_read(width as int, height as int),
        v_plane@.len() >= chroma_samples_read(width as int, height as int),
        old(dst)@.len() >= width * height * 3,
    ensures
        final(dst)@ == yuv420_frame(
            y_plane@,
            u_plane@,
            v_plane@,
            width as nat,
            height as nat,
            mirror,
        ) + old(dst)@.skip(width * height * 3),
{
    let ghost px = yuv420_pixels(y_plane@, u_plane@, v_plane@, width as int);
    let ghost w = width as int;
    proof {
        assert(height * w == width * height && height * w * 3 == width * height * 3)
            by (nonlinear_arith)
            requires
                w == width,
        ;
    }
    let y_len = y_plane.len();
    let u_len = u_plane.len();
    let dst_len = dst.len();
    let mut row: usize = 0;
    while row < height
        invariant
            y_len == y_plane@.len(),
            u_len == u_plane@.len(),
            dst_len == dst@.len(),
            y_plane@.len() >= height * w,
            u_plane@.len() >= chroma_samples_read(w, height as int),
            v_plane@.len() >= chroma_samples_read(w, height as int),
            height * w * 3 <= old(dst)@.len(),
            dst@.len() == old(dst)@.len(),
            px == yuv420_pixels(y_plane@, u_plane@, v_plane@, width as int),
            w == width,
            0 <= row <= height,
            0 <= row * w <= height * w,
            rows_done(dst@, w, mirror, px, row * w, 0),
            forall|i: int| row * w * 3 <= i < dst@.len() ==> dst@[i] == old(dst)@[i],
        decreases height - row,
    {
        proof {
            lemma_rows_fit(w, row as int, height as int);
            lemma_chroma_base(w, height as int, row as int);
            assert(w <= height * w) by (nonlinear_arith)
                requires
                    0 <= row < height,
                    0 <= w,
            ;
        }
        let row_base = row * width;
        let uv_base = (row / 2) * (width / 2);
        let mut uv_idx: usize = 0;
        let mut col: usize = 0;
        while col < width
            invariant
                y_len == y_plane@.len(),
                u_len == u_plane@.len(),
                dst_len == dst@.len(),
                w * 3 <= dst_len,
                col % 2 == 0,
                0 <= col <= width + 1,
                uv_idx == col / 2,
                w == width,
                px == yuv420_pixels(y_plane@, u_plane@, v_plane@, width as int),
                row < height,
                row_base == row * w,
                uv_base == (row / 2) * (w / 2),
                row_base + w <= height * w,
                height * w <= y_plane@.len(),
                u_plane@.len() >= chroma_samples_read(w, height as int),
                v_plane@.len() >= chroma_samples_read(w, height as int),
                height * w * 3 <= dst@.len(),
                dst@.len() == old(dst)@.len(),
                rows_done(dst@, w, mirror, px, row_base as int, col as int),
                forall|i: int| (row_base + w) * 3 <= i < dst@.len() ==> dst@[i] == old(dst)@[i],
            decreases width + 1 - col,
        {
            proof {
                lemma_chroma_row_bound(w, height as int, row as int, col as int);
            }
            let u = u_plane[uv_base + uv_idx] as i32 - 128;
            let v = v_plane[uv_base + uv_idx] as i32 - 128;
            uv_idx += 1;
            let a = convert_yuv420_pixel(
                y_plane,
                u,
                v,
                width,
                row,
                row_base,
                col,
                Ghost(u_plane@),
                Ghost(v_plane@),
            );
            store_pixel(dst, width, row, row_base, col, a, mirror, Ghost(px));
            if col + 1 < width {
                assert((col + 1) / 2 == col / 2);
                let b = convert_yuv420_pixel(
                    y_plane,
                    u,
                    v,
                    width,
                    row,
                    row_base,
                    col + 1,
                    Ghost(u_plane@),
                    Ghost(v_plane@),
                );
                store_pixel(dst, width, row, row_base, col + 1, b, mirror, Ghost(px));
            } else {
                proof {
                    lemma_row_done_past_end(
                        dst@,
                        w,
                        mirror,
                        px,
                        row_base as int,
                        col + 1,
                        col + 2,
                    );
                }
            }
            col += 2;
        }
        proof {
            lemma_row_finished(dst@, w, mirror, px, row as int, row_base as int, col as int);
        }
        row += 1;
    }
    proof {
        reveal(rows_done);
        lemma_frame_done(dst@, old(dst)@, width as nat, height as nat, mirror, px);
    }
}


/// Size of each chroma plane of a `w` by `h` YU12 frame.
pub open spec fn chroma_plane_len(w: int, h: int) -> int {
    (w / 2) * (h / 2)
}

/// The RGB8 frame that a packed YU12 frame (Y plane, then U, then V) converts
/// to.
pub open spec fn yu12_frame(src: Seq<u8>, w: nat, h: nat, mirror: bool) -> Seq<u8> {
    let y_size = (w * h) as int;
    let uv = chroma_plane_len(w as int, h as int);
    yuv420_frame(
        src.subrange(0, y_size),
        src.subrange(y_size, y_size + uv),
        src.subrange(y_size + uv, y_size + 2 * uv),
        w,
        h,
        mirror,
    )
}

/// With even dimensions the conversion reads exactly the chroma planes.
pub proof fn lemma_even_dims_chroma(w: int, h: int)
    requires
        0 <= w,
        0 <= h,
        w == 0 || h == 0 || (w % 2 == 0 && h % 2 == 0),
    ensures
        chroma_samples_read(w, h) <= chroma_plane_len(w, h),
        0 <= chroma_plane_len(w, h),
{
    assert(0 <= (w / 2) * (h / 2)) by (nonlinear_arith)
        requires
            0 <= w,
            0 <= h,
    ;
    if w != 0 && h != 0 {
        assert(((h - 1) / 2) * (w / 2) + (w + 1) / 2 == (w / 2) * (h / 2)) by (nonlinear_arith)
            requires
                w % 2 == 0,
                h % 2 == 0,
                h > 0,
                w > 0,
        ;
    }
}

/// Converts a packed YU12 (I420) frame to RGB8, mirroring each row when
/// `mirror` is set. The frame holds the `width * height` luma plane followed
/// by the U and V planes of `(width / 2) * (height / 2)` samples each. Bytes
/// of `dst` past the frame are left as they were.
pub fn yuv420_to_rgb8(src: &[u8], dst: &mut [u8], width: usize, height: usize, mirror: bool)
    requires
        width == 0 || height == 0 || (width % 2 == 0 && height % 2 == 0),
        src@.len() >= width * height + chroma_plane_len(width as int, height as int) * 2,
        old(dst)@.len() >= width * height * 3,
    ensures
        final(dst)@ == yu12_frame(src@, width as nat, height as nat, mirror) + old(dst)@.skip(
            width * height * 3,
        ),
{
    proof {
        lemma_even_dims_chroma(width as int, height as int);
        assert(0 <= width * height) by (nonlinear_arith);
    }
    let src_len = src.len();
    proof {
        assert(width * height + (width / 2) * (height / 2) * 2 <= src_len);
    }
    let y_size = width * height;
    let uv_size = (width / 2) * (height / 2);
    let y_plane = vstd::slice::slice_subrange(src, 0, y_size);
    let u_plane = vstd::slice::slice_subrange(src, y_size, y_size + uv_size);
    let v_plane = vstd::slice::slice_subrange(src, y_size + uv_size, y_size + uv_size + uv_size);
    yuv420_to_rgb8_scalar(y_plane, u_plane, v_plane, dst, width, height, mirror);
    proof {
        assert(y_size + 2 * uv_size == y_size + uv_size + uv_size);
    }
}


/// The source pixels of a packed RGB24 frame `w` pixels wide.
pub open spec fn rgb24_pixels(s: Seq<u8>, w: int) -> spec_fn(int, int) -> Seq<u8> {
    |r: int, c: int| s.subrange((r * w + c) * 3, (r * w + c) * 3 + 3)
}

/// A packed RGB24 frame `w` by `h`, with its rows mirrored when `mirror` is
/// set.
pub open spec fn rgb24_frame(s: Seq<u8>, w: nat, h: nat, mirror: bool) -> Seq<u8> {
    frame_seq(w, h, mirror, rgb24_pixels(s, w as int))
}

/// Swaps the 3-byte pixels at byte offsets `l` and `r`.
fn swap_pixels(buf: &mut [u8], l: usize, r: usize)
    requires
        l + 3 <= r,
        r + 3 <= old(buf)@.len(),
    ensures
        final(buf)@ == old(buf)@.update(l as int, old(buf)@[r as int]).update(
            l + 1,
            old(buf)@[r + 1],
        ).update(l + 2, old(buf)@[r + 2]).update(r as int, old(buf)@[l as int]).update(
            r + 1,
            old(buf)@[l + 1],
        ).update(r + 2, old(buf)@[l + 2]),
{
    let t0 = buf[l];
    buf[l] = buf[r];
    buf[r] = t0;
    let t1 = buf[l + 1];
    buf[l + 1] = buf[r + 1];
    buf[r + 1] = t1;
    let t2 = buf[l + 2];
    buf[l + 2] = buf[r + 2];
    buf[r + 2] = t2;
}

/// Reverses the order of the `width` pixels that start at byte `start`.
fn mirror_row_in_place(buf: &mut [u8], start: usize, width: usize)
    requires
        width >= 1,
        start + width * 3 <= old(buf)@.len(),
    ensures
        final(buf)@.len() == old(buf)@.len(),
        forall|p: int, k: int|
            0 <= p < width && 0 <= k < 3 ==> #[trigger] final(buf)@[start + p * 3 + k] == old(
                buf,
            )@[start + (width - 1 - p) * 3 + k],
        forall|i: int|
            0 <= i < old(buf)@.len() && !(start <= i < start + width * 3) ==> final(buf)@[i]
                == old(buf)@[i],
{
    let n = buf.len();
    let row_bytes = width * 3;
    let mut l = 0usize;
    let mut r = row_bytes - 3;
    while l < r
        invariant
            n == buf@.len(),
            width >= 1,
            start + width * 3 <= old(buf)@.len(),
            row_bytes == width * 3,
            buf@.len() == old(buf)@.len(),
            l % 3 == 0,
            r % 3 == 0,
            l + r == (width - 1) * 3,
            l <= r + 3,
            forall|p: int, k: int|
                0 <= p < width && 0 <= k < 3 ==> #[trigger] buf@[start + p * 3 + k] == (if p * 3
                    < l || p * 3 > r {
                    old(buf)@[start + (width - 1 - p) * 3 + k]
                } else {
                    old(buf)@[start + p * 3 + k]
                }),
            forall|i: int|
                0 <= i < old(buf)@.len() && !(start <= i < start + width * 3) ==> buf@[i]
                    == old(buf)@[i],
        decreases r + 3 - l,
    {
        let ghost before = buf@;
        swap_pixels(buf, start + l, start + r);
        proof {
            assert forall|p: int, k: int|
                0 <= p < width && 0 <= k < 3 implies #[trigger] buf@[start + p * 3 + k] == (if p
                    * 3 < l + 3 || p * 3 > r - 3 {
                    old(buf)@[start + (width - 1 - p) * 3 + k]
                } else {
                    old(buf)@[start + p * 3 + k]
                }) by {
                if p * 3 == l {
                    assert(buf@[start + p * 3 + k] == before[start + r + k]);
                    assert(before[start + (width - 1 - p) * 3 + k] == before[start + r + k]);
                } else if p * 3 == r {
                    assert(buf@[start + p * 3 + k] == before[start + l + k]);
                } else {
                    assert(buf@[start + p * 3 + k] == before[start + p * 3 + k]);
                }
            }
        }
        l += 3;
        r -= 3;
    }
}

/// Mirrors one packed RGB24 row of `width` pixels in place; bytes past the
/// row are left as they were.
pub fn rgb24_mirror_row_scalar(row: &mut [u8], width: usize)
    requires
        width >= 1,
        old(row)@.len() >= width * 3,
    ensures
        final(row)@ == rgb24_frame(old(row)@, width as nat, 1, true) + old(row)@.skip(
            width * 3,
        ),
{
    mirror_row_in_place(row, 0, width);
    proof {
        let w = width as int;
        let f = rgb24_frame(old(row)@, width as nat, 1, true);
        assert(w * 1 * 3 == w * 3);
        assert forall|i: int| 0 <= i < w * 3 implies row@[i] == f[i] by {
            let p = i / 3;
            let k = i % 3;
            assert(i == p * 3 + k);
            lemma_row_col(w, 0, p);
            assert(row@[0 + p * 3 + k] == old(row)@[0 + (w - 1 - p) * 3 + k]);
        }
        assert(row@ =~= f + old(row)@.skip(width * 3));
    }
}

/// Mirrors one packed RGB24 row of `width` pixels in place.
pub fn rgb24_mirror_row(row: &mut [u8], width: usize)
    requires
        width >= 1,
        old(row)@.len() >= width * 3,
    ensures
        final(row)@ == rgb24_frame(old(row)@, width as nat, 1, true) + old(row)@.skip(
            width * 3,
        ),
{
    rgb24_mirror_row_scalar(row, width);
}


/// Copies a packed RGB24 frame into `dst`, mirroring each of its `height`
/// rows when `mirror` is set. All of `src` is copied, including any bytes past
/// the frame; bytes of `dst` past `src` are left as they were.
pub fn rgb24_to_rgb8(src: &[u8], dst: &mut [u8], width: usize, height: usize, mirror: bool)
    requires
        src@.len() >= width * height * 3,
        old(dst)@.len() >= width * height * 3,
        src@.len() <= old(dst)@.len(),
        mirror && height > 0 ==> width > 0,
    ensures
        final(dst)@ == rgb24_frame(src@, width as nat, height as nat, mirror) + src@.skip(
            width * height * 3,
        ) + old(dst)@.skip(src@.len() as int),
{
    let n = src.len();
    let mut i: usize = 0;
    while i < n
        invariant
            n == src@.len(),
            n <= old(dst)@.len(),
            dst@.len() == old(dst)@.len(),
            0 <= i <= n,
            forall|j: int| 0 <= j < i ==> dst@[j] == src@[j],
            forall|j: int| i <= j < dst@.len() ==> dst@[j] == old(dst)@[j],
        decreases n - i,
    {
        dst[i] = src[i];
        i += 1;
    }
    let ghost copied = dst@;
    assert(copied =~= src@ + old(dst)@.skip(n as int));
    let ghost w = width as int;
    let ghost px = rgb24_pixels(src@, w);
    proof {
        assert(0 <= height * w && height * w * 3 == width * height * 3) by (nonlinear_arith)
            requires
                w == width,
        ;
    }
    if mirror {
        let mut y: usize = 0;
        while y < height
            invariant
                mirror,
                height > 0 ==> width > 0,
                w == width,
                px == rgb24_pixels(src@, w),
                n == src@.len(),
                height * w * 3 <= n,
                n <= dst@.len(),
                dst@.len() == old(dst)@.len(),
                0 <= y <= height,
                0 <= y * w <= height * w,
                copied == src@ + old(dst)@.skip(n as int),
                copied.len() == old(dst)@.len(),
                rows_done(dst@, w, true, px, y * w, 0),
                forall|j: int| y * w * 3 <= j < dst@.len() ==> dst@[j] == copied[j],
            decreases height - y,
        {
            proof {
                lemma_rows_fit(w, y as int, height as int);
            }
            let row_base = y * width;
            let ghost before = dst@;
            mirror_row_in_place(dst, row_base * 3, width);
            proof {
                reveal(rows_done);
                assert((y + 1) * w == y * w + w) by (nonlinear_arith);
                assert forall|p: int, k: int|
                    0 <= k < 3 && 0 <= p && (p < (y + 1) * w || ((y + 1) * w <= p < (y + 1) * w
                        + w && dest_col(w, p - (y + 1) * w, true) < 0)) implies #[trigger] pixel_byte(
                    dst@,
                    p,
                    k,
                ) == frame_byte(w, true, px, p, k) by {
                    if p >= row_base {
                        let dc = p - row_base;
                        lemma_row_col(w, y as int, dc);
                        assert(dst@[row_base * 3 + dc * 3 + k] == before[row_base * 3 + (w - 1
                            - dc) * 3 + k]);
                        assert(p * 3 + k == row_base * 3 + dc * 3 + k);
                        let j = row_base * 3 + (w - 1 - dc) * 3 + k;
                        assert((y * w + (w - 1 - dc)) * 3 + k == j);
                        assert(y * w * 3 <= j < height * w * 3);
                        assert(before[j] == copied[j]);
                        assert(j < n);
                        assert(copied[j] == src@[j]);
                        assert(px(y as int, w - 1 - dc)[k] == src@[j]);
                        assert(frame_byte(w, true, px, p, k) == px(y as int, w - 1 - dc)[k]);
                    } else {
                        assert(pixel_byte(dst@, p, k) == pixel_byte(before, p, k));
                    }
                }
            }
            y += 1;
        }
        proof {
            reveal(rows_done);
            assert(w * height == width * height);
            lemma_frame_done(dst@, copied, width as nat, height as nat, true, px);
            assert(dst@ =~= rgb24_frame(src@, width as nat, height as nat, mirror) + src@.skip(
                width * height * 3,
            ) + old(dst)@.skip(src@.len() as int));
        }
    } else {
        proof {
            let f = rgb24_frame(src@, width as nat, height as nat, false);
            lemma_unmirrored_copy(src@, width as nat, height as nat);
            assert(dst@ =~= f + src@.skip(width * height * 3) + old(dst)@.skip(
                src@.len() as int,
            ));
        }
    }
}


/// Byte `i` of a `w` by `h` frame belongs to pixel `i / 3`, which lies in row
/// `(i / 3) / w < h`.
pub proof fn lemma_byte_position(w: int, h: int, i: int)
    requires
        0 < w,
        0 <= h,
        0 <= i < w * h * 3,
    ensures
        i == (i / 3) * 3 + i % 3,
        0 <= i % 3 < 3,
        0 <= i / 3 < w * h,
        0 <= (i / 3) / w < h,
        0 <= (i / 3) % w < w,
        i / 3 == ((i / 3) / w) * w + (i / 3) % w,
{
    let p = i / 3;
    vstd::arithmetic::div_mod::lemma_fundamental_div_mod(p, w);
    assert((p / w) * w == w * (p / w)) by (nonlinear_arith);
    assert(0 <= p < w * h);
    assert(0 <= p / w < h) by (nonlinear_arith)
        requires
            0 < w,
            0 <= p < w * h,
            p == w * (p / w) + p % w,
            0 <= p % w < w,
    ;
}

/// Pixel `q` of a packed frame covers bytes `q * 3 .. q * 3 + 3`.
pub proof fn lemma_pixel_bytes(q: int, k: int)
    requires
        0 <= k < 3,
    ensures
        (q * 3 + k) / 3 == q,
        (q * 3 + k) % 3 == k,
{
    lemma_fundamental_div_mod_converse(q * 3 + k, 3, q, k);
}

/// Converting with the mirror on gives the frame converted without it, with
/// every row reversed pixel by pixel.
pub proof fn lemma_mirror_reverses_rows(w: nat, h: nat, px: spec_fn(int, int) -> Seq<u8>)
    ensures
        frame_seq(w, h, true, px) == rgb24_frame(frame_seq(w, h, false, px), w, h, true),
{
    let f = frame_seq(w, h, false, px);
    let lhs = frame_seq(w, h, true, px);
    let rhs = rgb24_frame(f, w, h, true);
    if w > 0 {
        assert forall|i: int| 0 <= i < w * h * 3 implies lhs[i] == rhs[i] by {
            lemma_byte_position(w as int, h as int, i);
            let p = i / 3;
            let k = i % 3;
            let r = p / (w as int);
            let c = (w - 1 - p % (w as int)) as int;
            let q = r * w + c;
            lemma_row_col(w as int, r, c);
            assert(0 <= q < w * h) by (nonlinear_arith)
                requires
                    q == r * w + c,
                    0 <= r < h,
                    0 <= c < w,
            ;
            assert(q * 3 + k < w * h * 3);
            lemma_pixel_bytes(q, k);
            assert(rgb24_pixels(f, w as int)(r, c)[k] == f[q * 3 + k]);
        }
    } else {
        assert(w * h * 3 == 0) by (nonlinear_arith)
            requires
                w == 0,
        ;
    }
    assert(lhs =~= rhs);
}

/// Mirroring the rows of a packed RGB24 frame twice gives the frame back.
pub proof fn lemma_mirror_twice(s: Seq<u8>, w: nat, h: nat)
    requires
        s.len() >= w * h * 3,
    ensures
        rgb24_frame(rgb24_frame(s, w, h, true), w, h, true) == s.subrange(0, (w * h * 3) as int),
{
    let once = rgb24_frame(s, w, h, true);
    let twice = rgb24_frame(once, w, h, true);
    if w > 0 {
        assert forall|i: int| 0 <= i < w * h * 3 implies twice[i] == s[i] by {
            lemma_byte_position(w as int, h as int, i);
            let p = i / 3;
            let k = i % 3;
            let r = p / (w as int);
            let c = (w - 1 - p % (w as int)) as int;
            let q = r * w + c;
            lemma_row_col(w as int, r, c);
            assert(0 <= q < w * h) by (nonlinear_arith)
                requires
                    q == r * w + c,
                    0 <= r < h,
                    0 <= c < w,
            ;
            lemma_pixel_bytes(q, k);
            assert(twice[i] == once[q * 3 + k]);
            assert(once[q * 3 + k] == s[(r * w + (w - 1 - c)) * 3 + k]);
        }
    } else {
        assert(w * h * 3 == 0) by (nonlinear_arith)
            requires
                w == 0,
        ;
    }
    assert(twice =~= s.subrange(0, (w * h * 3) as int));
}

/// Copying an RGB24 frame without the mirror keeps its bytes in place.
pub proof fn lemma_unmirrored_copy(s: Seq<u8>, w: nat, h: nat)
    requires
        s.len() >= w * h * 3,
    ensures
        rgb24_frame(s, w, h, false) == s.subrange(0, (w * h * 3) as int),
{
    let f = rgb24_frame(s, w, h, false);
    if w > 0 {
        assert forall|i: int| 0 <= i < w * h * 3 implies f[i] == s[i] by {
            lemma_byte_position(w as int, h as int, i);
        }
    } else {
        assert(w * h * 3 == 0) by (nonlinear_arith)
            requires
                w == 0,
        ;
    }
    assert(f =~= s.subrange(0, (w * h * 3) as int));
}

/// A pixel with neutral chroma (`U = V = 128`, centred to 0) is grey: its
/// three channels are equal.
pub proof fn lemma_neutral_chroma_is_gray(y: int)
    ensures
        rgb_of(y, 0, 0)[0] == rgb_of(y, 0, 0)[1],
        rgb_of(y, 0, 0)[1] == rgb_of(y, 0, 0)[2],
{
}


/// Mirroring the rows of a `w` by `h` frame reads only its first `w * h * 3`
/// bytes: bytes appended after the frame change nothing.
pub proof fn lemma_rgb24_frame_prefix(a: Seq<u8>, b: Seq<u8>, w: nat, h: nat, mirror: bool)
    requires
        a.len() >= w * h * 3,
    ensures
        rgb24_frame(a + b, w, h, mirror) == rgb24_frame(a, w, h, mirror),
{
    let l = rgb24_frame(a + b, w, h, mirror);
    let r = rgb24_frame(a, w, h, mirror);
    if w > 0 {
        assert forall|i: int| 0 <= i < w * h * 3 implies l[i] == r[i] by {
            lemma_byte_position(w as int, h as int, i);
            let p = i / 3;
            let k = i % 3;
            let row = p / (w as int);
            let c = dest_col(w as int, p % (w as int), mirror);
            let q = row * w + c;
            assert(0 <= q < w * h) by (nonlinear_arith)
                requires
                    q == row * w + c,
                    0 <= row < h,
                    0 <= c < w,
            ;
            assert(q * 3 + k < a.len());
            assert(rgb24_pixels(a + b, w as int)(row, c)[k] == (a + b)[q * 3 + k]);
            assert(rgb24_pixels(a, w as int)(row, c)[k] == a[q * 3 + k]);
        }
    } else {
        assert(w * h * 3 == 0) by (nonlinear_arith)
            requires
                w == 0,
        ;
    }
    assert(l =~= r);
}

} // verus!
