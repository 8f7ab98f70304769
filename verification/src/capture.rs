//! One step of the capture loop: turning the frame the driver delivered, in
//! whichever pixel format was negotiated, into the RGB8 slot of the ring.

use crate::v4l2::{V4L2_PIX_FMT_RGB24, V4L2_PIX_FMT_YUV420};
use crate::yuyv::{
    chroma_plane_len, frame_seq, lemma_mirror_reverses_rows, lemma_rgb24_frame_prefix,
    rgb24_frame, rgb24_pixels, rgb24_to_rgb8, yu12_frame, yuv420_pixels, yuv420_to_rgb8,
    yuyv_frame, yuyv_pixels, yuyv_to_rgb8, lemma_unmirrored_copy, lemma_byte_position,
    lemma_pixel_bytes, lemma_rows_fit, lemma_chroma_row_bound, lemma_even_dims_chroma,
    lemma_neutral_chroma_is_gray, yuyv_pixel, yuv420_pixel, dest_col,
};
use vstd::prelude::*;

verus! {

/// The name of the pixel format and the conversion applied to it, as logged
/// at startup. Formats other than RGB24 and YU12 are YUYV.
pub fn format_labels(pixel_format: u32) -> (r: (&'static str, &'static str))
    ensures
        pixel_format == V4L2_PIX_FMT_RGB24 ==> r.0@ == "RGB24"@ && r.1@ == "passthrough"@,
        pixel_format == V4L2_PIX_FMT_YUV420 ==> r.0@ == "YU12"@ && r.1@ == "YU12→RGB8"@,
        pixel_format != V4L2_PIX_FMT_RGB24 && pixel_format != V4L2_PIX_FMT_YUV420 ==> r.0@
            == "YUYV"@ && r.1@ == "YUYV→RGB8"@,
{
    if pixel_format == V4L2_PIX_FMT_RGB24 {
        ("RGB24", "passthrough")
    } else if pixel_format == V4L2_PIX_FMT_YUV420 {
        ("YU12", "YU12→RGB8")
    } else {
        ("YUYV", "YUYV→RGB8")
    }
}

/// A `src_len`-byte frame in `pixel_format` fits the converter for a
/// `width` by `height` frame and a `dst_len`-byte destination.
pub open spec fn frame_convertible(
    pixel_format: u32,
    src_len: int,
    dst_len: int,
    width: int,
    height: int,
    mirror: bool,
) -> bool {
    if pixel_format == V4L2_PIX_FMT_RGB24 {
        &&& src_len >= width * height * 3
        &&& dst_len >= width * height * 3
        &&& src_len <= dst_len
        &&& mirror && height > 0 ==> width > 0
    } else if pixel_format == V4L2_PIX_FMT_YUV420 {
        &&& width == 0 || height == 0 || (width % 2 == 0 && height % 2 == 0)
        &&& src_len >= width * height + chroma_plane_len(width, height) * 2
        &&& dst_len >= width * height * 3
    } else {
        &&& width % 2 == 0
        &&& src_len >= width * height * 2
        &&& dst_len >= width * height * 3
    }
}

/// The destination after converting `src` from `pixel_format`.
pub open spec fn converted(
    pixel_format: u32,
    src: Seq<u8>,
    dst: Seq<u8>,
    width: nat,
    height: nat,
    mirror: bool,
) -> Seq<u8> {
    if pixel_format == V4L2_PIX_FMT_RGB24 {
        rgb24_frame(src, width, height, mirror) + src.skip((width * height * 3) as int) + dst.skip(
            src.len() as int,
        )
    } else if pixel_format == V4L2_PIX_FMT_YUV420 {
        yu12_frame(src, width, height, mirror) + dst.skip((width * height * 3) as int)
    } else {
        yuyv_frame(src, width, height, mirror) + dst.skip((width * height * 3) as int)
    }
}

/// The mirror flag is honoured for every pixel format: the frame converted
/// with the mirror is the frame converted without it with each row reversed
/// pixel by pixel, and the bytes after the frame do not depend on the flag.
pub proof fn lemma_converted_mirror_reverses_rows(
    pixel_format: u32,
    src: Seq<u8>,
    dst: Seq<u8>,
    width: nat,
    height: nat,
)
    ensures
        converted(pixel_format, src, dst, width, height, true).subrange(
            0,
            (width * height * 3) as int,
        ) == rgb24_frame(converted(pixel_format, src, dst, width, height, false), width, height, true),
        converted(pixel_format, src, dst, width, height, true).skip((width * height * 3) as int)
            == converted(pixel_format, src, dst, width, height, false).skip(
            (width * height * 3) as int,
        ),
{
    let n = (width * height * 3) as int;
    let px = if pixel_format == V4L2_PIX_FMT_RGB24 {
        rgb24_pixels(src, width as int)
    } else if pixel_format == V4L2_PIX_FMT_YUV420 {
        let y_size = (width * height) as int;
        let uv = chroma_plane_len(width as int, height as int);
        yuv420_pixels(
            src.subrange(0, y_size),
            src.subrange(y_size, y_size + uv),
            src.subrange(y_size + uv, y_size + 2 * uv),
            width as int,
        )
    } else {
        yuyv_pixels(src, width as int)
    };
    let rest = if pixel_format == V4L2_PIX_FMT_RGB24 {
        src.skip(n) + dst.skip(src.len() as int)
    } else {
        dst.skip(n)
    };
    let on = frame_seq(width, height, true, px);
    let off = frame_seq(width, height, false, px);
    assert(converted(pixel_format, src, dst, width, height, true) =~= on + rest);
    assert(converted(pixel_format, src, dst, width, height, false) =~= off + rest);
    lemma_mirror_reverses_rows(width, height, px);
    lemma_rgb24_frame_prefix(off, rest, width, height, true);
    assert((on + rest).subrange(0, n) =~= on);
    assert((on + rest).skip(n) =~= rest);
    assert((off + rest).skip(n) =~= rest);
}

/// An RGB24 frame converted without the mirror keeps its bytes: the frame
/// part of the destination is the first `width * height * 3` source bytes.
pub proof fn lemma_rgb24_unmirrored_is_copy(src: Seq<u8>, dst: Seq<u8>, width: nat, height: nat)
    requires
        src.len() >= width * height * 3,
    ensures
        converted(V4L2_PIX_FMT_RGB24, src, dst, width, height, false).subrange(
            0,
            (width * height * 3) as int,
        ) == src.subrange(0, (width * height * 3) as int),
{
    let n = (width * height * 3) as int;
    lemma_unmirrored_copy(src, width, height);
    let f = rgb24_frame(src, width, height, false);
    assert((f + src.skip(n) + dst.skip(src.len() as int)).subrange(0, n) =~= f);
}

/// A YUYV or YU12 frame whose chroma samples are all 128 (neutral) converts
/// to grey: every output pixel has equal red, green and blue. The chroma of
/// YUYV is every odd byte; that of YU12 is everything after the luma plane.
#[verifier::spinoff_prover]
pub proof fn lemma_neutral_chroma_converts_to_gray(
    pixel_format: u32,
    src: Seq<u8>,
    dst: Seq<u8>,
    width: nat,
    height: nat,
    mirror: bool,
    p: int,
)
    requires
        pixel_format != V4L2_PIX_FMT_RGB24,
        frame_convertible(
            pixel_format,
            src.len() as int,
            dst.len() as int,
            width as int,
            height as int,
            mirror,
        ),
        pixel_format == V4L2_PIX_FMT_YUV420 ==> forall|i: int|
            width * height <= i < width * height + 2 * chroma_plane_len(width as int, height as int)
                ==> #[trigger] src[i] == 128,
        pixel_format != V4L2_PIX_FMT_YUV420 ==> forall|i: int|
            0 <= i < width * height * 2 && i % 2 == 1 ==> #[trigger] src[i] == 128,
        0 <= p < width * height,
    ensures
        converted(pixel_format, src, dst, width, height, mirror)[p * 3] == converted(
            pixel_format,
            src,
            dst,
            width,
            height,
            mirror,
        )[p * 3 + 1],
        converted(pixel_format, src, dst, width, height, mirror)[p * 3 + 1] == converted(
            pixel_format,
            src,
            dst,
            width,
            height,
            mirror,
        )[p * 3 + 2],
{
    let w = width as int;
    let h = height as int;
    let out = converted(pixel_format, src, dst, width, height, mirror);
    assert(w > 0);
    lemma_byte_position(w, h, p * 3);
    lemma_pixel_bytes(p, 0);
    lemma_pixel_bytes(p, 1);
    lemma_pixel_bytes(p, 2);
    let r = p / w;
    let c = dest_col(w, p % w, mirror);
    assert(0 <= c < w);
    lemma_rows_fit(w, r, h);
    assert(p * 3 + 2 < w * h * 3);
    if pixel_format == V4L2_PIX_FMT_YUV420 {
        let y_size = w * h;
        let uv = chroma_plane_len(w, h);
        lemma_even_dims_chroma(w, h);
        lemma_chroma_row_bound(w, h, r, c);
        let idx = (r / 2) * (w / 2) + c / 2;
        assert(src[y_size + idx] == 128);
        assert(src[y_size + uv + idx] == 128);
        let yp = src.subrange(0, y_size);
        let up = src.subrange(y_size, y_size + uv);
        let vp = src.subrange(y_size + uv, y_size + 2 * uv);
        reveal(yuv420_pixel);
        assert(up[idx] == 128 && vp[idx] == 128);
        let px = yuv420_pixels(yp, up, vp, w);
        lemma_neutral_chroma_is_gray(yp[r * w + c] as int);
        assert(px(r, c) == yuv420_pixel(yp, up, vp, w, r, c));
        assert(out.subrange(0, w * h * 3) == frame_seq(width, height, mirror, px));
        assert(out[p * 3] == px(r, c)[0]);
        assert(out[p * 3 + 1] == px(r, c)[1]);
        assert(out[p * 3 + 2] == px(r, c)[2]);
    } else {
        let pair = (r * w + c - c % 2) * 2;
        assert(w % 2 == 0);
        assert(c - c % 2 + 1 < w);
        assert(pair + 3 < w * h * 2);
        assert(pair % 2 == 0);
        assert((pair + 1) % 2 == 1 && (pair + 3) % 2 == 1);
        assert(src[pair + 1] == 128);
        assert(src[pair + 3] == 128);
        reveal(yuyv_pixel);
        let px = yuyv_pixels(src, w);
        lemma_neutral_chroma_is_gray(src[(r * w + c) * 2] as int);
        assert(px(r, c) == yuyv_pixel(src, w, r, c));
        assert(out[p * 3] == px(r, c)[0]);
        assert(out[p * 3 + 1] == px(r, c)[1]);
        assert(out[p * 3 + 2] == px(r, c)[2]);
    }
}

/// Whether a frame can be converted does not depend on the mirror flag, but
/// for a mirrored RGB24 frame of zero width and non-zero height, which the
/// row mirror cannot take.
pub proof fn lemma_convertible_ignores_mirror(
    pixel_format: u32,
    src_len: int,
    dst_len: int,
    width: int,
    height: int,
)
    requires
        0 <= width,
        0 <= height,
        !(pixel_format == V4L2_PIX_FMT_RGB24 && width == 0 && height > 0),
    ensures
        frame_convertible(pixel_format, src_len, dst_len, width, height, true)
            == frame_convertible(pixel_format, src_len, dst_len, width, height, false),
{
}

/// A complete YU12 frame converts, mirrored or not, exactly when both
/// dimensions are even (or one is zero) and the source holds the luma plane and
/// both quarter-size chroma planes and the destination holds the RGB8 frame.
pub proof fn lemma_yu12_convertible(
    src_len: int,
    dst_len: int,
    width: int,
    height: int,
    mirror: bool,
)
    ensures
        frame_convertible(V4L2_PIX_FMT_YUV420, src_len, dst_len, width, height, mirror) <==> (
        (width == 0 || height == 0 || (width % 2 == 0 && height % 2 == 0)) && src_len >= width
            * height + 2 * ((width / 2) * (height / 2)) && dst_len >= width * height * 3),
{
}

/// `width * height * k`, or `None` when it does not fit a `usize`.
fn area_times(width: usize, height: usize, k: usize) -> (r: Option<usize>)
    requires
        k > 0,
    ensures
        r matches Some(v) ==> v == width * height * k,
        r is None ==> width * height * k > usize::MAX,
{
    match width.checked_mul(height) {
        Some(a) => a.checked_mul(k),
        None => {
            proof {
                assert(width * height * k > usize::MAX) by (nonlinear_arith)
                    requires
                        width * height > usize::MAX,
                        k > 0,
                ;
            }
            None
        },
    }
}


/// Whether `convert_frame` accepts these sizes: a frame the converter would
/// reject is one the capture cannot publish.
pub fn can_convert(
    pixel_format: u32,
    src_len: usize,
    dst_len: usize,
    width: usize,
    height: usize,
    mirror: bool,
) -> (r: bool)
    ensures
        r == frame_convertible(
            pixel_format,
            src_len as int,
            dst_len as int,
            width as int,
            height as int,
            mirror,
        ),
{
    let rgb_len = match area_times(width, height, 3) {
        Some(n) => n,
        None => return false,
    };
    if pixel_format == V4L2_PIX_FMT_RGB24 {
        src_len >= rgb_len && dst_len >= rgb_len && src_len <= dst_len && (!mirror || height == 0
            || width > 0)
    } else if pixel_format == V4L2_PIX_FMT_YUV420 {
        let y_size = width * height;
        proof {
            assert((width / 2) * (height / 2) * 2 <= width * height) by (nonlinear_arith)
                requires
                    width >= 0,
                    height >= 0,
            ;
        }
        let uv = (width / 2) * (height / 2);
        let even = width == 0 || height == 0 || (width % 2 == 0 && height % 2 == 0);
        even && src_len >= uv * 2 && src_len - uv * 2 >= y_size && dst_len >= rgb_len
    } else {
        let yuyv_len = width * height * 2;
        width % 2 == 0 && src_len >= yuyv_len && dst_len >= rgb_len
    }
}

/// Converts a frame delivered in `pixel_format` into the RGB8 destination:
/// RGB24 is copied as is, YU12 and YUYV are converted; each row is mirrored
/// when `mirror` is set.
pub fn convert_frame(
    pixel_format: u32,
    src: &[u8],
    dst: &mut [u8],
    width: usize,
    height: usize,
    mirror: bool,
)
    requires
        frame_convertible(
            pixel_format,
            src@.len() as int,
            old(dst)@.len() as int,
            width as int,
            height as int,
            mirror,
        ),
    ensures
        final(dst)@ == converted(pixel_format, src@, old(dst)@, width as nat, height as nat, mirror),
{
    if pixel_format == V4L2_PIX_FMT_RGB24 {
        rgb24_to_rgb8(src, dst, width, height, mirror);
    } else if pixel_format == V4L2_PIX_FMT_YUV420 {
        yuv420_to_rgb8(src, dst, width, height, mirror);
    } else {
        yuyv_to_rgb8(src, dst, width, height, mirror);
    }
}


/// Number of published frames between two statistics lines.
pub const STATS_EVERY: u64 = 60;

/// Whether a statistics line is due after `frames` published frames: every
/// `STATS_EVERY` frames.
pub fn stats_due(frames: u64) -> (r: bool)
    ensures
        r == (frames % STATS_EVERY == 0),
{
    frames % STATS_EVERY == 0
}

/// What the capture loop does when reading a frame from the camera failed.
#[derive(Debug, Clone, Copy, PartialEq, Eq, Structural)]
pub enum ReadFailure {
    /// A stop was requested: leave the loop.
    Stop,
    /// Report the error, wait a moment and try again.
    Retry,
}

/// A failed read ends the loop when a stop was requested, and is retried
/// otherwise.
pub fn on_read_failure(stop_requested: bool) -> (r: ReadFailure)
    ensures
        r == (if stop_requested {
            ReadFailure::Stop
        } else {
            ReadFailure::Retry
        }),
{
    if stop_requested {
        ReadFailure::Stop
    } else {
        ReadFailure::Retry
    }
}

} // verus!
