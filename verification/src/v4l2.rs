//! Video4Linux2 capture: the ioctl request codes, the capability check, the
//! order in which pixel formats are negotiated, and the other decisions the
//! capture loop takes on what the driver reports. The ioctl calls themselves
//! are made by the program around this library.

use vstd::prelude::*;

verus! {

/// Buffer type: single-planar video capture.
pub const V4L2_BUF_TYPE_VIDEO_CAPTURE: u32 = 1;
/// Memory type: buffers mapped from the driver with `mmap`.
pub const V4L2_MEMORY_MMAP: u32 = 1;
/// Field order: let the driver choose.
pub const V4L2_FIELD_ANY: u32 = 0;
/// FourCC `YUYV`: packed 4:2:2, `Y0 U Y1 V`.
pub const V4L2_PIX_FMT_YUYV: u32 = 0x5659_5559;
/// FourCC `RGB3`: packed 8-bit RGB.
pub const V4L2_PIX_FMT_RGB24: u32 = 0x3342_4752;
/// FourCC `YU12`: planar 4:2:0 (I420).
pub const V4L2_PIX_FMT_YUV420: u32 = 0x3231_5559;
/// Capability bit: the device captures video.
pub const V4L2_CAP_VIDEO_CAPTURE: u32 = 0x0000_0001;
/// Capability bit: the device supports streaming I/O.
pub const V4L2_CAP_STREAMING: u32 = 0x0400_0000;
/// Number of capture buffers requested from the driver.
pub const NUM_BUFFERS: u32 = 4;

/// Bit position of the request number in an ioctl code.
pub const IOC_NRSHIFT: u32 = 0;
/// Bit position of the type character in an ioctl code.
pub const IOC_TYPESHIFT: u32 = 8;
/// Bit position of the argument size in an ioctl code.
pub const IOC_SIZESHIFT: u32 = 16;
/// Bit position of the direction in an ioctl code.
pub const IOC_DIRSHIFT: u32 = 30;
/// Direction: the caller writes the argument.
pub const IOC_WRITE: u32 = 1;
/// Direction: the caller reads the argument.
pub const IOC_READ: u32 = 2;
/// Direction: both.
pub const IOC_READWRITE: u32 = 3;

/// The ioctl request code of the Linux `_IOC` macro.
pub open spec fn ioc_code(dir: u32, ty: u8, nr: u8, size: u32) -> u32 {
    (dir << 30u32) | ((ty as u32) << 8u32) | ((nr as u32) << 0u32) | (size << 16u32)
}

/// Builds an ioctl request code from its direction, type character, number
/// and argument size. With every field in range, the code is the fields laid
/// side by side: direction in bits 30-31, size in bits 16-29, type in bits
/// 8-15, number in bits 0-7.
pub fn ioc(dir: u32, ty: u8, nr: u8, size: u32) -> (r: u32)
    ensures
        r == ioc_code(dir, ty, nr, size),
        dir < 4 && size < 0x4000 ==> r == dir * 0x4000_0000 + size * 0x1_0000 + ty * 0x100 + nr,
{
    let r = (dir << IOC_DIRSHIFT) | ((ty as u32) << IOC_TYPESHIFT) | ((nr as u32) << IOC_NRSHIFT)
        | (size << IOC_SIZESHIFT);
    proof {
        let t = ty as u32;
        let n = nr as u32;
        assert(t < 256 && n < 256 && dir < 4 && size < 0x4000 ==> (dir << 30u32) | (t << 8u32) | (
        n << 0u32) | (size << 16u32) == dir * 0x4000_0000 + size * 0x1_0000 + t * 0x100 + n)
            by (bit_vector);
    }
    r
}

/// Request code for an ioctl that reads a `size`-byte argument (`_IOR`).
pub fn ior(ty: u8, nr: u8, size: u32) -> (r: u32)
    ensures
        r == ioc_code(IOC_READ, ty, nr, size),
{
    ioc(IOC_READ, ty, nr, size)
}

/// Request code for an ioctl that reads and writes a `size`-byte argument
/// (`_IOWR`).
pub fn iowr(ty: u8, nr: u8, size: u32) -> (r: u32)
    ensures
        r == ioc_code(IOC_READWRITE, ty, nr, size),
{
    ioc(IOC_READWRITE, ty, nr, size)
}

/// Request code for an ioctl that writes a C `int` (`_IOW(ty, nr, int)`).
pub fn iow_int(ty: u8, nr: u8) -> (r: u32)
    ensures
        r == ioc_code(IOC_WRITE, ty, nr, 4),
{
    ioc(IOC_WRITE, ty, nr, core::mem::size_of::<libc::c_int>() as u32)
}


/// `VIDIOC_QUERYCAP`: `_IOR('V', 0, struct v4l2_capability)` (104 bytes).
pub const VIDIOC_QUERYCAP: u32 = 0x8068_5600;
/// `VIDIOC_G_FMT`: `_IOWR('V', 4, struct v4l2_format)` (208 bytes).
pub const VIDIOC_G_FMT: u32 = 0xC0D0_5604;
/// `VIDIOC_S_FMT`: `_IOWR('V', 5, struct v4l2_format)`.
pub const VIDIOC_S_FMT: u32 = 0xC0D0_5605;
/// `VIDIOC_REQBUFS`: `_IOWR('V', 8, struct v4l2_requestbuffers)` (20 bytes).
pub const VIDIOC_REQBUFS: u32 = 0xC014_5608;
/// `VIDIOC_QUERYBUF`: `_IOWR('V', 9, struct v4l2_buffer)` (88 bytes).
pub const VIDIOC_QUERYBUF: u32 = 0xC058_5609;
/// `VIDIOC_QBUF`: `_IOWR('V', 15, struct v4l2_buffer)`.
pub const VIDIOC_QBUF: u32 = 0xC058_560F;
/// `VIDIOC_DQBUF`: `_IOWR('V', 17, struct v4l2_buffer)`.
pub const VIDIOC_DQBUF: u32 = 0xC058_5611;
/// `VIDIOC_STREAMON`: `_IOW('V', 18, int)`.
pub const VIDIOC_STREAMON: u32 = 0x4004_5612;
/// `VIDIOC_STREAMOFF`: `_IOW('V', 19, int)`.
pub const VIDIOC_STREAMOFF: u32 = 0x4004_5613;

/// The request codes above are the `_IOC` encodings of their definitions.
pub proof fn lemma_request_codes()
    ensures
        VIDIOC_QUERYCAP == ioc_code(IOC_READ, 0x56, 0, 104),
        VIDIOC_G_FMT == ioc_code(IOC_READWRITE, 0x56, 4, 208),
        VIDIOC_S_FMT == ioc_code(IOC_READWRITE, 0x56, 5, 208),
        VIDIOC_REQBUFS == ioc_code(IOC_READWRITE, 0x56, 8, 20),
        VIDIOC_QUERYBUF == ioc_code(IOC_READWRITE, 0x56, 9, 88),
        VIDIOC_QBUF == ioc_code(IOC_READWRITE, 0x56, 15, 88),
        VIDIOC_DQBUF == ioc_code(IOC_READWRITE, 0x56, 17, 88),
        VIDIOC_STREAMON == ioc_code(IOC_WRITE, 0x56, 18, 4),
        VIDIOC_STREAMOFF == ioc_code(IOC_WRITE, 0x56, 19, 4),
{
    assert(ioc_code(2, 0x56, 0, 104) == 0x8068_5600u32 && ioc_code(3, 0x56, 4, 208)
        == 0xC0D0_5604u32 && ioc_code(3, 0x56, 5, 208) == 0xC0D0_5605u32 && ioc_code(3, 0x56, 8, 20)
        == 0xC014_5608u32 && ioc_code(3, 0x56, 9, 88) == 0xC058_5609u32 && ioc_code(3, 0x56, 15, 88)
        == 0xC058_560Fu32 && ioc_code(3, 0x56, 17, 88) == 0xC058_5611u32 && ioc_code(1, 0x56, 18, 4)
        == 0x4004_5612u32 && ioc_code(1, 0x56, 19, 4) == 0x4004_5613u32) by (bit_vector);
}


/// Why the camera cannot be used.
pub enum CameraError {
    /// The device does not offer what capture needs; the text says what.
    Unsupported(String),
}

impl CameraError {
    /// The text of the error.
    pub fn into_message(self) -> (m: String)
        ensures
            self matches CameraError::Unsupported(t) && m@ == t@,
    {
        match self {
            CameraError::Unsupported(t) => t,
        }
    }
}

/// An "unsupported device" error carrying `msg`.
pub fn unsupported(msg: String) -> (e: CameraError)
    ensures
        e matches CameraError::Unsupported(t) && t@ == msg@,
{
    CameraError::Unsupported(msg)
}

/// The capabilities that apply: the device's own when the driver reports
/// them (non-zero), else those of the whole physical device.
pub open spec fn effective_caps(capabilities: u32, device_caps: u32) -> u32 {
    if device_caps != 0 {
        device_caps
    } else {
        capabilities
    }
}

/// The mask of the two capabilities capture needs.
pub open spec fn capture_mask() -> u32 {
    V4L2_CAP_VIDEO_CAPTURE | V4L2_CAP_STREAMING
}

/// When the driver reports per-device capabilities (non-zero), the answer
/// depends on them alone and the physical device's capabilities are ignored,
/// whatever they are; when it reports none, the physical device's decide.
pub proof fn lemma_device_caps_decide(capabilities: u32, other: u32, device_caps: u32)
    ensures
        device_caps != 0 ==> effective_caps(capabilities, device_caps) == device_caps,
        device_caps != 0 ==> effective_caps(capabilities, device_caps) == effective_caps(
            other,
            device_caps,
        ),
        device_caps != 0 ==> ((effective_caps(capabilities, device_caps) & capture_mask()
            == capture_mask()) <==> (device_caps & V4L2_CAP_VIDEO_CAPTURE != 0 && device_caps
            & V4L2_CAP_STREAMING != 0)),
        device_caps == 0 ==> effective_caps(capabilities, device_caps) == capabilities,
{
    let d = device_caps;
    assert((d & (1u32 | 0x0400_0000u32) == (1u32 | 0x0400_0000u32)) <==> (d & 1u32 != 0 && d
        & 0x0400_0000u32 != 0)) by (bit_vector);
}

/// Whether a device with these capabilities can stream video capture: both
/// `V4L2_CAP_VIDEO_CAPTURE` and `V4L2_CAP_STREAMING` are set.
pub fn is_streaming_capture(capabilities: u32, device_caps: u32) -> (r: bool)
    ensures
        r == (effective_caps(capabilities, device_caps) & (V4L2_CAP_VIDEO_CAPTURE
            | V4L2_CAP_STREAMING) == (V4L2_CAP_VIDEO_CAPTURE | V4L2_CAP_STREAMING)),
{
    let caps = if device_caps != 0 {
        device_caps
    } else {
        capabilities
    };
    caps & (V4L2_CAP_VIDEO_CAPTURE | V4L2_CAP_STREAMING) == (V4L2_CAP_VIDEO_CAPTURE
        | V4L2_CAP_STREAMING)
}

/// A format the capture asks the driver for.
#[derive(Debug, Clone, Copy, PartialEq, Eq, Structural)]
pub struct FormatRequest {
    pub width: u32,
    pub height: u32,
    pub pixel_format: u32,
    pub field: u32,
}

/// The format to request when trying `fourcc`: the driver's current size,
/// or 640 by 480 where the driver reports zero, with any field order.
pub fn requested_format(current_width: u32, current_height: u32, fourcc: u32) -> (r:
    FormatRequest)
    ensures
        r.width == (if current_width == 0 {
            640
        } else {
            current_width
        }),
        r.height == (if current_height == 0 {
            480
        } else {
            current_height
        }),
        r.pixel_format == fourcc,
        r.field == V4L2_FIELD_ANY,
{
    FormatRequest {
        width: if current_width == 0 {
            640
        } else {
            current_width
        },
        height: if current_height == 0 {
            480
        } else {
            current_height
        },
        pixel_format: fourcc,
        field: V4L2_FIELD_ANY,
    }
}

/// What to do after asking the driver for one pixel format and reading back
/// the format it chose.
pub enum FormatStep {
    /// Capture with this format.
    Accept { width: u32, height: u32, pixel_format: u32 },
    /// Ask for the next format in order of preference.
    TryNext(u32),
    /// No format is usable.
    Fail(CameraError),
}

/// The formats the capture accepts, most preferred first: RGB24 (copied as
/// is), YUYV, YU12.
pub open spec fn is_candidate_format(fourcc: u32) -> bool {
    fourcc == V4L2_PIX_FMT_RGB24 || fourcc == V4L2_PIX_FMT_YUYV || fourcc == V4L2_PIX_FMT_YUV420
}

/// The first format to ask the driver for.
pub fn first_format() -> (r: u32)
    ensures
        r == V4L2_PIX_FMT_RGB24,
{
    V4L2_PIX_FMT_RGB24
}

/// Decides on the format the driver reports (`got`, `width` by `height`)
/// after it was asked for `tried`: a driver that granted the format with a
/// non-zero size is accepted; otherwise the next candidate is tried, and
/// after the last one the negotiation fails.
pub fn judge_format(tried: u32, got: u32, width: u32, height: u32) -> (step: FormatStep)
    requires
        is_candidate_format(tried),
    ensures
        got == tried && width != 0 && height != 0 ==> (step matches FormatStep::Accept {
            width: w,
            height: h,
            pixel_format: f,
        } && w == width && h == height && f == tried),
        !(got == tried && width != 0 && height != 0) && tried == V4L2_PIX_FMT_RGB24
            ==> step == FormatStep::TryNext(V4L2_PIX_FMT_YUYV),
        !(got == tried && width != 0 && height != 0) && tried == V4L2_PIX_FMT_YUYV
            ==> step == FormatStep::TryNext(V4L2_PIX_FMT_YUV420),
        got != tried && tried == V4L2_PIX_FMT_YUV420 ==> (step matches FormatStep::Fail(
            CameraError::Unsupported(t),
        ) && t@ == "camera provides neither RGB24, YUYV, nor YU12"@),
        got == tried && (width == 0 || height == 0) && tried == V4L2_PIX_FMT_YUV420
            ==> (step matches FormatStep::Fail(CameraError::Unsupported(t)) && t@
            == "camera reported a zero-size frame"@),
{
    if tried == V4L2_PIX_FMT_YUV420 {
        if got != V4L2_PIX_FMT_YUV420 {
            return FormatStep::Fail(
                unsupported("camera provides neither RGB24, YUYV, nor YU12".to_owned()),
            );
        }
        if width == 0 || height == 0 {
            return FormatStep::Fail(unsupported("camera reported a zero-size frame".to_owned()));
        }
        return FormatStep::Accept { width, height, pixel_format: V4L2_PIX_FMT_YUV420 };
    }
    if got == tried && width != 0 && height != 0 {
        return FormatStep::Accept { width, height, pixel_format: tried };
    }
    if tried == V4L2_PIX_FMT_RGB24 {
        FormatStep::TryNext(V4L2_PIX_FMT_YUYV)
    } else {
        FormatStep::TryNext(V4L2_PIX_FMT_YUV420)
    }
}

/// Checks the number of buffers the driver granted: none is an error.
pub fn check_buffer_count(count: u32) -> (r: Result<u32, CameraError>)
    ensures
        count != 0 ==> r == Ok::<u32, CameraError>(count),
        count == 0 ==> (r matches Err(CameraError::Unsupported(t)) && t@
            == "camera refused mmap buffers"@),
{
    if count == 0 {
        return Err(unsupported("camera refused mmap buffers".to_owned()));
    }
    Ok(count)
}

/// Length of the captured frame: the bytes the driver filled, capped by the
/// size of the mapped buffer.
pub fn frame_len(bytes_used: usize, buffer_len: usize) -> (r: usize)
    ensures
        r == (if bytes_used < buffer_len {
            bytes_used
        } else {
            buffer_len
        }),
{
    if bytes_used < buffer_len {
        bytes_used
    } else {
        buffer_len
    }
}

} // verus!
