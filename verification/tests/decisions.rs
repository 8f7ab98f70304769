use camerad::capture::{
    can_convert, convert_frame, format_labels, on_read_failure, stats_due, ReadFailure,
};
use camerad::cli::{resolve_device, usage, ArgEvent, ArgParser, PendingValue};
use camerad::ring::CAM_RING_DEFAULT;
use camerad::v4l2::{
    check_buffer_count, first_format, frame_len, ioc, iow_int, ior, iowr, is_streaming_capture,
    judge_format, requested_format, unsupported, CameraError, FormatStep, V4L2_CAP_STREAMING,
    V4L2_CAP_VIDEO_CAPTURE, V4L2_FIELD_ANY, V4L2_PIX_FMT_RGB24, V4L2_PIX_FMT_YUV420,
    V4L2_PIX_FMT_YUYV, VIDIOC_DQBUF, VIDIOC_G_FMT, VIDIOC_QBUF, VIDIOC_QUERYBUF, VIDIOC_QUERYCAP,
    VIDIOC_REQBUFS, VIDIOC_STREAMOFF, VIDIOC_STREAMON, VIDIOC_S_FMT,
};
use camerad::yuyv::yuyv_to_rgb8;

#[test]
fn request_codes_match_linux() {
    assert_eq!(ior(b'V', 0, 104), VIDIOC_QUERYCAP);
    assert_eq!(iowr(b'V', 4, 208), VIDIOC_G_FMT);
    assert_eq!(iowr(b'V', 5, 208), VIDIOC_S_FMT);
    assert_eq!(iowr(b'V', 8, 20), VIDIOC_REQBUFS);
    assert_eq!(iowr(b'V', 9, 88), VIDIOC_QUERYBUF);
    assert_eq!(iowr(b'V', 15, 88), VIDIOC_QBUF);
    assert_eq!(iowr(b'V', 17, 88), VIDIOC_DQBUF);
    assert_eq!(iow_int(b'V', 18), VIDIOC_STREAMON);
    assert_eq!(iow_int(b'V', 19), VIDIOC_STREAMOFF);
    assert_eq!(VIDIOC_QUERYCAP, 0x8068_5600);
    assert_eq!(VIDIOC_STREAMON, 0x4004_5612);
    assert_eq!(ioc(0, 0, 0, 0), 0);
    assert_eq!(ioc(3, 0xff, 0xff, 0x3fff), 0xffff_ffff);
}

#[test]
fn capability_check() {
    let both = V4L2_CAP_VIDEO_CAPTURE | V4L2_CAP_STREAMING;
    assert!(is_streaming_capture(both, 0));
    assert!(is_streaming_capture(0, both | 0x10));
    // device caps win when non-zero
    assert!(!is_streaming_capture(both, V4L2_CAP_VIDEO_CAPTURE));
    assert!(!is_streaming_capture(V4L2_CAP_STREAMING, 0));
}

#[test]
fn format_request_defaults() {
    let r = requested_format(0, 0, V4L2_PIX_FMT_YUYV);
    assert_eq!((r.width, r.height, r.pixel_format, r.field), (640, 480, V4L2_PIX_FMT_YUYV, V4L2_FIELD_ANY));
    let r = requested_format(1280, 720, V4L2_PIX_FMT_RGB24);
    assert_eq!((r.width, r.height), (1280, 720));
}

fn message(e: CameraError) -> String {
    e.into_message()
}

#[test]
fn format_negotiation_order() {
    assert_eq!(first_format(), V4L2_PIX_FMT_RGB24);
    match judge_format(V4L2_PIX_FMT_RGB24, V4L2_PIX_FMT_RGB24, 640, 480) {
        FormatStep::Accept { width, height, pixel_format } => {
            assert_eq!((width, height, pixel_format), (640, 480, V4L2_PIX_FMT_RGB24))
        }
        _ => panic!("RGB24 not accepted"),
    }
    assert!(matches!(
        judge_format(V4L2_PIX_FMT_RGB24, V4L2_PIX_FMT_YUYV, 640, 480),
        FormatStep::TryNext(f) if f == V4L2_PIX_FMT_YUYV
    ));
    assert!(matches!(
        judge_format(V4L2_PIX_FMT_YUYV, V4L2_PIX_FMT_YUYV, 0, 480),
        FormatStep::TryNext(f) if f == V4L2_PIX_FMT_YUV420
    ));
    match judge_format(V4L2_PIX_FMT_YUV420, V4L2_PIX_FMT_YUYV, 640, 480) {
        FormatStep::Fail(e) => assert_eq!(message(e), "camera provides neither RGB24, YUYV, nor YU12"),
        _ => panic!("expected failure"),
    }
    match judge_format(V4L2_PIX_FMT_YUV420, V4L2_PIX_FMT_YUV420, 640, 0) {
        FormatStep::Fail(e) => assert_eq!(message(e), "camera reported a zero-size frame"),
        _ => panic!("expected failure"),
    }
}

#[test]
fn buffer_count_and_frame_len() {
    assert!(matches!(check_buffer_count(4), Ok(4)));
    match check_buffer_count(0) {
        Err(e) => assert_eq!(message(e), "camera refused mmap buffers"),
        Ok(_) => panic!("zero buffers accepted"),
    }
    assert_eq!(frame_len(100, 200), 100);
    assert_eq!(frame_len(300, 200), 200);
    assert_eq!(message(unsupported("x".to_string())), "x");
}

#[test]
fn usage_mentions_default_ring() {
    let u = usage();
    assert!(u.starts_with("usage: camerad "));
    assert!(u.contains(&format!("(default {CAM_RING_DEFAULT})")));
    assert!(u.contains("--mirror"));
    assert_eq!(u.lines().count(), 8);
}

#[test]
fn device_resolution() {
    assert_eq!(resolve_device("0"), "/dev/video0");
    assert_eq!(resolve_device("12"), "/dev/video12");
    assert_eq!(resolve_device("/dev/video3"), "/dev/video3");
    assert_eq!(resolve_device(""), "");
    assert_eq!(resolve_device("1a"), "1a");
}

fn feed_all(args: &[&str]) -> (ArgParser, Vec<String>) {
    let mut p = ArgParser::new();
    let mut fps = Vec::new();
    for a in args {
        match p.feed(a.to_string()) {
            ArgEvent::Continue => {}
            ArgEvent::ParseFps(v) => fps.push(v),
            ArgEvent::ShowHelp => panic!("help"),
            ArgEvent::Fail(m) => panic!("{m}"),
        }
    }
    (p, fps)
}

#[test]
fn parser_defaults_and_flags() {
    let (p, fps) = feed_all(&[]);
    let a = p.finish().ok().unwrap();
    assert_eq!(a.camera, "0");
    assert_eq!(a.path, CAM_RING_DEFAULT);
    assert!(!a.preview && !a.log && !a.mirror);
    assert!(fps.is_empty());

    let (p, fps) = feed_all(&[
        "--camera", "/dev/video2", "--path", "/tmp/r", "--mirror", "--fps", "30", "--preview", "-v",
    ]);
    let a = p.finish().ok().unwrap();
    assert_eq!(a.camera, "/dev/video2");
    assert_eq!(a.path, "/tmp/r");
    assert!(a.preview && a.log && a.mirror);
    assert_eq!(fps, vec!["30".to_string()]);
}

#[test]
fn parser_value_may_look_like_a_flag() {
    let (p, _) = feed_all(&["--camera", "--log"]);
    let a = p.finish().ok().unwrap();
    assert_eq!(a.camera, "--log");
    assert!(!a.log);
}

#[test]
fn parser_errors() {
    let mut p = ArgParser::new();
    assert!(matches!(p.feed("--camera".to_string()), ArgEvent::Continue));
    assert_eq!(p.pending, PendingValue::Camera);
    assert_eq!(p.finish().err().unwrap(), "--camera needs a value");

    let mut p = ArgParser::new();
    p.feed("--fps".to_string());
    assert_eq!(p.finish().err().unwrap(), "--fps needs a value");

    let mut p = ArgParser::new();
    p.feed("--path".to_string());
    assert_eq!(p.finish().err().unwrap(), "--path needs a value");

    let mut p = ArgParser::new();
    match p.feed("--bogus".to_string()) {
        ArgEvent::Fail(m) => assert_eq!(m, format!("unknown argument \"--bogus\"\n{}", usage())),
        _ => panic!("unknown argument accepted"),
    }

    let mut p = ArgParser::new();
    match p.feed("a\"b".to_string()) {
        ArgEvent::Fail(m) => assert!(m.starts_with("unknown argument \"a\\\"b\"\n")),
        _ => panic!("unknown argument accepted"),
    }

    let mut p = ArgParser::new();
    assert!(matches!(p.feed("-h".to_string()), ArgEvent::ShowHelp));
    assert!(matches!(p.feed("--help".to_string()), ArgEvent::ShowHelp));
}

#[test]
fn labels_by_format() {
    assert_eq!(format_labels(V4L2_PIX_FMT_RGB24), ("RGB24", "passthrough"));
    assert_eq!(format_labels(V4L2_PIX_FMT_YUV420), ("YU12", "YU12→RGB8"));
    assert_eq!(format_labels(V4L2_PIX_FMT_YUYV), ("YUYV", "YUYV→RGB8"));
}

#[test]
fn frame_conversion_dispatch() {
    let src = [82u8, 200, 150, 90];
    let mut a = [0u8; 6];
    let mut b = [0u8; 6];
    assert!(can_convert(V4L2_PIX_FMT_YUYV, 4, 6, 2, 1, false));
    convert_frame(V4L2_PIX_FMT_YUYV, &src, &mut a, 2, 1, false);
    yuyv_to_rgb8(&src, &mut b, 2, 1, false);
    assert_eq!(a, b);

    assert!(!can_convert(V4L2_PIX_FMT_YUYV, 3, 6, 2, 1, false));
    assert!(!can_convert(V4L2_PIX_FMT_YUYV, 8, 12, 3, 1, false));
    assert!(!can_convert(V4L2_PIX_FMT_YUV420, 100, 100, 3, 2, false));
    assert!(can_convert(V4L2_PIX_FMT_YUV420, 12, 24, 4, 2, false));
    assert!(!can_convert(V4L2_PIX_FMT_YUV420, 11, 24, 4, 2, false));
    assert!(can_convert(V4L2_PIX_FMT_RGB24, 24, 24, 4, 2, true));
    assert!(!can_convert(V4L2_PIX_FMT_RGB24, 30, 24, 4, 2, true));
    assert!(!can_convert(V4L2_PIX_FMT_RGB24, 24, 24, 0, 2, true));
    assert!(!can_convert(V4L2_PIX_FMT_RGB24, 24, 24, usize::MAX, 2, false));

    let rgb: Vec<u8> = (0..6).collect();
    let mut out = [0u8; 6];
    convert_frame(V4L2_PIX_FMT_RGB24, &rgb, &mut out, 2, 1, true);
    assert_eq!(out, [3, 4, 5, 0, 1, 2]);
}

#[test]
fn loop_decisions() {
    assert!(stats_due(60));
    assert!(stats_due(120));
    assert!(!stats_due(59));
    assert!(!stats_due(61));
    assert_eq!(on_read_failure(true), ReadFailure::Stop);
    assert_eq!(on_read_failure(false), ReadFailure::Retry);
}
