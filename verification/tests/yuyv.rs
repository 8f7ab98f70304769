use camerad::yuyv::{
    convert, div_scale, clamp8, rgb24_mirror_row, rgb24_mirror_row_scalar, rgb24_to_rgb8,
    yuv420_to_rgb8, yuv420_to_rgb8_scalar, yuyv_to_rgb8, yuyv_to_rgb8_scalar,
};

#[test]
fn yuv420_red_pixel() {
    let w = 2usize;
    let h = 2usize;
    let uv = (w / 2) * (h / 2);
    let mut frame = vec![0u8; w * h + uv * 2];
    for y in frame.iter_mut().take(w * h) {
        *y = 80;
    }
    // U=0 (neutral, no blue) at y_size
    frame[w * h] = 0;
    // V=255 (max red) at y_size + uv
    frame[w * h + uv] = 255;
    let mut dst = vec![0u8; w * h * 3];
    yuv420_to_rgb8(&frame, &mut dst, w, h, false);
    for px in 0..4 {
        let r = dst[px * 3];
        let g = dst[px * 3 + 1];
        let b = dst[px * 3 + 2];
        assert!(r > g, "R={} should be > G={}", r, g);
        assert!(r > b, "R={} should be > B={}", r, b);
    }
}

#[test]
fn yuv420_neutral_is_gray() {
    let w = 4usize;
    let h = 2usize;
    let uv = (w / 2) * (h / 2);
    let frame = vec![128u8; w * h + uv * 2];
    let mut dst = vec![0u8; w * h * 3];
    yuv420_to_rgb8(&frame, &mut dst, w, h, false);
    for px in 0..w * h {
        let r = dst[px * 3];
        let g = dst[px * 3 + 1];
        let b = dst[px * 3 + 2];
        assert_eq!(r, g, "gray: R={} != G={}", r, g);
        assert_eq!(g, b, "gray: G={} != B={}", g, b);
    }
}

#[test]
fn rgb24_passthrough_no_mirror() {
    let src: Vec<u8> = (0..24).collect();
    let mut dst = vec![0u8; 24];
    rgb24_to_rgb8(&src, &mut dst, 2, 1, false);
    assert_eq!(dst, src);
}

#[test]
fn rgb24_mirror_reverses_row() {
    let src = vec![1u8, 2, 3, 4, 5, 6, 7, 8, 9, 10, 11, 12];
    let mut dst = vec![0u8; 12];
    rgb24_to_rgb8(&src, &mut dst, 4, 1, true);
    assert_eq!(&dst[0..3], &[10, 11, 12]);
    assert_eq!(&dst[3..6], &[7, 8, 9]);
    assert_eq!(&dst[6..9], &[4, 5, 6]);
    assert_eq!(&dst[9..12], &[1, 2, 3]);
}

#[test]
fn rgb24_mirror_multi_row() {
    let src: Vec<u8> = (0..24).collect();
    let mut dst = vec![0u8; 24];
    rgb24_to_rgb8(&src, &mut dst, 2, 2, true);
    assert_eq!(&dst[0..3], &[3, 4, 5]);
    assert_eq!(&dst[3..6], &[0, 1, 2]);
    assert_eq!(&dst[6..9], &[9, 10, 11]);
    assert_eq!(&dst[9..12], &[6, 7, 8]);
}

#[test]
fn gray_is_gray() {
    let src = [128u8; 8];
    let mut dst = [0u8; 6];
    yuyv_to_rgb8(&src, &mut dst, 2, 1, false);
    assert_eq!(dst, [130, 130, 130, 130, 130, 130]);
}

#[test]
fn mirror_reverses_row() {
    let mut src = vec![0u8; 16];
    src[0] = 82;
    src[1] = 90;
    src[2] = 30;
    src[3] = 240;
    src[4] = 200;
    src[5] = 160;
    src[6] = 150;
    src[7] = 240;
    src[8] = 70;
    src[9] = 90;
    src[10] = 40;
    src[11] = 240;
    src[12] = 220;
    src[13] = 160;
    src[14] = 210;
    src[15] = 240;
    let mut plain = vec![0u8; 12];
    let mut folded = vec![0u8; 12];
    yuyv_to_rgb8(&src, &mut plain, 4, 1, false);
    yuyv_to_rgb8(&src, &mut folded, 4, 1, true);
    assert_eq!(folded[0..3], plain[9..12]);
    assert_eq!(folded[3..6], plain[6..9]);
    assert_eq!(folded[6..9], plain[3..6]);
    assert_eq!(folded[9..12], plain[0..3]);
}

#[test]
fn blue_dominates_for_high_u() {
    let src = [82, 200, 150, 90];
    let mut dst = [0u8; 6];
    yuyv_to_rgb8(&src, &mut dst, 2, 1, false);
    assert!(dst[2] > dst[0], "expected blue-ish, got {dst:?}");
    assert!(dst[5] > dst[3], "expected blue-ish, got {dst:?}");
}

fn lcg_next(rng: &mut u64) {
    *rng = rng
        .wrapping_mul(6364136223846793005)
        .wrapping_add(1442695040888963407);
}

#[test]
fn mirror_reverses_row_eight() {
    let mut rng = 0x1234_5678_9abc_def0u64;
    for _ in 0..64 {
        let mut src = vec![0u8; 8 * 2];
        for b in src.iter_mut() {
            lcg_next(&mut rng);
            *b = (rng >> 56) as u8;
        }
        let mut plain = vec![0u8; 8 * 3];
        let mut folded = vec![0u8; 8 * 3];
        yuyv_to_rgb8(&src, &mut plain, 8, 1, false);
        yuyv_to_rgb8(&src, &mut folded, 8, 1, true);
        for i in 0..8 {
            assert_eq!(
                &folded[i * 3..i * 3 + 3],
                &plain[(7 - i) * 3..(7 - i) * 3 + 3],
                "mirror split mismatch at pixel {i} for src {src:?}"
            );
        }
    }
}

#[test]
fn yuv420_neon_matches_scalar_byte_exact() {
    let mut rng = 0xdead_beef_cafe_babeu64;
    let mut mismatches = 0usize;
    for trial in 0..64 {
        for w in [8usize, 16, 32] {
            let h = 8usize;
            let y_size = w * h;
            let uv_size = (w / 2) * (h / 2);
            let mut src = vec![0u8; y_size + uv_size * 2];
            for b in src.iter_mut() {
                lcg_next(&mut rng);
                *b = if trial < 16 {
                    (rng >> 56) as u8
                } else {
                    (rng % 179) as u8
                };
            }
            for mirror in [false, true] {
                let mut fast = vec![0u8; w * h * 3];
                let mut scalar = vec![0u8; w * h * 3];
                yuv420_to_rgb8(&src, &mut fast, w, h, mirror);
                yuv420_to_rgb8_scalar(
                    &src[..y_size],
                    &src[y_size..][..uv_size],
                    &src[y_size + uv_size..][..uv_size],
                    &mut scalar,
                    w,
                    h,
                    mirror,
                );
                for i in 0..fast.len() {
                    if fast[i] != scalar[i] {
                        mismatches += 1;
                    }
                }
            }
        }
    }
    assert_eq!(
        mismatches, 0,
        "yuv420 neon/scalar diverged on {mismatches} bytes"
    );
}

#[test]
fn neon_matches_scalar_byte_exact() {
    let mut rng = 0xdead_beef_cafe_babeu64;
    let mut mismatches = 0usize;
    for trial in 0..64 {
        let mut src = [0u8; 16 * 2 * 4];
        for b in src.iter_mut() {
            lcg_next(&mut rng);
            *b = if trial < 16 {
                (rng >> 56) as u8
            } else {
                (rng % 179) as u8
            };
        }
        for mirror in [false, true] {
            for w in [8usize, 16] {
                let h = 4usize;
                let mut fast = vec![0u8; w * h * 3];
                let mut scalar = vec![0u8; w * h * 3];
                let src_w = &src[..w * h * 2];
                yuyv_to_rgb8(src_w, &mut fast, w, h, mirror);
                yuyv_to_rgb8_scalar(src_w, &mut scalar, w, h, mirror);
                for i in 0..fast.len() {
                    if fast[i] != scalar[i] {
                        mismatches += 1;
                    }
                }
            }
        }
    }
    assert_eq!(
        mismatches,
        0,
        "neon/scalar diverged on {mismatches}/{} bytes",
        9 * 64
    );
}

#[test]
fn rgb24_mirror_neon_matches_scalar_byte_exact() {
    let mut mismatches = 0usize;
    for w in [16usize, 32, 48, 64, 128, 1280] {
        let h = 4usize;
        let row_bytes = w * 3;
        let mut src = vec![0u8; row_bytes];
        for (i, b) in src.iter_mut().enumerate() {
            *b = (i * 7 + 13) as u8;
        }
        for _row in 0..h {
            let mut fast_row = src.clone();
            let mut scalar_row = src.clone();
            rgb24_mirror_row(&mut fast_row, w);
            rgb24_mirror_row_scalar(&mut scalar_row, w);
            for i in 0..row_bytes {
                if fast_row[i] != scalar_row[i] {
                    mismatches += 1;
                }
            }
        }
    }
    assert_eq!(
        mismatches, 0,
        "rgb24 mirror neon/scalar diverged on {mismatches} bytes"
    );
}

// ---- further cases ----

#[test]
fn clamp8_limits() {
    assert_eq!(clamp8(-5), 0);
    assert_eq!(clamp8(0), 0);
    assert_eq!(clamp8(200), 200);
    assert_eq!(clamp8(255), 255);
    assert_eq!(clamp8(256), 255);
    assert_eq!(clamp8(i32::MAX), 255);
}

#[test]
fn div_scale_rounds_toward_zero() {
    assert_eq!(div_scale(1023), 0);
    assert_eq!(div_scale(1024), 1);
    assert_eq!(div_scale(2047), 1);
    assert_eq!(div_scale(-1023), 0);
    assert_eq!(div_scale(-1024), -1);
    assert_eq!(div_scale(-2047), -1);
    assert_eq!(div_scale(0), 0);
}

#[test]
fn convert_exact_values() {
    // y = 128, neutral chroma: 1192 * 112 / 1024 = 130.375
    assert_eq!(convert(128, 0, 0), [130, 130, 130]);
    // black level
    assert_eq!(convert(16, 0, 0), [0, 0, 0]);
    // y = 235: 1192 * 219 / 1024 = 254.9
    assert_eq!(convert(235, 0, 0), [254, 254, 254]);
    // y = 82, u = 72, v = -38: base = 1192 * 66 = 78672;
    // r = (78672 - 62092) / 1024 = 16, g = (78672 + 31654 - 28800) / 1024 = 79,
    // b = (78672 + 148752) / 1024 = 222
    assert_eq!(convert(82, 72, -38), [16, 79, 222]);
    // strong negative V: red clamps to 0, green = 106624 / 1024 = 104
    assert_eq!(convert(16, 0, -128), [0, 104, 0]);
}

#[test]
fn neutral_chroma_gray_for_every_luma() {
    for y in 0..=255i32 {
        let rgb = convert(y, 0, 0);
        assert_eq!(rgb[0], rgb[1]);
        assert_eq!(rgb[1], rgb[2]);
    }
}

#[test]
fn yuyv_pairs_share_chroma() {
    let src = [82u8, 200, 150, 90, 16, 128, 235, 128];
    let mut dst = [0u8; 12];
    yuyv_to_rgb8(&src, &mut dst, 4, 1, false);
    assert_eq!(&dst[0..3], &convert(82, 72, -38));
    assert_eq!(&dst[3..6], &convert(150, 72, -38));
    assert_eq!(&dst[6..9], &[0, 0, 0]);
    assert_eq!(&dst[9..12], &[254, 254, 254]);
}

#[test]
fn yuyv_leaves_bytes_past_frame() {
    let src = [128u8; 8];
    let mut dst = [7u8; 9];
    yuyv_to_rgb8(&src, &mut dst, 2, 1, false);
    assert_eq!(dst, [130, 130, 130, 130, 130, 130, 7, 7, 7]);
}

#[test]
fn yuyv_mirror_twice_rows_restores() {
    let src: Vec<u8> = (0..32).map(|i| (i * 37 + 11) as u8).collect();
    let mut plain = vec![0u8; 24];
    let mut folded = vec![0u8; 24];
    yuyv_to_rgb8(&src, &mut plain, 4, 2, false);
    yuyv_to_rgb8(&src, &mut folded, 4, 2, true);
    let mut back = vec![0u8; 24];
    rgb24_to_rgb8(&folded, &mut back, 4, 2, true);
    assert_eq!(back, plain);
}

#[test]
fn yuv420_chroma_is_subsampled() {
    // 4x2 frame: Y plane 8 bytes, U and V planes of 2 samples each.
    let mut frame = vec![128u8; 8 + 2 + 2];
    frame[8] = 200; // U for columns 0-1
    frame[9] = 128; // U for columns 2-3
    let mut dst = vec![0u8; 24];
    yuv420_to_rgb8(&frame, &mut dst, 4, 2, false);
    let tinted = convert(128, 72, 0);
    let gray = convert(128, 0, 0);
    for row in 0..2 {
        for col in 0..4 {
            let o = (row * 4 + col) * 3;
            let want = if col < 2 { tinted } else { gray };
            assert_eq!(&dst[o..o + 3], &want);
        }
    }
}

#[test]
fn yuv420_mirror_reverses_rows() {
    let frame: Vec<u8> = (0..12).map(|i| (i * 29 + 3) as u8).collect();
    let mut plain = vec![0u8; 24];
    let mut folded = vec![0u8; 24];
    yuv420_to_rgb8(&frame, &mut plain, 4, 2, false);
    yuv420_to_rgb8(&frame, &mut folded, 4, 2, true);
    for row in 0..2 {
        for col in 0..4 {
            let o = (row * 4 + col) * 3;
            let m = (row * 4 + (3 - col)) * 3;
            assert_eq!(&folded[o..o + 3], &plain[m..m + 3]);
        }
    }
}

#[test]
fn yuv420_scalar_odd_width_reads_extra_chroma() {
    // width 3, height 1: columns 0-1 use chroma sample 0, column 2 sample 1.
    let y = [128u8, 128, 128];
    let u = [200u8, 128];
    let v = [128u8, 128];
    let mut dst = [0u8; 9];
    yuv420_to_rgb8_scalar(&y, &u, &v, &mut dst, 3, 1, false);
    assert_eq!(&dst[0..3], &convert(128, 72, 0));
    assert_eq!(&dst[3..6], &convert(128, 72, 0));
    assert_eq!(&dst[6..9], &convert(128, 0, 0));
}

#[test]
fn rgb24_mirror_row_single_pixel_and_odd() {
    let mut one = vec![1u8, 2, 3, 9];
    rgb24_mirror_row_scalar(&mut one, 1);
    assert_eq!(one, vec![1, 2, 3, 9]);
    let mut three = vec![1u8, 2, 3, 4, 5, 6, 7, 8, 9, 100];
    rgb24_mirror_row(&mut three, 3);
    assert_eq!(three, vec![7, 8, 9, 4, 5, 6, 1, 2, 3, 100]);
}

#[test]
fn rgb24_mirror_twice_is_identity() {
    let src: Vec<u8> = (0..36).map(|i| (i * 7 + 1) as u8).collect();
    let mut once = vec![0u8; 36];
    let mut twice = vec![0u8; 36];
    rgb24_to_rgb8(&src, &mut once, 4, 3, true);
    rgb24_to_rgb8(&once, &mut twice, 4, 3, true);
    assert_eq!(twice, src);
    assert_ne!(once, src);
}

#[test]
fn rgb24_copies_whole_source_and_keeps_rest() {
    // 1x1 frame, but src holds 4 bytes: all 4 are copied, the rest kept.
    let src = [1u8, 2, 3, 4];
    let mut dst = [9u8; 6];
    rgb24_to_rgb8(&src, &mut dst, 1, 1, true);
    assert_eq!(dst, [1, 2, 3, 4, 9, 9]);
}
