use weaver::weave_scale_u16;
use weaver::weave_scale_u8;
use weaver::ScalingFunction;

fn rgba8_source_4x4() -> Vec<u8> {
    // Pixel (x, y) holds the four bytes 4*(4*y + x) .. 4*(4*y + x) + 3.
    let mut src: Vec<u8> = Vec::new();
    for y in 0..4u16 {
        for x in 0..4u16 {
            let base = 4 * (4 * y + x);
            for c in 0..4u16 {
                src.push((base + c) as u8);
            }
        }
    }
    src
}

#[test]
fn nearest_downscale_picks_quadrant_pixels() {
    // 4x4 tightly packed source (stride 16), scaled to 2x2 with
    // nearest-neighbour: output pixel (X, Y) is source pixel (2X+1, 2Y+1),
    // one pixel out of each quadrant of the source.
    let src = rgba8_source_4x4();
    let mut dst: Vec<u8> = vec![0; 16];
    let r = weave_scale_u8(&src, 16, 4, 4, &mut dst, 8, 2, 2, ScalingFunction::Nearest, false);
    assert_eq!(r, 0);
    for yy in 0..2usize {
        for xx in 0..2usize {
            let sx = 2 * xx + 1;
            let sy = 2 * yy + 1;
            let expect = &src[16 * sy + 4 * sx..16 * sy + 4 * sx + 4];
            let got = &dst[8 * yy + 4 * xx..8 * yy + 4 * xx + 4];
            assert_eq!(got, expect);
        }
    }
}

#[test]
fn single_pixel_identity_for_every_filter() {
    // A 1x1 source scaled to 1x1 must reproduce the pixel for any filter.
    let src: Vec<u8> = vec![12, 34, 56, 78];
    for selector in 1..=10usize {
        let mut dst: Vec<u8> = vec![0; 4];
        let f = ScalingFunction::from(selector);
        let r = weave_scale_u8(&src, 4, 1, 1, &mut dst, 4, 1, 1, f, false);
        assert_eq!(r, 0);
        assert_eq!(dst, src);
    }
}

#[test]
fn same_size_nearest_round_trips_packed_buffer() {
    // Packing an already-packed buffer and resizing to the same size with
    // nearest-neighbour returns byte-identical content.
    let src = rgba8_source_4x4();
    let mut dst: Vec<u8> = vec![0xCC; 64];
    let r = weave_scale_u8(&src, 16, 4, 4, &mut dst, 16, 4, 4, ScalingFunction::Nearest, false);
    assert_eq!(r, 0);
    assert_eq!(dst, src);
}

#[test]
fn same_size_any_filter_round_trips_padded_source() {
    // An identity resize copies the pixels even from a padded source and
    // with a convolution filter.
    let src = rgba8_source_4x4();
    let mut padded: Vec<u8> = Vec::new();
    for y in 0..4usize {
        padded.extend_from_slice(&src[16 * y..16 * y + 16]);
        padded.extend_from_slice(&[0xAB, 0xAB, 0xAB, 0xAB]);
    }
    let mut dst: Vec<u8> = vec![0; 64];
    let r = weave_scale_u8(&padded, 20, 4, 4, &mut dst, 16, 4, 4, ScalingFunction::Lanczos, true);
    assert_eq!(r, 0);
    assert_eq!(dst, src);
}

#[test]
fn out_of_range_selector_falls_back_to_bilinear() {
    assert_eq!(ScalingFunction::from(0), ScalingFunction::Bilinear);
    assert_eq!(ScalingFunction::from(11), ScalingFunction::Bilinear);
    assert_eq!(ScalingFunction::from(999), ScalingFunction::Bilinear);
    assert_eq!(ScalingFunction::from(1), ScalingFunction::Bilinear);
    assert_eq!(ScalingFunction::from(2), ScalingFunction::Nearest);
    assert_eq!(ScalingFunction::from(10), ScalingFunction::Box);
}

#[test]
fn out_of_range_selector_scales_like_bilinear() {
    let src = rgba8_source_4x4();
    let mut dst_fallback: Vec<u8> = vec![0; 16];
    let r1 = weave_scale_u8(
        &src,
        16,
        4,
        4,
        &mut dst_fallback,
        8,
        2,
        2,
        ScalingFunction::from(0),
        false,
    );
    let mut dst_bilinear: Vec<u8> = vec![0; 16];
    let r2 = weave_scale_u8(
        &src,
        16,
        4,
        4,
        &mut dst_bilinear,
        8,
        2,
        2,
        ScalingFunction::from(1),
        false,
    );
    assert_eq!(r1, 0);
    assert_eq!(r2, 0);
    assert_eq!(dst_fallback, dst_bilinear);
}

#[test]
fn error_codes_follow_the_foreign_convention() {
    assert_eq!(weaver::map_error_code(Ok(())), 0);
    assert_eq!(
        weaver::map_error_code(Err(pic_scale::PicScaleError::ZeroImageDimensions)),
        1
    );
    assert_ne!(
        weaver::map_error_code(Err(pic_scale::PicScaleError::UnknownResizingFilter)),
        0
    );
}

#[test]
fn zero_dimension_source_reports_engine_code() {
    let mut dst: Vec<u8> = vec![9; 16];
    let r = weave_scale_u8(&[], 0, 0, 0, &mut dst, 8, 2, 2, ScalingFunction::Nearest, false);
    assert_eq!(r, 1);
    assert_eq!(dst, vec![9; 16]);
}

#[test]
fn padded_source_rows_do_not_leak_into_output() {
    // The same pixels once tightly packed and once behind noisy padding
    // must resize identically.
    let src = rgba8_source_4x4();
    let mut padded: Vec<u8> = Vec::new();
    for y in 0..4usize {
        padded.extend_from_slice(&src[16 * y..16 * y + 16]);
        padded.extend_from_slice(&[0xF0, 0xF1, 0xF2, 0xF3]);
    }
    let mut dst_packed: Vec<u8> = vec![0; 16];
    let mut dst_padded: Vec<u8> = vec![0; 16];
    let r1 = weave_scale_u8(&src, 16, 4, 4, &mut dst_packed, 8, 2, 2, ScalingFunction::Box, false);
    let r2 = weave_scale_u8(
        &padded,
        20,
        4,
        4,
        &mut dst_padded,
        8,
        2,
        2,
        ScalingFunction::Box,
        false,
    );
    assert_eq!(r1, 0);
    assert_eq!(r2, 0);
    assert_eq!(dst_packed, dst_padded);
}

fn words_to_bytes(words: &[u16]) -> Vec<u8> {
    let mut bytes: Vec<u8> = Vec::new();
    for w in words {
        bytes.push((w & 0xFF) as u8);
        bytes.push((w >> 8) as u8);
    }
    bytes
}

#[test]
fn alignment_offsets_produce_identical_output() {
    // The same source bytes handed in once at an aligned address and once
    // at every misaligned offset below the element size must produce
    // bit-identical output for a deterministic filter.
    let words: Vec<u16> = (0..32u16).map(|i| 512 + 17 * i).collect();
    let src = words_to_bytes(&words); // 4x2 pixels, stride 32 bytes
    let mut dst_aligned: Vec<u8> = vec![0; 16];
    let r1 = weave_scale_u16(
        &src,
        0,
        32,
        4,
        2,
        &mut dst_aligned,
        16,
        2,
        1,
        16,
        ScalingFunction::Nearest,
        false,
    );
    assert_eq!(r1, 0);
    for offset in 1..2usize {
        let mut dst_offset: Vec<u8> = vec![0; 16];
        let r2 = weave_scale_u16(
            &src,
            offset,
            32,
            4,
            2,
            &mut dst_offset,
            16,
            2,
            1,
            16,
            ScalingFunction::Nearest,
            false,
        );
        assert_eq!(r2, 0);
        assert_eq!(dst_aligned, dst_offset);
    }
}

#[test]
fn sixteen_bit_nearest_picks_expected_pixel() {
    // 2x2 source of 10-bit values scaled to 1x1 with nearest-neighbour:
    // the output is source pixel (1, 1).
    let words: Vec<u16> = vec![
        1, 2, 3, 4, 10, 20, 30, 40, // row 0: pixels (0,0) (1,0)
        5, 6, 7, 8, 600, 700, 800, 900, // row 1: pixels (0,1) (1,1)
    ];
    let src = words_to_bytes(&words);
    let mut dst: Vec<u8> = vec![0; 8];
    let r = weave_scale_u16(&src, 0, 16, 2, 2, &mut dst, 8, 1, 1, 10, ScalingFunction::Nearest, false);
    assert_eq!(r, 0);
    assert_eq!(dst, words_to_bytes(&[600, 700, 800, 900]));
}

#[test]
fn odd_stride_takes_copy_path_and_still_matches() {
    // An odd source stride defeats the borrow path even at an aligned
    // address; the repacked pixels must resize exactly like the packed
    // form of the same pixels.
    let words: Vec<u16> = (0..8u16).map(|i| 1000 + i).collect();
    let packed = words_to_bytes(&words); // 2x1 pixels, 16 bytes
    let mut odd: Vec<u8> = packed.clone();
    odd.push(0xAA); // stride 17, one padding byte
    let mut dst_packed: Vec<u8> = vec![0; 8];
    let r1 = weave_scale_u16(
        &packed,
        0,
        16,
        2,
        1,
        &mut dst_packed,
        8,
        1,
        1,
        16,
        ScalingFunction::Nearest,
        false,
    );
    let mut dst_odd: Vec<u8> = vec![0; 8];
    let r2 = weave_scale_u16(
        &odd,
        0,
        17,
        2,
        1,
        &mut dst_odd,
        8,
        1,
        1,
        16,
        ScalingFunction::Nearest,
        false,
    );
    assert_eq!(r1, 0);
    assert_eq!(r2, 0);
    assert_eq!(dst_packed, dst_odd);
    // Nearest-neighbour from 2x1 to 1x1 picks pixel (1, 0).
    assert_eq!(dst_packed, words_to_bytes(&[1004, 1005, 1006, 1007]));
}

#[test]
fn sixteen_bit_same_size_round_trips() {
    let words: Vec<u16> = (0..16u16).map(|i| 3000 + 5 * i).collect();
    let src = words_to_bytes(&words); // 2x2 pixels, stride 16
    let mut dst: Vec<u8> = vec![0; 32];
    let r = weave_scale_u16(&src, 0, 16, 2, 2, &mut dst, 16, 2, 2, 16, ScalingFunction::Lanczos, false);
    assert_eq!(r, 0);
    assert_eq!(dst, src);
}

#[test]
fn sixteen_bit_identity_through_copy_path() {
    // An odd stride forces the repack path; an identity resize must still
    // reproduce the words exactly.
    let words: Vec<u16> = (0..8u16).map(|i| 40000 + 3 * i).collect();
    let packed = words_to_bytes(&words); // 2x1 pixels, 16 bytes
    let mut odd = packed.clone();
    odd.push(0x5A); // stride 17, one padding byte
    let mut dst: Vec<u8> = vec![0; 16];
    let r = weave_scale_u16(&odd, 0, 17, 2, 1, &mut dst, 16, 2, 1, 16, ScalingFunction::Cubic, false);
    assert_eq!(r, 0);
    assert_eq!(dst, packed);
}

#[test]
fn destination_stride_padding_is_untouched() {
    let src = rgba8_source_4x4();
    let mut dst: Vec<u8> = vec![0x77; 24];
    let r = weave_scale_u8(&src, 16, 4, 4, &mut dst, 12, 2, 2, ScalingFunction::Nearest, false);
    assert_eq!(r, 0);
    assert_eq!(&dst[8..12], &[0x77; 4]);
    assert_eq!(&dst[20..24], &[0x77; 4]);
}
