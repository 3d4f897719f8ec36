use hypercalibrate::color::{
    apply_lut, apply_range_expansion, default_enabled, sample_channel_sums, yuyv_to_rgb_corrected,
    ColorCorrectionLUT, ColorSpace, FixedPointMatrix, QuantizationRange,
};

#[test]
fn test_limited_range_expansion() {
    let yuyv = vec![16u8, 128, 16, 128];
    let mut rgb = vec![0u8; 6];

    yuyv_to_rgb_corrected(&yuyv, &mut rgb, 2, 1, ColorSpace::Bt709, QuantizationRange::Limited);

    assert!(rgb[0] < 10, "R should be near 0, got {}", rgb[0]);
    assert!(rgb[1] < 10, "G should be near 0, got {}", rgb[1]);
    assert!(rgb[2] < 10, "B should be near 0, got {}", rgb[2]);
}

#[test]
fn test_full_range_passthrough() {
    let yuyv = vec![128u8, 128, 128, 128];
    let mut rgb = vec![0u8; 6];

    yuyv_to_rgb_corrected(&yuyv, &mut rgb, 2, 1, ColorSpace::Bt709, QuantizationRange::Full);

    assert!((rgb[0] as i32 - 128).abs() < 5, "R should be near 128, got {}", rgb[0]);
    assert!((rgb[1] as i32 - 128).abs() < 5, "G should be near 128, got {}", rgb[1]);
    assert!((rgb[2] as i32 - 128).abs() < 5, "B should be near 128, got {}", rgb[2]);
}

#[test]
fn test_color_space_matrix() {
    let bt601 = FixedPointMatrix::from_color_space(ColorSpace::Bt601);
    let bt709 = FixedPointMatrix::from_color_space(ColorSpace::Bt709);

    assert_ne!(bt601.kr, bt709.kr);
    assert_ne!(bt601.kb, bt709.kb);
}

#[test]
fn fixed_point_matrices_are_the_scaled_coefficients() {
    let m = FixedPointMatrix::from_color_space(ColorSpace::Bt601);
    assert_eq!((m.kr, m.kg_u, m.kg_v, m.kb), (358, 88, 182, 453));
    let m = FixedPointMatrix::from_color_space(ColorSpace::Bt709);
    assert_eq!((m.kr, m.kg_u, m.kg_v, m.kb), (403, 47, 119, 475));
    let m = FixedPointMatrix::from_color_space(ColorSpace::Bt2020);
    assert_eq!((m.kr, m.kg_u, m.kg_v, m.kb), (377, 42, 146, 481));
    for cs in ColorSpace::all() {
        let m = FixedPointMatrix::from_color_space(*cs);
        assert_eq!(m.kr, (match cs {
            ColorSpace::Bt601 => 1.402f32,
            ColorSpace::Bt709 => 1.5748f32,
            ColorSpace::Bt2020 => 1.4746f32,
        } * 256.0) as i32);
    }
}

#[test]
fn limited_black_is_exactly_black_and_white_is_white() {
    let yuyv = vec![16u8, 128, 235, 128];
    let mut rgb = vec![1u8; 6];
    yuyv_to_rgb_corrected(&yuyv, &mut rgb, 2, 1, ColorSpace::Bt709, QuantizationRange::Limited);
    // (235 - 16) * 298 >> 8 = 254
    assert_eq!(rgb, vec![0, 0, 0, 254, 254, 254]);
}

#[test]
fn full_range_grey_is_exactly_grey() {
    let yuyv = vec![128u8, 128, 128, 128];
    let mut rgb = vec![0u8; 6];
    yuyv_to_rgb_corrected(&yuyv, &mut rgb, 2, 1, ColorSpace::Bt709, QuantizationRange::Full);
    assert_eq!(rgb, vec![128, 128, 128, 128, 128, 128]);
}

#[test]
fn corrected_conversion_exact_values() {
    // BT.709, full range: Y0 = 100, U = 28 (-100), Y1 = 150, V = 228 (+100)
    // v_r = 40300 >> 8 = 157, uv_g = (-4700 + 11900) >> 8 = 28, u_b = -47500 >> 8 = -186
    let yuyv = vec![100u8, 28, 150, 228];
    let mut rgb = vec![0u8; 6];
    yuyv_to_rgb_corrected(&yuyv, &mut rgb, 2, 1, ColorSpace::Bt709, QuantizationRange::Full);
    assert_eq!(rgb, vec![255, 72, 0, 255, 122, 0]);
    // limited range: y0 = 84*298>>8 = 97, y1 = 134*298>>8 = 155,
    // u = -100*291>>8 = -114, v = 100*291>>8 = 113
    // BT.601: v_r = 358*113>>8 = 158, uv_g = (88*-114 + 182*113)>>8 = 41, u_b = 453*-114>>8 = -202
    yuyv_to_rgb_corrected(&yuyv, &mut rgb, 2, 1, ColorSpace::Bt601, QuantizationRange::Limited);
    assert_eq!(rgb, vec![255, 56, 0, 255, 114, 0]);
}

#[test]
fn labels() {
    assert_eq!(ColorSpace::Bt601.as_str(), "BT.601 (SD)");
    assert_eq!(ColorSpace::Bt709.as_str(), "BT.709 (HD)");
    assert_eq!(ColorSpace::Bt2020.as_str(), "BT.2020 (UHD)");
    assert_eq!(QuantizationRange::Limited.as_str(), "Limited (16-235)");
    assert_eq!(QuantizationRange::Full.as_str(), "Full (0-255)");
    assert_eq!(ColorSpace::all(), &[ColorSpace::Bt601, ColorSpace::Bt709, ColorSpace::Bt2020]);
    assert_eq!(ColorSpace::default(), ColorSpace::Bt709);
    assert_eq!(QuantizationRange::default(), QuantizationRange::Limited);
    assert!(!default_enabled());
}

#[test]
fn range_expansion_values() {
    let mut rgb = vec![0u8, 15, 16, 17, 126, 235, 236, 255];
    apply_range_expansion(&mut rgb, QuantizationRange::Limited);
    assert_eq!(rgb, vec![0, 0, 0, 1, 128, 255, 255, 255]);

    let mut rgb = vec![0u8, 16, 235, 255];
    apply_range_expansion(&mut rgb, QuantizationRange::Full);
    assert_eq!(rgb, vec![0, 16, 235, 255]);
}

fn inverting_lut(is_identity: bool) -> ColorCorrectionLUT {
    let mut gamma_lut = [0u8; 256];
    let mut bc_lut = [0u8; 256];
    for i in 0..256 {
        gamma_lut[i] = (i / 2) as u8;
        bc_lut[i] = 255 - i as u8;
    }
    ColorCorrectionLUT { gamma_lut, bc_lut, is_identity }
}

#[test]
fn lut_composes_gamma_then_brightness_contrast() {
    let lut = inverting_lut(false);
    assert_eq!(lut.apply(200), 155);
    let mut rgb = vec![0u8, 100, 255];
    apply_lut(&mut rgb, &lut);
    assert_eq!(rgb, vec![255, 205, 128]);
}

#[test]
fn identity_lut_changes_nothing() {
    let lut = inverting_lut(true);
    assert_eq!(lut.apply(200), 200);
    let mut rgb = vec![0u8, 100, 255];
    apply_lut(&mut rgb, &lut);
    assert_eq!(rgb, vec![0, 100, 255]);
}

#[test]
fn channel_sums_sample_every_nth_pixel() {
    // five pixels and two bytes that form none
    let rgb: Vec<u8> = vec![1, 2, 3, 10, 20, 30, 100, 101, 102, 4, 5, 6, 7, 8, 9, 250, 251];
    let all = sample_channel_sums(&rgb, 1);
    assert_eq!((all.red, all.green, all.blue, all.count), (122, 136, 150, 5));
    let every_other = sample_channel_sums(&rgb, 2);
    assert_eq!((every_other.red, every_other.green, every_other.blue, every_other.count), (108, 111, 114, 3));
    let zero_step = sample_channel_sums(&rgb, 0);
    assert_eq!(zero_step, all);
    let huge = sample_channel_sums(&rgb, usize::MAX);
    assert_eq!((huge.red, huge.green, huge.blue, huge.count), (1, 2, 3, 1));
    let none = sample_channel_sums(&[1, 2], 8);
    assert_eq!((none.red, none.green, none.blue, none.count), (0, 0, 0, 0));
}
