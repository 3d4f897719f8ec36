use hypercalibrate::output::{
    classify_write, drop_warning_due, fourcc, rgb_to_bgr, rgb_to_yuyv, Encoded, ErrorCodes, FormatRequest,
    FrameError, OutputState, PixelFormat, WriteEvent, WriteVerdict,
};

const CODES: ErrorCodes = ErrorCodes { again: 11, would_block: 11, invalid: 22 };

#[test]
fn test_fourcc() {
    assert_eq!(fourcc(b"YUYV"), 0x56595559);
}

#[test]
fn test_rgb_to_yuyv_basic() {
    let rgb = vec![255, 0, 0, 255, 0, 0];
    let yuyv = rgb_to_yuyv(&rgb, 2, 1);
    assert_eq!(yuyv.len(), 4);
}

#[test]
fn test_rgb_to_bgr() {
    let rgb = vec![1, 2, 3, 4, 5, 6];
    let bgr = rgb_to_bgr(&rgb);
    assert_eq!(bgr, vec![3, 2, 1, 6, 5, 4]);
}

#[test]
fn fourcc_is_little_endian() {
    assert_eq!(fourcc(b"RGB3"), u32::from_le_bytes(*b"RGB3"));
    assert_eq!(fourcc(&[0xff, 0xff, 0xff, 0xff]), u32::MAX);
    assert_eq!(fourcc(&[1, 0, 0, 0]), 1);
    assert_eq!(fourcc(&[0, 0, 0, 1]), 1 << 24);
}

#[test]
fn pixel_format_properties() {
    assert_eq!(PixelFormat::Yuyv.fourcc(), 0x56595559);
    assert_eq!(PixelFormat::Rgb24.fourcc(), 0x33424752);
    assert_eq!(PixelFormat::Bgr24.fourcc(), 0x33524742);
    assert_eq!(PixelFormat::Yuyv.bytes_per_pixel(), 2);
    assert_eq!(PixelFormat::Rgb24.bytes_per_pixel(), 3);
    assert_eq!(PixelFormat::Bgr24.bytes_per_pixel(), 3);
    assert_eq!(PixelFormat::Yuyv.name(), "YUYV");
    assert_eq!(PixelFormat::Rgb24.name(), "RGB24");
    assert_eq!(PixelFormat::Bgr24.name(), "BGR24");
}

#[test]
fn rgb_to_yuyv_exact_values() {
    // red: Y = ((66*255 + 128) >> 8) + 16 = 82, U = ((-38*255 + 128) >> 8) + 128 = 90,
    // V = ((112*255 + 128) >> 8) + 128 = 240
    assert_eq!(rgb_to_yuyv(&[255, 0, 0, 255, 0, 0], 2, 1), vec![82, 90, 82, 240]);
    // white then black: chroma comes from the first pixel
    assert_eq!(rgb_to_yuyv(&[255, 255, 255, 0, 0, 0], 2, 1), vec![235, 128, 16, 128]);
    // blue then white
    assert_eq!(rgb_to_yuyv(&[0, 0, 255, 255, 255, 255], 2, 1), vec![41, 240, 235, 110]);
}

#[test]
fn rgb_to_yuyv_odd_width_repeats_last_pixel() {
    // 3x2 image: each row ends in a pair whose second luma repeats the first
    let rgb = vec![
        0, 0, 0, 255, 255, 255, 255, 0, 0, //
        0, 0, 255, 0, 0, 0, 255, 255, 255,
    ];
    let yuyv = rgb_to_yuyv(&rgb, 3, 2);
    assert_eq!(
        yuyv,
        vec![
            16, 128, 235, 128, 82, 90, 82, 240, //
            41, 240, 16, 110, 235, 128, 235, 128,
        ]
    );
}

#[test]
fn rgb_to_yuyv_empty_images() {
    assert_eq!(rgb_to_yuyv(&[], 0, 5), Vec::<u8>::new());
    assert_eq!(rgb_to_yuyv(&[], 5, 0), Vec::<u8>::new());
}

#[test]
fn rgb_to_bgr_drops_partial_pixel() {
    assert_eq!(rgb_to_bgr(&[1, 2, 3, 4, 5]), vec![3, 2, 1]);
    assert_eq!(rgb_to_bgr(&[]), Vec::<u8>::new());
}

#[test]
fn write_classification() {
    assert_eq!(classify_write(WriteEvent::Written, &CODES), WriteVerdict::Delivered);
    assert_eq!(classify_write(WriteEvent::Failed(Some(11)), &CODES), WriteVerdict::Dropped);
    assert_eq!(classify_write(WriteEvent::Failed(Some(22)), &CODES), WriteVerdict::Rejected);
    assert_eq!(classify_write(WriteEvent::Failed(Some(5)), &CODES), WriteVerdict::Failed);
    assert_eq!(classify_write(WriteEvent::Failed(None), &CODES), WriteVerdict::Failed);
    assert_eq!(classify_write(WriteEvent::NotOpen, &CODES), WriteVerdict::NotConnected);
    let split = ErrorCodes { again: 11, would_block: 35, invalid: 22 };
    assert_eq!(classify_write(WriteEvent::Failed(Some(35)), &split), WriteVerdict::Dropped);
}

#[test]
fn backpressure_drops_every_frame_and_never_fails() {
    let mut state = OutputState::new(2, 1);
    state.accept_format(PixelFormat::Yuyv);
    let n = 250;
    for _ in 0..n {
        let verdict = state.record_write(WriteEvent::Failed(Some(11)), &CODES);
        assert_eq!(verdict, WriteVerdict::Dropped);
    }
    assert_eq!(state.dropped_count, n);
    assert_eq!(state.frame_count, n);
}

#[test]
fn counters_follow_the_verdicts() {
    let mut state = OutputState::new(2, 1);
    assert_eq!(state.record_write(WriteEvent::Written, &CODES), WriteVerdict::Delivered);
    assert_eq!(state.record_write(WriteEvent::Failed(Some(22)), &CODES), WriteVerdict::Rejected);
    assert_eq!(state.record_write(WriteEvent::Failed(Some(5)), &CODES), WriteVerdict::Failed);
    assert_eq!(state.record_write(WriteEvent::NotOpen, &CODES), WriteVerdict::NotConnected);
    assert_eq!(state.record_write(WriteEvent::Failed(Some(11)), &CODES), WriteVerdict::Dropped);
    assert_eq!((state.frame_count, state.dropped_count), (2, 1));
    state.frame_count = u64::MAX;
    state.record_write(WriteEvent::Written, &CODES);
    assert_eq!(state.frame_count, 0);
}

#[test]
fn format_negotiation_order() {
    assert_eq!(OutputState::format_attempt(0), Some(PixelFormat::Yuyv));
    assert_eq!(OutputState::format_attempt(1), Some(PixelFormat::Rgb24));
    assert_eq!(OutputState::format_attempt(2), Some(PixelFormat::Bgr24));
    assert_eq!(OutputState::format_attempt(3), None);
    assert_eq!(OutputState::format_attempt(usize::MAX), None);
}

#[test]
fn format_requests() {
    let state = OutputState::new(640, 480);
    assert_eq!(state.format, PixelFormat::Yuyv);
    assert!(!state.initialized);
    assert_eq!(
        state.format_request(PixelFormat::Yuyv),
        Some(FormatRequest {
            width: 640,
            height: 480,
            pixelformat: 0x56595559,
            bytesperline: 1280,
            sizeimage: 614400
        })
    );
    assert_eq!(
        state.format_request(PixelFormat::Bgr24),
        Some(FormatRequest {
            width: 640,
            height: 480,
            pixelformat: 0x33524742,
            bytesperline: 1920,
            sizeimage: 921600
        })
    );
    assert_eq!(OutputState::new(u32::MAX, 1).format_request(PixelFormat::Yuyv), None);
    assert_eq!(OutputState::new(65536, 65536).format_request(PixelFormat::Rgb24), None);
    assert!(OutputState::new(u32::MAX / 3, 1).format_request(PixelFormat::Rgb24).is_some());
}

#[test]
fn accepting_a_format() {
    let mut state = OutputState::new(4, 4);
    state.accept_format(PixelFormat::Bgr24);
    assert!(state.initialized);
    assert_eq!(state.format, PixelFormat::Bgr24);
    let mut raw = OutputState::new(4, 4);
    raw.accept_raw();
    assert!(raw.initialized);
    assert_eq!(raw.format, PixelFormat::Yuyv);
}

#[test]
fn frames_are_encoded_for_the_format() {
    let rgb = vec![255u8, 0, 0, 255, 0, 0];
    let mut state = OutputState::new(2, 1);
    match state.encode_frame(&rgb) {
        Ok(Encoded::Converted(bytes)) => assert_eq!(bytes, vec![82, 90, 82, 240]),
        other => panic!("unexpected {:?}", other),
    }
    state.accept_format(PixelFormat::Bgr24);
    match state.encode_frame(&rgb) {
        Ok(Encoded::Converted(bytes)) => assert_eq!(bytes, vec![0, 0, 255, 0, 0, 255]),
        other => panic!("unexpected {:?}", other),
    }
    state.accept_format(PixelFormat::Rgb24);
    assert!(matches!(state.encode_frame(&rgb), Ok(Encoded::Unchanged)));
}

#[test]
fn a_frame_of_the_wrong_size_is_refused() {
    let state = OutputState::new(2, 2);
    match state.encode_frame(&[0u8; 11]) {
        Err(e) => assert_eq!(e, FrameError::SizeMismatch { actual: 11, width: 2, height: 2 }),
        Ok(_) => panic!("accepted"),
    }
    let huge = OutputState::new(u32::MAX, u32::MAX);
    assert!(huge.encode_frame(&[0u8; 3]).is_err());
}

#[test]
fn drop_warnings_are_rate_limited() {
    assert!(drop_warning_due(None));
    assert!(!drop_warning_due(Some(0)));
    assert!(!drop_warning_due(Some(4)));
    assert!(drop_warning_due(Some(5)));
    assert!(drop_warning_due(Some(3600)));
}
