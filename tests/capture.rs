use memoire::capture::{rgba_from_bgra_rows, CaptureError, FrameData};

#[test]
fn bgra_rows_become_rgba_pixels() {
    // two pixels per row, two rows, rows padded to 12 bytes
    let src: Vec<u8> = vec![
        1, 2, 3, 4, 5, 6, 7, 8, 0, 0, 0, 0, //
        9, 10, 11, 12, 13, 14, 15, 16, 0, 0, 0, 0,
    ];
    let out = rgba_from_bgra_rows(&src, 2, 2, 12).unwrap();
    assert_eq!(out, vec![3, 2, 1, 4, 7, 6, 5, 8, 11, 10, 9, 12, 15, 14, 13, 16]);
}

#[test]
fn short_pitch_or_buffer_is_refused() {
    let src = vec![0u8; 16];
    assert!(matches!(rgba_from_bgra_rows(&src, 2, 2, 4), Err(CaptureError::FrameAcquisition(_))));
    assert!(rgba_from_bgra_rows(&src, 2, 3, 8).is_err());
    assert_eq!(rgba_from_bgra_rows(&src, 2, 2, 8).unwrap().len(), 16);
    assert_eq!(rgba_from_bgra_rows(&src, 0, 5, 0).unwrap().len(), 0);
}

#[test]
fn error_kinds() {
    assert!(CaptureError::DeviceRemoved.is_device_lost());
    assert!(CaptureError::AccessDenied.is_device_lost());
    assert!(!CaptureError::Timeout.is_device_lost());
    assert!(CaptureError::Timeout.is_transient());
}

#[test]
fn frame_data_size_check() {
    let bad = FrameData { width: 100, height: 100, data: vec![0; 100] };
    assert!(!bad.has_expected_size());
    let good = FrameData { width: 10, height: 10, data: vec![0; 400] };
    assert!(good.has_expected_size());
}
