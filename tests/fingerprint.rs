use memoire::fingerprint::CapturedFrame;

fn hash_distance(a: u64, b: u64) -> u32 {
    CapturedFrame::hash_distance(a, b)
}

fn frame(w: u32, h: u32, f: impl Fn(u32, u32) -> u8) -> CapturedFrame {
    let mut data = Vec::new();
    for y in 0..h {
        for x in 0..w {
            let v = f(x, y);
            data.extend_from_slice(&[v, v, v, 255]);
        }
    }
    CapturedFrame { data, width: w, height: h, timestamp_ms: 0 }
}

#[test]
fn distance_laws_on_values() {
    let (a, b, c) = (0x0123_4567_89ab_cdefu64, 0xffff_0000_ffff_0000u64, 7u64);
    assert_eq!(hash_distance(a, a), 0);
    assert_eq!(hash_distance(a, b), hash_distance(b, a));
    assert!(hash_distance(a, c) <= hash_distance(a, b) + hash_distance(b, c));
    assert_eq!(hash_distance(0, u64::MAX), 64);
    assert_eq!(hash_distance(0b1011, 0b0001), 2);
}

#[test]
fn left_bright_half_sets_left_columns() {
    let f = frame(16, 16, |x, _| if x < 8 { 255 } else { 0 });
    let h = f.compute_perceptual_hash();
    // columns 0..4 of each block row are bright: bits 0-3, 8-11, ...
    assert_eq!(h, 0x0f0f_0f0f_0f0f_0f0f);
}

#[test]
fn uniform_frame_sets_every_bit() {
    let f = frame(8, 8, |_, _| 90);
    assert_eq!(f.compute_perceptual_hash(), u64::MAX);
}

#[test]
fn tiny_frame_sums_its_bytes() {
    let f = CapturedFrame { data: vec![1, 2, 3, 4, 5, 6, 7, 8], width: 2, height: 1, timestamp_ms: 0 };
    assert_eq!(f.compute_perceptual_hash(), 36);
}

#[test]
fn similar_frames_are_close() {
    let a = frame(64, 48, |x, y| (x * 2 + y) as u8);
    let b = frame(64, 48, |x, y| (x * 2 + y + 1) as u8);
    assert!(hash_distance(a.compute_perceptual_hash(), b.compute_perceptual_hash()) <= 5);
}
