use memoire::chunks::transcription_rows;
use memoire::transducer::{num_feature_frames, TdtDecoder, MAX_TOKENS_PER_FRAME};

#[test]
fn one_second_of_audio_gives_ninety_eight_frames() {
    assert_eq!(num_feature_frames(16000), (16000 - 400) / 160 + 1);
    assert_eq!(num_feature_frames(16000), 98);
    assert_eq!(num_feature_frames(0), 0);
    assert_eq!(num_feature_frames(100), 0);
    assert_eq!(num_feature_frames(400), 1);
}

#[test]
fn silence_decodes_to_one_empty_row() {
    let mut d = TdtDecoder::new(7, 12);
    while !d.is_done() {
        d.step(7, Some(0));
    }
    let (tokens, frames) = d.into_tokens();
    assert!(tokens.is_empty() && frames.is_empty());
    let rows = transcription_rows("", &Vec::new());
    assert_eq!(rows.len(), 1);
    assert_eq!(rows[0].text, "");
    assert_eq!(rows[0].start_ms, None);
}

#[test]
fn emission_cap_forces_a_move() {
    let mut d = TdtDecoder::new(0, 10);
    for i in 0..(MAX_TOKENS_PER_FRAME - 1) {
        // duration 0 and a real token: stays on the frame? it always moves by at least one
        assert_eq!(d.step(3 + i as i32, Some(0)), 1);
    }
    assert!(d.step(9, Some(0)) >= 1);
    let (tokens, frames) = d.into_tokens();
    assert_eq!(tokens, vec![3, 4, 5, 6, 9]);
    assert_eq!(frames, vec![0, 1, 2, 3, 4]);
}

#[test]
fn durations_skip_frames() {
    let mut d = TdtDecoder::new(0, 10);
    assert_eq!(d.prev_token(), 0);
    assert_eq!(d.step(5, Some(3)), 3);
    assert_eq!(d.current_frame(), 3);
    assert_eq!(d.prev_token(), 5);
    assert_eq!(d.step(0, None), 1);
    assert_eq!(d.step(0, Some(0)), 1);
    assert_eq!(d.current_frame(), 5);
    assert_eq!(d.prev_token(), 5);
    let (tokens, frames) = d.into_tokens();
    assert_eq!((tokens, frames), (vec![5], vec![0]));
}
