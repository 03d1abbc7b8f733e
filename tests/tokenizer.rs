use memoire::tokenizer::{Tokenizer, TokenizerError};

const VOCAB: &str = "<unk> 0\n▁t 1\n▁th 2\n▁a 3\nin 4\n▁the 5\n<blk> 6";

#[test]
fn test_tokenizer_parse() {
    let tokenizer = Tokenizer::from_str(VOCAB).unwrap();
    assert_eq!(tokenizer.vocab_size(), 7);
    assert_eq!(tokenizer.blank_id(), 6);
}

#[test]
fn test_decode() {
    let tokenizer = Tokenizer::from_str(VOCAB).unwrap();
    assert_eq!(tokenizer.decode(&[5]), "the");
    assert_eq!(tokenizer.decode(&[3, 4]), "ain");
}

#[test]
fn test_decode_skips_blank() {
    let content = "▁hello 0\n▁world 1\n<blk> 2";
    let tokenizer = Tokenizer::from_str(content).unwrap();
    assert_eq!(tokenizer.decode(&[0, 2, 1]), "hello world");
}

#[test]
fn decode_token_looks_up_text() {
    let tokenizer = Tokenizer::from_str(VOCAB).unwrap();
    assert_eq!(tokenizer.decode_token(2), Some("▁th"));
    assert_eq!(tokenizer.decode_token(4), Some("in"));
    assert_eq!(tokenizer.decode_token(42), None);
}

#[test]
fn blank_defaults_to_largest_id() {
    let tokenizer = Tokenizer::from_str("a 0\nb 3\nc 1\n").unwrap();
    assert_eq!(tokenizer.blank_id(), 3);
    assert_eq!(tokenizer.vocab_size(), 4);
    assert_eq!(tokenizer.decode(&[0, 3, 1]), "ac");
}

#[test]
fn blank_by_long_name() {
    let tokenizer = Tokenizer::from_str("<blank> 0\nx 1\n").unwrap();
    assert_eq!(tokenizer.blank_id(), 0);
}

#[test]
fn tokens_may_hold_spaces_and_blank_lines_are_ignored() {
    let tokenizer = Tokenizer::from_str("\r\n  a b 7  \r\n\nlonely\n").unwrap();
    assert_eq!(tokenizer.decode_token(7), Some("a b"));
    assert_eq!(tokenizer.vocab_size(), 8);
}

#[test]
fn bad_id_is_an_error() {
    let r = Tokenizer::from_str("a 0\nb x1\nc 2");
    assert!(matches!(r, Err(TokenizerError::BadTokenId(1))));
    assert!(Tokenizer::from_str("a 99999999999").is_err());
}

#[test]
fn empty_vocabulary() {
    let tokenizer = Tokenizer::from_str("").unwrap();
    assert_eq!(tokenizer.vocab_size(), 0);
    assert_eq!(tokenizer.blank_id(), -1);
    assert_eq!(tokenizer.decode(&[0, 1]), "");
}

#[test]
fn decode_replaces_markers_and_trims() {
    let tokenizer = Tokenizer::from_str("▁hel 0\nlo 1\n▁▁x 2\n<blk> 3").unwrap();
    assert_eq!(tokenizer.decode(&[0, 1, 2, 9]), "hello  x");
}

#[test]
fn word_timestamps_group_by_boundary() {
    let tokenizer = Tokenizer::from_str(VOCAB).unwrap();
    // "▁a" "in" | "▁the" -> words "ain" and "the"
    let words = tokenizer.decode_with_timestamps(&[3, 4, 6, 5], &[1, 2, 3, 5], 80);
    assert_eq!(words.len(), 2);
    assert_eq!(words[0].text, "ain");
    assert_eq!(words[0].start_ms, 80);
    assert_eq!(words[0].end_ms, 160);
    assert_eq!(words[1].text, "the");
    assert_eq!(words[1].start_ms, 400);
    assert_eq!(words[1].end_ms, 400);
}

#[test]
fn word_timestamps_missing_frames_count_as_zero() {
    let tokenizer = Tokenizer::from_str(VOCAB).unwrap();
    let words = tokenizer.decode_with_timestamps(&[5, 1], &[2], 80);
    assert_eq!(words.len(), 2);
    assert_eq!((words[0].text.as_str(), words[0].start_ms), ("the", 160));
    assert_eq!((words[1].text.as_str(), words[1].start_ms, words[1].end_ms), ("t", 0, 0));
    assert!(tokenizer.decode_with_timestamps(&[], &[], 80).is_empty());
}

#[test]
fn later_line_wins_for_a_repeated_id() {
    let tokenizer = Tokenizer::from_str("a 1\nb 1\n<blk> 0").unwrap();
    assert_eq!(tokenizer.decode_token(1), Some("b"));
    assert_eq!(tokenizer.blank_id(), 0);
    assert_eq!(tokenizer.vocab_size(), 2);
}
