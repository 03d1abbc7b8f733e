use memoire::models::{format_bytes, has_bundled_onnx_runtime, ModelDownloader};

#[test]
fn test_format_bytes() {
    assert_eq!(format_bytes(500), "500 B");
    assert_eq!(format_bytes(1024), "1.0 KB");
    assert_eq!(format_bytes(1024 * 1024), "1.0 MB");
    assert_eq!(format_bytes(1024 * 1024 * 1024), "1.0 GB");
}

#[test]
fn format_bytes_rounds_to_one_decimal() {
    assert_eq!(format_bytes(0), "0 B");
    assert_eq!(format_bytes(1023), "1023 B");
    assert_eq!(format_bytes(1536), "1.5 KB");
    assert_eq!(format_bytes(1280), "1.2 KB");
    assert_eq!(format_bytes(1048575), "1024.0 KB");
    assert_eq!(format_bytes(5 * 1024 * 1024 * 1024 + 512 * 1024 * 1024), "5.5 GB");
}

fn names(v: &[&str]) -> Vec<String> {
    v.iter().map(|s| s.to_string()).collect()
}

#[test]
fn missing_model_files_in_order() {
    let d = ModelDownloader::new("models".to_string());
    let present = names(&["joiner.onnx", "notes.txt"]);
    assert_eq!(d.missing_files(&present), vec!["encoder.onnx", "decoder.onnx", "tokens.txt"]);
    assert!(!d.is_complete(&present));
    let all = names(&["encoder.onnx", "decoder.onnx", "joiner.onnx", "tokens.txt"]);
    assert!(d.is_complete(&all));
    assert!(d.missing_files(&all).is_empty());
    assert!(!d.is_fully_complete(&all));
    let mut full = all.clone();
    full.push("onnxruntime.dll".to_string());
    assert!(d.is_fully_complete(&full));
    assert!(d.has_ort_dll(&full));
    assert!(has_bundled_onnx_runtime(&full));
    assert!(!has_bundled_onnx_runtime(&all));
    assert_eq!(d.ort_dll_path(), "models/onnxruntime.dll");
}
