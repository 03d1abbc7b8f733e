use memoire::config::{
    app_data_path_in, default_chunk_duration, default_ocr_fps, resolve_data_dir_in, Config, GeneralConfig, default_true, default_viewer_port, join_path,
    AudioCaptureConfig, AudioEncoderConfig, Component, ComponentHealth, ComponentStatus,
    EncoderConfig, IndexConfig, SttConfig, ViewerConfig,
};

#[test]
fn test_audio_encoder_config_default() {
    let config = AudioEncoderConfig::default();
    assert_eq!(config.chunk_duration_secs, 30);
    assert_eq!(config.sample_rate, 16000);
    assert_eq!(config.channels, 1);
}

#[test]
fn test_config_default() {
    let config = SttConfig::default();
    assert!(config.use_gpu);
    assert_eq!(config.num_threads, 4);
    assert!(config.model_dir.ends_with("Memoire/models"));
}

#[test]
fn other_defaults() {
    assert_eq!(default_ocr_fps(), 10);
    assert_eq!(default_viewer_port(), 8080);
    assert_eq!(default_chunk_duration(), 300);
    assert!(default_true());
    assert_eq!(IndexConfig::default().ocr_fps, 10);
    assert_eq!(ViewerConfig::default().port, 8080);
    let e = EncoderConfig::default();
    assert_eq!((e.output_dir.as_str(), e.chunk_duration_secs, e.fps, e.quality), ("videos", 300, 1, 23));
    let a = AudioCaptureConfig::default();
    assert_eq!((a.target_sample_rate, a.target_channels, a.chunk_duration_secs), (16000, 1, 30));
}

#[test]
fn component_tags() {
    assert_eq!(Component::Orchestrator.as_str(), "MAIN");
    assert_eq!(Component::Record.as_str(), "RECORD");
    assert_eq!(Component::Index.as_str(), "INDEX");
    assert_eq!(Component::AudioIndex.as_str(), "AUDIO");
    assert_eq!(Component::Viewer.as_str(), "VIEWER");
    assert_eq!(Component::Models.as_str(), "MODELS");
}

#[test]
fn component_health_updates() {
    let mut h = ComponentHealth::new("recorder", 5);
    assert_eq!(h.status, ComponentStatus::Starting);
    h.update_status(ComponentStatus::Running, 9);
    assert_eq!((h.name.as_str(), h.status, h.last_heartbeat_ms), ("recorder", ComponentStatus::Running, 9));
}

#[test]
fn paths_join_with_one_separator() {
    assert_eq!(join_path("a", "b"), "a/b");
    assert_eq!(join_path("a/", "b"), "a/b");
    assert_eq!(join_path("", "b"), "b");
}

#[test]
fn data_paths_under_the_local_dir() {
    let local = Some("/home/u/.local/share".to_string());
    assert_eq!(app_data_path_in(&local, "models"), "/home/u/.local/share/Memoire/models");
    assert_eq!(app_data_path_in(&None, "models"), "./Memoire/models");
    assert_eq!(Config::for_local_dir(&local).data_dir, "/home/u/.local/share/Memoire");
    let g = GeneralConfig { data_dir: None, auto_download_models: true };
    assert_eq!(resolve_data_dir_in(&g, &None), "./Memoire/test-data");
    let g = GeneralConfig { data_dir: Some("/data".to_string()), auto_download_models: true };
    assert_eq!(resolve_data_dir_in(&g, &local), "/data");
}
