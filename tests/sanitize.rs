use memoire::sanitize::{sanitize_device_name, sanitize_monitor_name};

#[test]
fn test_sanitize_device_name() {
    assert_eq!(sanitize_device_name("Microphone (HD Pro Webcam C920)"), "Microphone (HD Pro Webcam C920)");
    assert_eq!(sanitize_device_name("Device:with:colons"), "Device_with_colons");
    assert_eq!(sanitize_device_name("CON"), "_CON");
    assert_eq!(sanitize_device_name(""), "audio_device");
}

#[test]
fn reserved_name_with_extension_is_prefixed() {
    assert!(sanitize_monitor_name("CON.log").starts_with('_'));
    assert_eq!(sanitize_monitor_name("CON.log"), "_CON.log");
    assert_eq!(sanitize_monitor_name("com7"), "_com7");
    assert_eq!(sanitize_monitor_name("LPT0"), "LPT0");
    assert_eq!(sanitize_monitor_name("console"), "console");
}

#[test]
fn empty_names_fall_back() {
    assert_eq!(sanitize_monitor_name(""), "monitor");
    assert_eq!(sanitize_monitor_name(" ._. "), "monitor");
    assert_eq!(sanitize_device_name("..."), "audio_device");
}

#[test]
fn traversal_and_forbidden_characters_are_removed() {
    assert_eq!(sanitize_monitor_name("a/../b"), "a___b");
    assert_eq!(sanitize_monitor_name("x..y"), "x_y");
    assert_eq!(sanitize_monitor_name("..\\..\\evil"), "evil");
    assert_eq!(sanitize_monitor_name("\\\\.\\DISPLAY1"), "DISPLAY1");
    assert_eq!(sanitize_monitor_name("tab\there"), "tab_here");
    assert_eq!(sanitize_monitor_name(".hidden.name"), "hidden_name");
}

#[test]
fn long_names_are_cut_to_one_hundred_characters() {
    let long: String = std::iter::repeat('é').take(150).collect();
    let out = sanitize_monitor_name(&long);
    assert_eq!(out.chars().count(), 100);
    assert!(out.chars().all(|c| c == 'é'));
}
