use editor_backend::packaging::{is_flatpak, FLATPAK_ID_VAR, FLATPAK_INFO_PATH};

#[test]
fn sandboxed_when_variable_is_set() {
    assert!(is_flatpak(true, false));
}

#[test]
fn sandboxed_when_marker_exists() {
    assert!(is_flatpak(false, true));
    assert!(is_flatpak(true, true));
}

#[test]
fn not_sandboxed_without_variable_or_marker() {
    assert!(!is_flatpak(false, false));
}

#[test]
fn detection_names() {
    assert_eq!(FLATPAK_ID_VAR, "FLATPAK_ID");
    assert_eq!(FLATPAK_INFO_PATH, "/.flatpak-info");
}
