use treader::state::{name_of_digest, state_file_name, SavedState};

#[test]
fn saved_state_default_values() {
    let state = SavedState::default();
    assert_eq!(state.page, 0);
    assert_eq!(state.rotation, 0);
    assert!(!state.inverted);
    assert!(!state.auto_crop);
    assert!(!state.tinted);
    assert!(state.epub_font_size.is_none());
}

#[test]
fn state_path_deterministic() {
    let p = "/some/test/file.pdf";
    let a = state_file_name(p);
    let b = state_file_name(p);
    assert_eq!(a, b);
}

#[test]
fn state_path_different_files_different_paths() {
    let a = state_file_name("/a.pdf");
    let b = state_file_name("/b.pdf");
    assert_ne!(a, b);
}

#[test]
fn name_is_the_digest_in_hexadecimal() {
    assert_eq!(state_file_name(""), "d41d8cd98f00b204e9800998ecf8427e.json");
    assert_eq!(state_file_name("abc"), "900150983cd24fb0d6963f7d28e17f72.json");
    assert_eq!(name_of_digest(&[0x00, 0x1f, 0xa0, 0xff]), "001fa0ff.json");
}
