use show::probe::{
    executable_by_extension, executable_by_mode, extension_of, is_binary_content,
};

#[test]
fn binary_content_pdf_magic() {
    assert!(is_binary_content(b"%PDF-1.4 rest"));
}

#[test]
fn binary_content_null_byte() {
    assert!(is_binary_content(b"hello\0world"));
    assert!(is_binary_content(b"\0"));
}

#[test]
fn binary_content_plain_text_is_not_binary() {
    assert!(!is_binary_content(b"hello world"));
    assert!(!is_binary_content(b""));
    assert!(!is_binary_content(b"%PD"));
}

#[test]
fn binary_content_depends_on_position_of_null() {
    // The null must actually occur in the buffer handed over: a buffer
    // without one reads as text even when it shares a prefix with one
    // that has it.
    assert!(is_binary_content(b"abc\0"));
    assert!(!is_binary_content(b"abc"));
}

#[test]
fn mode_policy_requires_file_and_executor_bit() {
    assert!(executable_by_mode(true, 0o755));
    assert!(executable_by_mode(true, 0o100));
    assert!(executable_by_mode(true, 0o010));
    assert!(executable_by_mode(true, 0o001));
    assert!(!executable_by_mode(true, 0o644));
    assert!(!executable_by_mode(false, 0o755));
    assert!(!executable_by_mode(true, 0));
}

#[test]
fn extension_of_takes_last_dot() {
    match extension_of("archive.tar.gz") {
        Some(e) => assert_eq!(e, "gz"),
        None => panic!("expected an extension"),
    }
    match extension_of("tool.ExE") {
        Some(e) => assert_eq!(e, "ExE"),
        None => panic!("expected an extension"),
    }
}

#[test]
fn extension_of_none_cases() {
    assert!(extension_of("plain").is_none());
    // A leading dot marks a hidden name, not an extension.
    assert!(extension_of(".bashrc").is_none());
    assert!(extension_of("").is_none());
}

#[test]
fn extension_policy_matches_case_insensitively() {
    let exts = vec!["exe".to_string(), "bat".to_string()];
    assert!(executable_by_extension(true, "tool.ExE", &exts, false));
    assert!(executable_by_extension(true, "tool.bat", &exts, false));
    assert!(!executable_by_extension(true, "tool.txt", &exts, false));
    assert!(!executable_by_extension(false, "tool.exe", &exts, false));
}

#[test]
fn extension_policy_falls_back_to_binary_image() {
    let exts = vec!["exe".to_string()];
    assert!(executable_by_extension(true, "tool", &exts, true));
    assert!(!executable_by_extension(true, "tool", &exts, false));
}
