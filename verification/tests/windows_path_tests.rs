use steamvr_launcher::text::same_text;
use steamvr_launcher::windows_path::{path_file_name, path_is_absolute, path_join, path_parent};

#[test]
fn parent_of_windows_paths() {
    assert_eq!(path_parent("C:\\a\\b").as_deref(), Some("C:\\a"));
    assert_eq!(path_parent("C:\\a").as_deref(), Some("C:\\"));
    assert_eq!(path_parent("C:\\"), None);
    assert_eq!(path_parent("C:"), None);
    assert_eq!(path_parent("C:a").as_deref(), Some("C:"));
    assert_eq!(path_parent("a").as_deref(), Some(""));
    assert_eq!(path_parent("\\"), None);
    assert_eq!(path_parent(""), None);
    assert_eq!(path_parent(".").as_deref(), Some(""));
    assert_eq!(path_parent("./a").as_deref(), Some("."));
    assert_eq!(path_parent("a/b/./").as_deref(), Some("a"));
    assert_eq!(path_parent("a\\..").as_deref(), Some("a"));
    assert_eq!(path_parent("\\\\srv\\share"), None);
    assert_eq!(path_parent("\\\\srv\\share\\x").as_deref(), Some("\\\\srv\\share\\"));
    assert_eq!(path_parent("\\\\srv").as_deref(), Some("\\"));
}

#[test]
fn file_name_of_windows_paths() {
    assert_eq!(path_file_name("C:\\a\\vrstartup.exe").as_deref(), Some("vrstartup.exe"));
    assert_eq!(path_file_name("C:\\a\\b\\").as_deref(), Some("b"));
    assert_eq!(path_file_name("C:\\a\\..") , None);
    assert_eq!(path_file_name("C:\\"), None);
    assert_eq!(path_file_name("a/./"), Some("a".to_string()));
}

#[test]
fn absolute_windows_paths() {
    assert!(path_is_absolute("C:\\Steam"));
    assert!(path_is_absolute("c:/Steam"));
    assert!(path_is_absolute("\\\\srv\\share"));
    assert!(!path_is_absolute("C:Steam"));
    assert!(!path_is_absolute("\\Steam"));
    assert!(!path_is_absolute("Steam"));
    assert!(!path_is_absolute(""));
    assert!(!path_is_absolute("1:\\Steam"));
}

#[test]
fn join_windows_paths() {
    assert_eq!(path_join("C:\\a", "b"), "C:\\a\\b");
    assert_eq!(path_join("C:\\a\\", "b"), "C:\\a\\b");
    assert_eq!(path_join("C:", "b"), "C:b");
    assert_eq!(path_join("", "b"), "b");
}

#[test]
fn same_text_compares_characters() {
    assert!(same_text("vrstartup.exe", "vrstartup.exe"));
    assert!(!same_text("vrstartup.exe", "vrstartup.ex"));
    assert!(!same_text("简体", "繁體"));
    assert!(same_text("", ""));
}

#[test]
fn verbatim_and_device_paths() {
    assert_eq!(path_parent("\\\\?\\UNC\\srv\\shr"), None);
    assert_eq!(path_parent("\\\\?\\UNC\\srv\\shr\\x").as_deref(), Some("\\\\?\\UNC\\srv\\shr\\"));
    assert_eq!(path_parent("\\\\?\\C:\\a\\.").as_deref(), Some("\\\\?\\C:\\a"));
    assert_eq!(path_file_name("\\\\?\\C:\\a\\."), None);
    assert_eq!(path_file_name("\\\\?\\C:\\a/b").as_deref(), Some("a/b"));
    assert_eq!(path_parent("\\\\?\\C:\\a/b").as_deref(), Some("\\\\?\\C:\\"));
    assert_eq!(path_parent("\\\\?\\C:"), None);
    assert_eq!(path_parent("\\\\.\\COM1"), None);
    assert_eq!(path_parent("\\\\.\\pipe\\x").as_deref(), Some("\\\\.\\pipe\\"));
    assert_eq!(path_parent("//?/x/y").as_deref(), Some("//?/x/"));
    assert!(path_is_absolute("\\\\?\\foo"));
    assert!(path_is_absolute("\\\\?\\C:"));
    assert!(path_is_absolute("\\\\.\\COM1"));
}

#[test]
fn join_onto_verbatim_paths() {
    assert_eq!(path_join("\\\\?\\C:\\a\\\\b\\", "x"), "\\\\?\\C:\\a\\b\\x");
    assert_eq!(path_join("\\\\?\\C:\\a\\b", ".."), "\\\\?\\C:\\a");
    assert_eq!(path_join("\\\\?\\C:\\", ".."), "\\\\?\\C:\\");
    assert_eq!(path_join("\\\\?\\C:\\a/", "x"), "\\\\?\\C:\\a/\\x");
    assert_eq!(path_join("\\\\?\\C:\\a\\..", ".."), "\\\\?\\C:\\a\\..");
    assert_eq!(path_join("\\\\?\\C:", "x"), "\\\\?\\C:\\x");
    assert_eq!(path_join("\\\\?\\C:\\a", "."), "\\\\?\\C:\\a");
}
