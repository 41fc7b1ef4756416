use buck2cargo::paths::{file_name, path_depth_exec, str_eq};

#[test]
fn file_name_strips_directories() {
    assert_eq!(file_name("some/inner/main.rs"), "main.rs");
    assert_eq!(file_name("main.rs"), "main.rs");
    assert_eq!(file_name("dir/"), "");
    assert_eq!(file_name(""), "");
}

#[test]
fn path_depth_counts_separators() {
    assert_eq!(path_depth_exec("main.rs"), 0);
    assert_eq!(path_depth_exec("some/main.rs"), 1);
    assert_eq!(path_depth_exec("some/inner/main.rs"), 2);
}

#[test]
fn str_eq_compares_text() {
    assert!(str_eq("lib.rs", "lib.rs"));
    assert!(!str_eq("lib.rs", "main.rs"));
    assert!(!str_eq("lib.rs", "lib.r"));
}
