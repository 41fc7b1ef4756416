use buck2cargo::buck::{BuildRuleType, RustBinaryRule, RustLibraryRule};

#[test]
fn crate_root_default_src() {
    let rule = BuildRuleType::RustBinary(RustBinaryRule {
        srcs: vec![String::from("src/main.rs")],
        ..Default::default()
    });
    assert_eq!(rule.crate_root(), Some(&String::from("src/main.rs")));

    let rule = BuildRuleType::RustBinary(RustBinaryRule {
        srcs: vec![String::from("src/lib.rs")],
        ..Default::default()
    });
    assert_eq!(rule.crate_root(), None);

    let rule = BuildRuleType::RustBinary(RustBinaryRule {
        srcs: vec![String::from("src/mycrate.rs")],
        krate: String::from("mycrate"),
        ..Default::default()
    });
    assert_eq!(rule.crate_root(), Some(&String::from("src/mycrate.rs")));

    let rule = BuildRuleType::RustLibrary(RustLibraryRule {
        srcs: vec![String::from("src/lib.rs")],
        ..Default::default()
    });
    assert_eq!(rule.crate_root(), Some(&String::from("src/lib.rs")));

    let rule = BuildRuleType::RustLibrary(RustLibraryRule {
        srcs: vec![String::from("src/main.rs")],
        ..Default::default()
    });
    assert_eq!(rule.crate_root(), None);

    let rule = BuildRuleType::RustLibrary(RustLibraryRule {
        srcs: vec![String::from("src/mycrate.rs")],
        krate: String::from("mycrate"),
        ..Default::default()
    });
    assert_eq!(rule.crate_root(), Some(&String::from("src/mycrate.rs")));
}

#[test]
fn crate_root_override() {
    let rule = BuildRuleType::RustBinary(RustBinaryRule {
        srcs: vec![String::from("src/main.rs"), String::from("override.rs")],
        crate_root: String::from("override.rs"),
        ..Default::default()
    });
    assert_eq!(rule.crate_root(), Some(&String::from("override.rs")));
}

#[test]
fn crate_root_shortest_path() {
    let rule = BuildRuleType::RustBinary(RustBinaryRule {
        srcs: vec![
            String::from("some/inner/main.rs"),
            String::from("main.rs"),
            String::from("some/main.rs"),
        ],
        ..Default::default()
    });
    assert_eq!(rule.crate_root(), Some(&String::from("main.rs")));
}

#[test]
fn crate_root_preference() {
    let rule = BuildRuleType::RustLibrary(RustLibraryRule {
        srcs: vec![
            String::from("lib.rs"),
            String::from("some/lib.rs"),
            String::from("mycrate.rs"),
        ],
        krate: String::from("mycrate"),
        crate_root: String::from("some/lib.rs"),
        ..Default::default()
    });
    assert_eq!(rule.crate_root(), Some(&String::from("some/lib.rs")));

    let rule = BuildRuleType::RustLibrary(RustLibraryRule {
        srcs: vec![String::from("mycrate.rs"), String::from("some/lib.rs")],
        krate: String::from("mycrate"),
        ..Default::default()
    });
    assert_eq!(rule.crate_root(), Some(&String::from("some/lib.rs")));
}
