use buck2cargo::buck::{
    normalize_rules, BuildRule, BuildRuleType, CommonBuildRule, PrebuiltRustLibraryRule,
    RustBinaryRule, RustLibraryRule, RustTestRule,
};
use buck2cargo::translate::{check_supported, translate_buildfile, translate_rules, TranslateError};

fn common(name: &str) -> CommonBuildRule {
    CommonBuildRule {
        name: String::from(name),
        deps: vec![],
        visibility: vec![String::from("PUBLIC")],
    }
}

fn lib_rule(dir: &str, name: &str, srcs: &[&str]) -> (String, BuildRule) {
    let target = format!("//{}:{}", dir, name);
    let rule = BuildRule {
        base_path: String::from(dir),
        direct_dependencies: vec![],
        common: common(name),
        typ: BuildRuleType::RustLibrary(RustLibraryRule {
            srcs: srcs.iter().map(|s| String::from(*s)).collect(),
            ..Default::default()
        }),
    };
    (target, rule)
}

fn bin_rule(dir: &str, name: &str, srcs: &[&str]) -> (String, BuildRule) {
    let target = format!("//{}:{}", dir, name);
    let rule = BuildRule {
        base_path: String::from(dir),
        direct_dependencies: vec![],
        common: common(name),
        typ: BuildRuleType::RustBinary(RustBinaryRule {
            srcs: srcs.iter().map(|s| String::from(*s)).collect(),
            ..Default::default()
        }),
    };
    (target, rule)
}

fn test_rule(dir: &str, name: &str, srcs: &[&str]) -> (String, BuildRule) {
    let target = format!("//{}:{}", dir, name);
    let rule = BuildRule {
        base_path: String::from(dir),
        direct_dependencies: vec![],
        common: common(name),
        typ: BuildRuleType::RustTest(RustTestRule {
            srcs: srcs.iter().map(|s| String::from(*s)).collect(),
            ..Default::default()
        }),
    };
    (target, rule)
}

#[test]
fn reject_multiple_libs() {
    let rules = normalize_rules(vec![
        lib_rule("dir", "lib1", &["src/lib.rs"]),
        lib_rule("dir", "lib2", &["src/lib.rs"]),
    ]);
    let result = translate_buildfile("dummy", &rules);
    assert!(result.is_err());
    assert!(matches!(
        result,
        Err(TranslateError::UnsupportedGrouping { .. })
    ));
}

#[test]
fn translate_pkg_name_with_lib() {
    // Identifier-sorted input order, as a deterministic map iteration yields.
    let rules = normalize_rules(vec![
        bin_rule("dir", "aux_bin", &["aux_bin.rs"]),
        bin_rule("dir", "bin1", &["src/main.rs"]),
        lib_rule("dir", "lib1", &["src/lib.rs"]),
    ]);
    assert_eq!(
        translate_buildfile("dummy", &rules).unwrap(),
        r#"[package]
name = "lib1"
version = "0.1.0"
authors = ["Example <author@example.com>"]

[lib]
name = "lib1"
path = "src/lib.rs"

[[bin]]
name = "aux_bin"
path = "aux_bin.rs"

[[bin]]
name = "bin1"
path = "src/main.rs"
"#
    );
}

#[test]
fn translate_pkg_name_with_bin() {
    let rules = normalize_rules(vec![
        bin_rule("dir", "aux_bin", &["aux_bin.rs"]),
        bin_rule("dir", "bin1", &["src/main.rs"]),
    ]);
    assert_eq!(
        translate_buildfile("dummy", &rules).unwrap(),
        r#"[package]
name = "bin1"
version = "0.1.0"
authors = ["Example <author@example.com>"]

[[bin]]
name = "aux_bin"
path = "aux_bin.rs"

[[bin]]
name = "bin1"
path = "src/main.rs"
"#
    );
}

#[test]
fn translate_lib() {
    let rules = normalize_rules(vec![lib_rule("dir", "lib1", &["src/lib.rs"])]);
    assert_eq!(
        translate_buildfile("dummy", &rules).unwrap(),
        r#"[package]
name = "lib1"
version = "0.1.0"
authors = ["Example <author@example.com>"]

[lib]
name = "lib1"
path = "src/lib.rs"
"#
    );
}

#[test]
fn no_default_target_for_test_only_dir() {
    let rules = normalize_rules(vec![test_rule("dir", "t1", &["src/main.rs"])]);
    let result = translate_buildfile("dir", &rules);
    assert!(matches!(result, Err(TranslateError::NoDefaultTarget { dir }) if dir == "dir"));
}

#[test]
fn unresolvable_crate_root_names_rule() {
    let rules = normalize_rules(vec![bin_rule("dir", "bin1", &["src/other.rs"])]);
    let result = translate_buildfile("dir", &rules);
    assert!(matches!(
        result,
        Err(TranslateError::UnresolvableCrateRoot { dir, name }) if dir == "dir" && name == "bin1"
    ));
}

#[test]
fn unsupported_grouping_lists_library_names() {
    let rules = normalize_rules(vec![
        lib_rule("dir", "lib1", &["src/lib.rs"]),
        bin_rule("dir", "bin1", &["src/main.rs"]),
        lib_rule("dir", "lib2", &["src/lib.rs"]),
    ]);
    match translate_buildfile("dir", &rules) {
        Err(TranslateError::UnsupportedGrouping { dir, names }) => {
            assert_eq!(dir, "dir");
            assert_eq!(names, vec![String::from("lib1"), String::from("lib2")]);
        }
        _ => panic!("expected a grouping conflict"),
    }
}

#[test]
fn check_supported_reports_first_unrecognized() {
    let mut rules = vec![bin_rule("dir", "bin1", &["src/main.rs"])];
    rules.push((
        String::from("//dir:odd"),
        BuildRule {
            base_path: String::from("dir"),
            direct_dependencies: vec![],
            common: common("odd"),
            typ: BuildRuleType::Other(String::from("cxx_library")),
        },
    ));
    let rules = normalize_rules(rules);
    match check_supported(&rules) {
        Err(TranslateError::UnsupportedRuleVariant { target, kind }) => {
            assert_eq!(target, "//dir:odd");
            assert_eq!(kind, "cxx_library");
        }
        _ => panic!("expected an unsupported-variant error"),
    }
}

#[test]
fn prebuilt_library_is_recognized_but_unresolvable() {
    let target = String::from("//dir:pre");
    let rule = BuildRule {
        base_path: String::from("dir"),
        direct_dependencies: vec![],
        common: common("pre"),
        typ: BuildRuleType::PrebuiltRustLibrary(PrebuiltRustLibraryRule {
            rlib: String::from("libpre.rlib"),
            ..Default::default()
        }),
    };
    let rules = normalize_rules(vec![(target, rule)]);
    assert!(check_supported(&rules).is_ok());
    let result = translate_buildfile("dir", &rules);
    assert!(matches!(
        result,
        Err(TranslateError::UnresolvableCrateRoot { dir, name }) if dir == "dir" && name == "pre"
    ));
}

#[test]
fn translate_rules_one_manifest_per_directory() {
    let rules = normalize_rules(vec![
        lib_rule("alpha", "liba", &["src/lib.rs"]),
        bin_rule("beta", "binb", &["src/main.rs"]),
    ]);
    let outs = translate_rules(rules);
    assert_eq!(outs.len(), 2);
    assert_eq!(outs[0].0, "alpha");
    assert!(outs[0].1.as_ref().unwrap().contains("name = \"liba\""));
    assert_eq!(outs[1].0, "beta");
    assert!(outs[1].1.as_ref().unwrap().contains("[[bin]]"));
}

#[test]
fn translate_rules_failing_group_leaves_others_translating() {
    let rules = normalize_rules(vec![
        lib_rule("bad", "lib1", &["src/lib.rs"]),
        lib_rule("bad", "lib2", &["src/lib.rs"]),
        lib_rule("good", "lib3", &["src/lib.rs"]),
    ]);
    let outs = translate_rules(rules);
    assert_eq!(outs.len(), 2);
    assert_eq!(outs[0].0, "bad");
    assert!(matches!(
        outs[0].1,
        Err(TranslateError::UnsupportedGrouping { .. })
    ));
    assert_eq!(outs[1].0, "good");
    assert!(outs[1].1.as_ref().unwrap().contains("name = \"lib3\""));
}

#[test]
fn normalization_fills_empty_module_name() {
    let rules = normalize_rules(vec![bin_rule("dir", "bin1", &["src/main.rs"])]);
    match &rules[0].1.typ {
        BuildRuleType::RustBinary(b) => assert_eq!(b.krate, "bin1"),
        _ => panic!("expected an executable rule"),
    }
}

#[test]
fn normalization_keeps_explicit_module_name() {
    let (target, mut rule) = bin_rule("dir", "bin1", &["src/main.rs"]);
    match &mut rule.typ {
        BuildRuleType::RustBinary(b) => b.krate = String::from("custom"),
        _ => panic!("expected an executable rule"),
    }
    let rules = normalize_rules(vec![(target, rule)]);
    match &rules[0].1.typ {
        BuildRuleType::RustBinary(b) => assert_eq!(b.krate, "custom"),
        _ => panic!("expected an executable rule"),
    }
}
