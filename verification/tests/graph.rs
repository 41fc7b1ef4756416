use buck2cargo::buck::{BuildRule, BuildRuleType, CommonBuildRule, RustLibraryRule};
use buck2cargo::graph::{dep_graph, graphviz_text, rule_order, topo_targets};

fn rule_with_deps(dir: &str, name: &str, deps: &[&str]) -> (String, BuildRule) {
    let target = format!("//{}:{}", dir, name);
    let rule = BuildRule {
        base_path: String::from(dir),
        direct_dependencies: vec![],
        common: CommonBuildRule {
            name: String::from(name),
            deps: deps.iter().map(|d| String::from(*d)).collect(),
            visibility: vec![],
        },
        typ: BuildRuleType::RustLibrary(RustLibraryRule {
            srcs: vec![String::from("src/lib.rs")],
            ..Default::default()
        }),
    };
    (target, rule)
}

fn position(order: &[String], target: &str) -> usize {
    order.iter().position(|t| t == target).unwrap()
}

#[test]
fn topo_order_puts_dependencies_first() {
    let rules = vec![
        rule_with_deps("a", "a", &["//b:b"]),
        rule_with_deps("b", "b", &["//c:c"]),
        rule_with_deps("c", "c", &[]),
    ];
    let order = rule_order(&rules).unwrap();
    assert_eq!(order.len(), 3);
    assert!(position(&order, "//c:c") < position(&order, "//b:b"));
    assert!(position(&order, "//b:b") < position(&order, "//a:a"));
}

#[test]
fn topo_order_includes_dangling_dependencies() {
    let rules = vec![rule_with_deps("a", "a", &["//missing:dep"])];
    let order = rule_order(&rules).unwrap();
    assert_eq!(order.len(), 2);
    assert!(position(&order, "//missing:dep") < position(&order, "//a:a"));
}

#[test]
fn topo_order_rejects_cycles() {
    let rules = vec![
        rule_with_deps("a", "a", &["//b:b"]),
        rule_with_deps("b", "b", &["//a:a"]),
    ];
    assert!(rule_order(&rules).is_none());
}

#[test]
fn topo_targets_matches_rule_order() {
    let rules = vec![
        rule_with_deps("a", "a", &["//b:b"]),
        rule_with_deps("b", "b", &[]),
    ];
    let dg = dep_graph(&rules);
    let order = topo_targets(&dg).unwrap();
    assert_eq!(order, rule_order(&rules).unwrap());
}

#[test]
fn graphviz_text_labels_targets() {
    let rules = vec![
        rule_with_deps("a", "a", &["//b:b"]),
        rule_with_deps("b", "b", &[]),
    ];
    let dg = dep_graph(&rules);
    let text = graphviz_text(&dg);
    assert!(text.contains("digraph"));
    assert!(text.contains("//a:a"));
    assert!(text.contains("//b:b"));
    assert!(text.contains("->"));
}
