//! The dependency graph over rule identifiers.
//!
//! Nodes are small integer indices into an identifier table (one entry per
//! rule identifier and per mentioned dependency identifier); edges point from
//! the dependent rule's index to the dependency's index. The graph itself is
//! petgraph's directed adjacency map, held behind trusted wrappers whose
//! contracts speak of the node and edge sets; everything built on top —
//! construction from a rule set, topological iteration, the identifier
//! bookkeeping — is verified against those contracts.

use vstd::prelude::*;
use vstd::string::*;

use crate::buck::{BuildRule, BuildTarget, Rules};
use crate::paths::str_eq;

verus! {

#[verifier::external_type_specification]
#[verifier::external_body]
#[verifier::reject_recursive_types(N)]
#[verifier::reject_recursive_types(E)]
#[verifier::reject_recursive_types(Ty)]
#[verifier::reject_recursive_types(S)]
pub struct ExGraphMap<N, E, Ty, S: std::hash::BuildHasher>(
    petgraph::graphmap::GraphMap<N, E, Ty, S>,
);

#[verifier::external_type_specification]
#[verifier::external_body]
pub struct ExDirected(petgraph::Directed);

/// The directed graph the builder works over: nodes are indices into the
/// identifier table.
pub type TargetGraph = petgraph::graphmap::GraphMap<
    usize,
    (),
    petgraph::Directed,
    std::collections::hash_map::RandomState,
>;

/// The nodes a graph holds.
pub uninterp spec fn graph_node_set(g: TargetGraph) -> Set<usize>;

/// The directed edges a graph holds.
pub uninterp spec fn graph_edge_set(g: TargetGraph) -> Set<(usize, usize)>;

/// Relies on petgraph's `GraphMap::new`: the fresh graph has no nodes and no
/// edges.
#[verifier::external_body]
fn graph_new() -> (g: TargetGraph)
    ensures
        graph_node_set(g) == Set::<usize>::empty(),
        graph_edge_set(g) == Set::<(usize, usize)>::empty(),
{
    petgraph::graphmap::GraphMap::new()
}

/// Relies on petgraph's `GraphMap::add_node`: inserts the node and leaves the
/// edges alone.
#[verifier::external_body]
fn graph_add_node(g: &mut TargetGraph, n: usize)
    ensures
        graph_node_set(*final(g)) == graph_node_set(*old(g)).insert(n),
        graph_edge_set(*final(g)) == graph_edge_set(*old(g)),
{
    g.add_node(n);
}

/// Relies on petgraph's `GraphMap::add_edge`: inserts the directed edge and
/// both of its endpoints.
#[verifier::external_body]
fn graph_add_edge(g: &mut TargetGraph, a: usize, b: usize)
    ensures
        graph_node_set(*final(g)) == graph_node_set(*old(g)).insert(a).insert(b),
        graph_edge_set(*final(g)) == graph_edge_set(*old(g)).insert((a, b)),
{
    g.add_edge(a, b, ());
}

/// A circular chain of edges: a walk of length at least one that ends on
/// the node it started from.
pub open spec fn has_edge_cycle(es: Set<(usize, usize)>) -> bool {
    exists|p: Seq<usize>|
        p.len() >= 2 && p[0] == p[p.len() - 1] && forall|i: int|
            0 <= i < p.len() - 1 ==> #[trigger] es.contains((p[i], p[i + 1]))
}

/// Relies on petgraph's `toposort`: on an acyclic graph it returns the nodes,
/// each exactly once, with every edge's source ordered before the edge's
/// target; on a cyclic graph (self-edges included) it reports the cycle,
/// mapped to `None` here.
#[verifier::external_body]
fn graph_toposort(g: &TargetGraph) -> (r: Option<Vec<usize>>)
    ensures
        match r {
            Some(order) => {
                &&& order@.no_duplicates()
                &&& forall|n: usize|
                    graph_node_set(*g).contains(n) <==> #[trigger] order@.contains(n)
                &&& forall|i: int, j: int|
                    0 <= i < order@.len() && 0 <= j < order@.len() && graph_edge_set(*g).contains(
                        (order@[i], order@[j]),
                    ) ==> i < j
            },
            None => has_edge_cycle(graph_edge_set(*g)),
        },
{
    match petgraph::algo::toposort(g, None) {
        Ok(order) => Some(order),
        Err(_) => None,
    }
}

/// What petgraph's `Dot` renderer prints for a graph whose nodes carry the
/// given labels.
pub uninterp spec fn dot_text_of(g: TargetGraph, labels: Seq<Seq<char>>) -> Seq<char>;

/// Relies on petgraph's `Dot`: renders the graph in Graphviz format, nodes
/// labeled from the table, edges unlabeled; the text is a function of the
/// graph and the labels alone.
#[verifier::external_body]
fn graph_dot(g: &TargetGraph, labels: &Vec<String>) -> (r: String)
    ensures
        r@ == dot_text_of(*g, labels.deep_view()),
{
    let node_attrs = |_, (n, _): (usize, &usize)| match labels.get(n) {
        Some(s) => format!("label = \"{}\"", s),
        None => String::new(),
    };
    let edge_attrs = |_, _| String::new();
    let dot = petgraph::dot::Dot::with_attr_getters(
        g,
        &[petgraph::dot::Config::EdgeNoLabel, petgraph::dot::Config::NodeNoLabel],
        &edge_attrs,
        &node_attrs,
    );
    format!("{:?}", dot)
}

/// Whether some entry of the table has view `v`.
pub open spec fn contains_view(ts: Seq<String>, v: Seq<char>) -> bool {
    exists|i: int| 0 <= i < ts.len() && ts[i]@ == v
}

/// The table's entries are pairwise distinct identifiers.
pub open spec fn distinct_views(ts: Seq<String>) -> bool {
    forall|i: int, j: int| 0 <= i < j < ts.len() ==> ts[i]@ != ts[j]@
}

/// Finds an entry of the table with the same text as `s`.
pub(crate) fn find_target(ts: &Vec<String>, s: &String) -> (r: Option<usize>)
    ensures
        match r {
            Some(i) => i < ts@.len() && ts@[i as int]@ == s@,
            None => !contains_view(ts@, s@),
        },
{
    let mut i: usize = 0;
    while i < ts.len()
        invariant
            i <= ts@.len(),
            forall|m: int| 0 <= m < i ==> ts@[m]@ != s@,
        decreases ts@.len() - i,
    {
        if str_eq((&ts[i]).as_str(), s.as_str()) {
            return Some(i);
        }
        i = i + 1;
    }
    None
}

/// Appends `s` to the table unless an entry with its text is already there;
/// every entry of the new table is an old entry or has the text of `s`.
fn push_if_absent(ts: &mut Vec<String>, s: &String)
    ensures
        distinct_views(old(ts)@) ==> distinct_views(final(ts)@),
        contains_view(final(ts)@, s@),
        forall|v: Seq<char>| contains_view(old(ts)@, v) ==> contains_view(final(ts)@, v),
        forall|i: int|
            0 <= i < final(ts)@.len() ==> (0 <= i < old(ts)@.len() && final(ts)@[i] == old(
                ts,
            )@[i]) || (#[trigger] final(ts)@[i])@ == s@,
{
    match find_target(ts, s) {
        Some(_) => {
        },
        None => {
            let ghost before = ts@;
            ts.push(s.clone());
            proof {
                assert(ts@[before.len() as int]@ == s@);
                assert(forall|i: int| 0 <= i < before.len() ==> ts@[i] == before[i]);
                assert forall|v: Seq<char>| contains_view(before, v) implies contains_view(
                    ts@,
                    v,
                ) by {
                    let i = choose|i: int| 0 <= i < before.len() && before[i]@ == v;
                    assert(ts@[i]@ == v);
                }
            }
        },
    }
}

/// The dependency list a rule declares.
pub open spec fn rule_deps(rules: Seq<(BuildTarget, BuildRule)>, k: int) -> Seq<BuildTarget> {
    rules[k].1.common.deps@
}

/// Whether some rule named `a` declares a dependency on `b`.
pub open spec fn spec_has_dep(
    rules: Seq<(BuildTarget, BuildRule)>,
    a: Seq<char>,
    b: Seq<char>,
) -> bool {
    exists|k: int, d: int|
        0 <= k < rules.len() && 0 <= d < rule_deps(rules, k).len() && rules[k].0@ == a
            && rule_deps(rules, k)[d]@ == b
}

/// Whether some rule named `a` declares a dependency on `b` among the
/// dependency entries lexicographically before position (`k`, `d`).
pub open spec fn spec_has_dep_upto(
    rules: Seq<(BuildTarget, BuildRule)>,
    k: int,
    d: int,
    a: Seq<char>,
    b: Seq<char>,
) -> bool {
    exists|k2: int, d2: int|
        0 <= k2 < rules.len() && 0 <= d2 < rule_deps(rules, k2).len() && (k2 < k || (k2 == k && d2
            < d)) && rules[k2].0@ == a && rule_deps(rules, k2)[d2]@ == b
}

/// Stepping past the end of one rule's dependency list is stepping to the
/// start of the next rule's.
proof fn lemma_upto_step(rules: Seq<(BuildTarget, BuildRule)>, k: int, a: Seq<char>, b: Seq<char>)
    requires
        0 <= k < rules.len(),
    ensures
        spec_has_dep_upto(rules, k, rule_deps(rules, k).len() as int, a, b) == spec_has_dep_upto(
            rules,
            k + 1,
            0,
            a,
            b,
        ),
{
    if spec_has_dep_upto(rules, k, rule_deps(rules, k).len() as int, a, b) {
        let (k2, d2) = choose|k2: int, d2: int|
            0 <= k2 < rules.len() && 0 <= d2 < rule_deps(rules, k2).len() && (k2 < k || (k2 == k
                && d2 < rule_deps(rules, k).len())) && rules[k2].0@ == a && rule_deps(rules, k2)[d2]@
                == b;
        assert(k2 < k + 1);
        assert(spec_has_dep_upto(rules, k + 1, 0, a, b));
    }
    if spec_has_dep_upto(rules, k + 1, 0, a, b) {
        let (k2, d2) = choose|k2: int, d2: int|
            0 <= k2 < rules.len() && 0 <= d2 < rule_deps(rules, k2).len() && (k2 < k + 1 || (k2 == k
                + 1 && d2 < 0)) && rules[k2].0@ == a && rule_deps(rules, k2)[d2]@ == b;
        if k2 == k {
            assert(d2 < rule_deps(rules, k).len());
        }
        assert(spec_has_dep_upto(rules, k, rule_deps(rules, k).len() as int, a, b));
    }
}

/// Past the last rule, the bounded and the unbounded statements coincide.
proof fn lemma_upto_all(rules: Seq<(BuildTarget, BuildRule)>, a: Seq<char>, b: Seq<char>)
    ensures
        spec_has_dep_upto(rules, rules.len() as int, 0, a, b) == spec_has_dep(rules, a, b),
{
    if spec_has_dep_upto(rules, rules.len() as int, 0, a, b) {
        let (k2, d2) = choose|k2: int, d2: int|
            0 <= k2 < rules.len() && 0 <= d2 < rule_deps(rules, k2).len() && (k2 < rules.len() || (
            k2 == rules.len() && d2 < 0)) && rules[k2].0@ == a && rule_deps(rules, k2)[d2]@ == b;
        assert(spec_has_dep(rules, a, b));
    }
    if spec_has_dep(rules, a, b) {
        let (k2, d2) = choose|k2: int, d2: int|
            0 <= k2 < rules.len() && 0 <= d2 < rule_deps(rules, k2).len() && rules[k2].0@ == a
                && rule_deps(rules, k2)[d2]@ == b;
        assert(spec_has_dep_upto(rules, rules.len() as int, 0, a, b));
    }
}

/// Whether the rule set mentions identifier `v` at all: as some rule's own
/// identifier, or in some rule's dependency list.
pub open spec fn spec_mentions(rules: Seq<(BuildTarget, BuildRule)>, v: Seq<char>) -> bool {
    ||| exists|k: int| 0 <= k < rules.len() && (#[trigger] rules[k].0)@ == v
    ||| exists|k: int, d: int|
        0 <= k < rules.len() && 0 <= d < rule_deps(rules, k).len() && (#[trigger] rule_deps(
            rules,
            k,
        )[d])@ == v
}

/// The dependency graph: an identifier table and a directed graph over the
/// table's indices, edges pointing from dependent to dependency.
pub struct DepGraph {
    /// Index-to-identifier table: every rule identifier, and every identifier
    /// mentioned as a dependency, appears exactly once.
    pub targets: Vec<BuildTarget>,
    /// The graph over table indices.
    pub graph: TargetGraph,
}

impl DepGraph {
    /// The table holds pairwise distinct identifiers and the graph's nodes
    /// are exactly the table's indices.
    pub open spec fn wf(self) -> bool {
        &&& distinct_views(self.targets@)
        &&& graph_node_set(self.graph) == Set::new(|n: usize| n < self.targets@.len())
    }
}

/// Builds the dependency graph of a rule set: one node per mentioned
/// identifier, one edge per declared dependency, from the dependent rule to
/// the dependency. Dangling dependencies (identifiers that name no rule) get
/// nodes of their own; nothing is validated here.
pub fn dep_graph(rules: &Rules) -> (dg: DepGraph)
    ensures
        dg.wf(),
        forall|k: int|
            0 <= k < rules@.len() ==> contains_view(dg.targets@, #[trigger] rules@[k].0@),
        forall|k: int, d: int|
            0 <= k < rules@.len() && 0 <= d < rule_deps(rules@, k).len() ==> contains_view(
                dg.targets@,
                #[trigger] rule_deps(rules@, k)[d]@,
            ),
        forall|i: int|
            0 <= i < dg.targets@.len() ==> spec_mentions(rules@, (#[trigger] dg.targets@[i])@),
        forall|i: usize, j: usize|
            #[trigger] graph_edge_set(dg.graph).contains((i, j)) <==> (i < dg.targets@.len() && j
                < dg.targets@.len() && spec_has_dep(
                rules@,
                dg.targets@[i as int]@,
                dg.targets@[j as int]@,
            )),
{
    let mut targets: Vec<BuildTarget> = Vec::new();
    let mut k: usize = 0;
    while k < rules.len()
        invariant
            distinct_views(targets@),
            forall|m: int| 0 <= m < k ==> contains_view(targets@, #[trigger] rules@[m].0@),
            forall|m: int, d: int|
                0 <= m < k && 0 <= d < rule_deps(rules@, m).len() ==> contains_view(
                    targets@,
                    #[trigger] rule_deps(rules@, m)[d]@,
                ),
            forall|i: int|
                0 <= i < targets@.len() ==> spec_mentions(rules@, (#[trigger] targets@[i])@),
        decreases rules@.len() - k,
    {
        let pair = &rules[k];
        let ghost t0 = targets@;
        push_if_absent(&mut targets, &pair.0);
        proof {
            assert forall|i: int|
                0 <= i < targets@.len() implies spec_mentions(
                rules@,
                (#[trigger] targets@[i])@,
            ) by {
                if 0 <= i < t0.len() && targets@[i] == t0[i] {
                    assert(spec_mentions(rules@, t0[i]@));
                } else {
                    assert(targets@[i]@ == rules@[k as int].0@);
                }
            }
        }
        let mut d: usize = 0;
        while d < pair.1.common.deps.len()
            invariant
                0 <= k < rules@.len(),
                pair == &rules@[k as int],
                distinct_views(targets@),
                forall|m: int| 0 <= m < k ==> contains_view(targets@, #[trigger] rules@[m].0@),
                forall|m: int, d2: int|
                    0 <= m < k && 0 <= d2 < rule_deps(rules@, m).len() ==> contains_view(
                        targets@,
                        #[trigger] rule_deps(rules@, m)[d2]@,
                    ),
                contains_view(targets@, rules@[k as int].0@),
                forall|d2: int|
                    0 <= d2 < d ==> contains_view(
                        targets@,
                        #[trigger] rule_deps(rules@, k as int)[d2]@,
                    ),
                forall|i: int|
                    0 <= i < targets@.len() ==> spec_mentions(rules@, (#[trigger] targets@[i])@),
            decreases pair.1.common.deps@.len() - d,
        {
            let ghost t1 = targets@;
            push_if_absent(&mut targets, &pair.1.common.deps[d]);
            proof {
                assert forall|i: int|
                    0 <= i < targets@.len() implies spec_mentions(
                    rules@,
                    (#[trigger] targets@[i])@,
                ) by {
                    if 0 <= i < t1.len() && targets@[i] == t1[i] {
                        assert(spec_mentions(rules@, t1[i]@));
                    } else {
                        assert(targets@[i]@ == rule_deps(rules@, k as int)[d as int]@);
                    }
                }
            }
            d = d + 1;
        }
        k = k + 1;
    }
    let tlen = targets.len();
    let mut graph = graph_new();
    let mut n: usize = 0;
    while n < tlen
        invariant
            n <= tlen,
            graph_node_set(graph) == Set::new(|m: usize| m < n),
            graph_edge_set(graph) == Set::<(usize, usize)>::empty(),
        decreases tlen - n,
    {
        graph_add_node(&mut graph, n);
        proof {
            assert(graph_node_set(graph) =~= Set::new(|m: usize| m < n + 1));
        }
        n = n + 1;
    }
    let mut k: usize = 0;
    while k < rules.len()
        invariant
            tlen == targets@.len(),
            distinct_views(targets@),
            forall|m: int| 0 <= m < rules@.len() ==> contains_view(targets@, #[trigger] rules@[m].0@),
            forall|m: int, d2: int|
                0 <= m < rules@.len() && 0 <= d2 < rule_deps(rules@, m).len() ==> contains_view(
                    targets@,
                    #[trigger] rule_deps(rules@, m)[d2]@,
                ),
            graph_node_set(graph) == Set::new(|m: usize| m < tlen),
            k <= rules@.len(),
            forall|i: usize, j: usize|
                #[trigger] graph_edge_set(graph).contains((i, j)) <==> (i < tlen && j < tlen
                    && spec_has_dep_upto(
                    rules@,
                    k as int,
                    0,
                    targets@[i as int]@,
                    targets@[j as int]@,
                )),
        decreases rules@.len() - k,
    {
        let pair = &rules[k];
        let ti = match find_target(&targets, &pair.0) {
            Some(i) => i,
            None => {
                proof {
                    assert(contains_view(targets@, rules@[k as int].0@));
                }
                vstd::pervasive::unreached()
            },
        };
        let mut d: usize = 0;
        while d < pair.1.common.deps.len()
            invariant
                0 <= k < rules@.len(),
                pair == &rules@[k as int],
                tlen == targets@.len(),
                distinct_views(targets@),
                forall|m: int, d2: int|
                    0 <= m < rules@.len() && 0 <= d2 < rule_deps(rules@, m).len() ==> contains_view(
                        targets@,
                        #[trigger] rule_deps(rules@, m)[d2]@,
                    ),
                graph_node_set(graph) == Set::new(|m: usize| m < tlen),
                ti < tlen && targets@[ti as int]@ == rules@[k as int].0@,
                d <= pair.1.common.deps@.len(),
                forall|i: usize, j: usize|
                    #[trigger] graph_edge_set(graph).contains((i, j)) <==> (i < tlen && j < tlen
                        && spec_has_dep_upto(
                        rules@,
                        k as int,
                        d as int,
                        targets@[i as int]@,
                        targets@[j as int]@,
                    )),
            decreases pair.1.common.deps@.len() - d,
        {
            let dep = &pair.1.common.deps[d];
            let tj = match find_target(&targets, dep) {
                Some(j) => j,
                None => {
                    proof {
                        assert(contains_view(targets@, rule_deps(rules@, k as int)[d as int]@));
                    }
                    vstd::pervasive::unreached()
                },
            };
            let ghost es0 = graph_edge_set(graph);
            let ghost ns0 = graph_node_set(graph);
            graph_add_edge(&mut graph, ti, tj);
            proof {
                assert(ns0.insert(ti).insert(tj) =~= ns0);
                assert forall|i: usize, j: usize| #[trigger]
                    graph_edge_set(graph).contains((i, j)) implies (i < tlen && j < tlen
                    && spec_has_dep_upto(
                    rules@,
                    k as int,
                    d + 1,
                    targets@[i as int]@,
                    targets@[j as int]@,
                )) by {
                    if i == ti && j == tj {
                        assert(rules@[k as int].0@ == targets@[i as int]@);
                        assert(rule_deps(rules@, k as int)[d as int]@ == targets@[j as int]@);
                        assert(spec_has_dep_upto(
                            rules@,
                            k as int,
                            d + 1,
                            targets@[i as int]@,
                            targets@[j as int]@,
                        ));
                    } else {
                        assert(es0.contains((i, j)));
                        let (k2, d2) = choose|k2: int, d2: int|
                            0 <= k2 < rules@.len() && 0 <= d2 < rule_deps(rules@, k2).len() && (k2
                                < k as int || (k2 == k as int && d2 < d as int)) && rules@[k2].0@
                                == targets@[i as int]@ && rule_deps(rules@, k2)[d2]@
                                == targets@[j as int]@;
                        assert(spec_has_dep_upto(
                            rules@,
                            k as int,
                            d + 1,
                            targets@[i as int]@,
                            targets@[j as int]@,
                        ));
                    }
                }
                assert forall|i: usize, j: usize|
                    (i < tlen && j < tlen && spec_has_dep_upto(
                        rules@,
                        k as int,
                        d + 1,
                        targets@[i as int]@,
                        targets@[j as int]@,
                    )) implies #[trigger] graph_edge_set(graph).contains((i, j)) by {
                    let (k2, d2) = choose|k2: int, d2: int|
                        0 <= k2 < rules@.len() && 0 <= d2 < rule_deps(rules@, k2).len() && (k2
                            < k as int || (k2 == k as int && d2 < d + 1)) && rules@[k2].0@
                            == targets@[i as int]@ && rule_deps(rules@, k2)[d2]@
                            == targets@[j as int]@;
                    if k2 == k as int && d2 == d as int {
                        assert(targets@[i as int]@ == targets@[ti as int]@);
                        assert(targets@[j as int]@ == targets@[tj as int]@);
                        if i != ti {
                            assert(false);
                        }
                        if j != tj {
                            assert(false);
                        }
                        assert(graph_edge_set(graph).contains((i, j)));
                    } else {
                        assert(spec_has_dep_upto(
                            rules@,
                            k as int,
                            d as int,
                            targets@[i as int]@,
                            targets@[j as int]@,
                        ));
                        assert(es0.contains((i, j)));
                    }
                }
            }
            d = d + 1;
        }
        proof {
            assert forall|i: usize, j: usize| i < tlen && j < tlen implies (spec_has_dep_upto(
                rules@,
                k as int,
                d as int,
                targets@[i as int]@,
                targets@[j as int]@,
            ) == spec_has_dep_upto(
                rules@,
                k + 1,
                0,
                targets@[i as int]@,
                targets@[j as int]@,
            )) by {
                lemma_upto_step(rules@, k as int, targets@[i as int]@, targets@[j as int]@);
            }
        }
        k = k + 1;
    }
    proof {
        assert forall|i: usize, j: usize| i < tlen && j < tlen implies (spec_has_dep_upto(
            rules@,
            rules@.len() as int,
            0,
            targets@[i as int]@,
            targets@[j as int]@,
        ) == spec_has_dep(rules@, targets@[i as int]@, targets@[j as int]@)) by {
            lemma_upto_all(rules@, targets@[i as int]@, targets@[j as int]@);
        }
    }
    DepGraph { targets, graph }
}

/// Topologically iterates the graph's identifiers: every identifier comes
/// after all identifiers it has an edge to, so dependencies come before
/// their dependents. Recomputed from the current edge set on each call;
/// `None` when the graph has a cycle, whose ordering this component does not
/// define.
pub fn topo_targets(dg: &DepGraph) -> (r: Option<Vec<BuildTarget>>)
    requires
        dg.wf(),
    ensures
        match r {
            Some(order) => {
                &&& distinct_views(order@)
                &&& forall|i: int|
                    0 <= i < dg.targets@.len() ==> contains_view(order@, #[trigger] dg.targets@[i]@)
                &&& forall|p: int|
                    0 <= p < order@.len() ==> contains_view(dg.targets@, #[trigger] order@[p]@)
                &&& forall|p: int, q: int, i: usize, j: usize|
                    #![trigger order@[p], order@[q], graph_edge_set(dg.graph).contains((i, j))]
                    0 <= p < order@.len() && 0 <= q < order@.len() && i < dg.targets@.len() && j
                        < dg.targets@.len() && order@[p]@ == dg.targets@[i as int]@ && order@[q]@
                        == dg.targets@[j as int]@ && graph_edge_set(dg.graph).contains(
                        (i, j),
                    ) ==> j == i || q < p
            },
            None => has_edge_cycle(graph_edge_set(dg.graph)),
        },
{
    let idxs = match graph_toposort(&dg.graph) {
        Some(v) => v,
        None => {
            return None;
        },
    };
    let len = idxs.len();
    let tcount = dg.targets.len();
    proof {
        assert forall|a: int| 0 <= a < idxs@.len() implies idxs@[a] < dg.targets@.len() by {
            assert(idxs@.contains(idxs@[a]));
            assert(graph_node_set(dg.graph).contains(idxs@[a]));
        }
    }
    let mut out: Vec<BuildTarget> = Vec::new();
    let mut i: usize = len;
    while i > 0
        invariant
            i <= len,
            len == idxs@.len(),
            tcount == dg.targets@.len(),
            forall|a: int| 0 <= a < idxs@.len() ==> idxs@[a] < dg.targets@.len(),
            out@.len() == len - i,
            forall|p: int|
                #![trigger out@[p]]
                0 <= p < out@.len() ==> idxs@[len - 1 - p] < dg.targets@.len() && out@[p]
                    == dg.targets@[idxs@[len - 1 - p] as int],
        decreases i,
    {
        i = i - 1;
        let n = idxs[i];
        out.push((&dg.targets[n]).clone());
    }
    proof {
        let ts = dg.targets@;
        let ord = out@;
        assert forall|p: int, q: int| 0 <= p < q < ord.len() implies ord[p]@ != ord[q]@ by {
            let a = len - 1 - p;
            let b = len - 1 - q;
            assert(idxs@.no_duplicates());
            assert(idxs@[a] != idxs@[b]);
            assert(ord[p] == ts[idxs@[a] as int]);
            assert(ord[q] == ts[idxs@[b] as int]);
        }
        assert forall|t: int| 0 <= t < ts.len() implies contains_view(ord, ts[t]@) by {
            let tu = t as usize;
            assert(tu < tcount);
            assert(graph_node_set(dg.graph) == Set::new(|n: usize| n < ts.len()));
            assert(graph_node_set(dg.graph).contains(tu));
            assert(idxs@.contains(tu));
            let a = choose|a: int| 0 <= a < idxs@.len() && idxs@[a] == tu;
            let p = len - 1 - a;
            assert(ord[p] == ts[idxs@[a] as int]);
            assert(ord[p]@ == ts[t]@);
        }
        assert forall|p: int| 0 <= p < ord.len() implies contains_view(ts, ord[p]@) by {
            let a = len - 1 - p;
            assert(ord[p] == ts[idxs@[a] as int]);
        }
        assert forall|p: int, q: int, i2: usize, j2: usize|
            #![trigger ord[p], ord[q], graph_edge_set(dg.graph).contains((i2, j2))]
            0 <= p < ord.len() && 0 <= q < ord.len() && i2 < ts.len() && j2 < ts.len() && ord[p]@
                == ts[i2 as int]@ && ord[q]@ == ts[j2 as int]@ && graph_edge_set(
                dg.graph,
            ).contains((i2, j2)) && i2 != j2 implies q < p by {
            let a = len - 1 - p;
            let b = len - 1 - q;
            assert(ord[p] == ts[idxs@[a] as int]);
            assert(ord[q] == ts[idxs@[b] as int]);
            if idxs@[a] != i2 {
                assert(ts[idxs@[a] as int]@ == ts[i2 as int]@);
                assert(false);
            }
            if idxs@[b] != j2 {
                assert(false);
            }
            assert(graph_edge_set(dg.graph).contains((idxs@[a], idxs@[b])));
        }
    }
    Some(out)
}

/// A circular chain of declared dependencies: each identifier in the walk
/// declares a dependency on the next, and the walk returns to its start.
pub open spec fn has_dep_cycle(rules: Seq<(BuildTarget, BuildRule)>) -> bool {
    exists|ds: Seq<Seq<char>>|
        #![trigger ds[0]]
        ds.len() >= 2 && ds[0] == ds[ds.len() - 1] && forall|i: int|
            0 <= i < ds.len() - 1 ==> #[trigger] spec_has_dep(rules, ds[i], ds[i + 1])
}

/// Builds the dependency graph of `rules` and iterates it topologically:
/// when the declared dependencies are acyclic, the returned sequence yields
/// every mentioned identifier, and never yields one before an identifier it
/// declares a dependency on. `None` only when the declared dependencies
/// contain a cycle.
pub fn rule_order(rules: &Rules) -> (r: Option<Vec<BuildTarget>>)
    ensures
        match r {
            Some(order) => {
                &&& distinct_views(order@)
                &&& forall|k: int|
                    0 <= k < rules@.len() ==> contains_view(order@, #[trigger] rules@[k].0@)
                &&& forall|p: int|
                    0 <= p < order@.len() ==> spec_mentions(rules@, (#[trigger] order@[p])@)
                &&& forall|p: int, q: int, k: int, d: int|
                    #![trigger order@[p], order@[q], rule_deps(rules@, k)[d]]
                    0 <= p < order@.len() && 0 <= q < order@.len() && 0 <= k < rules@.len() && 0
                        <= d < rule_deps(rules@, k).len() && order@[p]@ == rules@[k].0@
                        && rule_deps(rules@, k)[d]@ == order@[q]@ ==> order@[p]@
                        == order@[q]@ || q < p
            },
            None => has_dep_cycle(rules@),
        },
{
    let dg = dep_graph(rules);
    let tc = dg.targets.len();
    let r = topo_targets(&dg);
    if r.is_none() {
        proof {
            let es = graph_edge_set(dg.graph);
            let p = choose|p: Seq<usize>|
                p.len() >= 2 && p[0] == p[p.len() - 1] && forall|i: int|
                    0 <= i < p.len() - 1 ==> #[trigger] es.contains((p[i], p[i + 1]));
            let ds = Seq::new(p.len(), |i: int| dg.targets@[p[i] as int]@);
            assert forall|i: int|
                0 <= i < ds.len() - 1 implies #[trigger] spec_has_dep(rules@, ds[i], ds[i + 1]) by {
                assert(es.contains((p[i], p[i + 1])));
                assert(ds[i] == dg.targets@[p[i] as int]@);
                assert(ds[i + 1] == dg.targets@[p[i + 1] as int]@);
            }
            assert(ds[0] == ds[ds.len() - 1]);
            assert(has_dep_cycle(rules@));
        }
    }
    if let Some(order) = &r {
        proof {
            let ts = dg.targets@;
            assert forall|k: int|
                0 <= k < rules@.len() implies contains_view(order@, #[trigger] rules@[k].0@) by {
                let i = choose|i: int| 0 <= i < ts.len() && ts[i]@ == rules@[k].0@;
                assert(contains_view(order@, ts[i]@));
            }
            assert forall|p: int|
                0 <= p < order@.len() implies spec_mentions(rules@, (#[trigger] order@[p])@) by {
                assert(contains_view(ts, order@[p]@));
                let i = choose|i: int| 0 <= i < ts.len() && ts[i]@ == order@[p]@;
                assert(spec_mentions(rules@, ts[i]@));
            }
            assert forall|p: int, q: int, k: int, d: int|
                #![trigger order@[p], order@[q], rule_deps(rules@, k)[d]]
                0 <= p < order@.len() && 0 <= q < order@.len() && 0 <= k < rules@.len() && 0 <= d
                    < rule_deps(rules@, k).len() && order@[p]@ == rules@[k].0@ && rule_deps(
                    rules@,
                    k,
                )[d]@ == order@[q]@ && order@[p]@ != order@[q]@ implies q < p by {
                let i = choose|i: int| 0 <= i < ts.len() && ts[i]@ == order@[p]@;
                let j = choose|j: int| 0 <= j < ts.len() && ts[j]@ == order@[q]@;
                assert(0 <= i < tc && 0 <= j < tc);
                assert(spec_has_dep(rules@, ts[i]@, ts[j]@));
                assert(graph_edge_set(dg.graph).contains((i as usize, j as usize)));
                assert(i != j);
            }
        }
    }
    r
}

/// Renders the dependency graph as Graphviz text: one node per identifier,
/// labeled with it, one unlabeled edge per dependency pair.
pub fn graphviz_text(dg: &DepGraph) -> (r: String)
    ensures
        r@ == dot_text_of(dg.graph, dg.targets.deep_view()),
{
    graph_dot(&dg.graph, &dg.targets)
}

} // verus!
