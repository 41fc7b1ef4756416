//! The typed rule model: one build rule per compilation unit, of a closed set
//! of recognized variants plus a catch-all for unrecognized rule kinds, and
//! the per-rule crate-root (entry point) resolution.
//!
//! Source paths live here as '/'-separated relative strings (see
//! [`crate::paths`]); a rule's `crate_root` field is the optional explicit
//! override, empty when unset.

use vstd::prelude::*;
use vstd::string::*;

use crate::paths::{file_name, file_name_of, path_depth, path_depth_exec, str_eq};

verus! {

/// An opaque identifier naming one rule within the whole rule set.
pub type BuildTarget = String;

/// A pattern over build targets; carried through, never interpreted.
pub type BuildTargetPattern = String;

/// The attributes every rule variant shares.
#[derive(Debug)]
pub struct CommonBuildRule {
    /// The name of the build rule, unique within its build file.
    pub name: String,
    /// The rule's dependencies, as a list of build targets.
    pub deps: Vec<BuildTarget>,
    /// Patterns naming the rules that may depend on this one.
    pub visibility: Vec<BuildTargetPattern>,
}

/// How a rule's dependencies are linked into it.
#[derive(Debug)]
pub enum LinkStyle {
    Static,
    StaticPic,
    Shared,
}

impl Default for LinkStyle {
    fn default() -> (r: Self)
        ensures
            r == LinkStyle::Static,
    {
        LinkStyle::Static
    }
}

/// How a library prefers to be linked by its dependents.
#[derive(Debug)]
pub enum PreferredLinkage {
    /// Linked based on the dependent's link style.
    Any,
    /// Always linked as a shared library.
    Shared,
    /// Always linked as a static library.
    Static,
}

impl Default for PreferredLinkage {
    fn default() -> (r: Self)
        ensures
            r == PreferredLinkage::Any,
    {
        PreferredLinkage::Any
    }
}

/// A rule that builds a native executable from Rust sources.
#[derive(Debug)]
pub struct RustBinaryRule {
    /// The set of source files; one of them is the crate root.
    pub srcs: Vec<String>,
    /// Feature names passed through to the compiler.
    pub features: Vec<String>,
    /// Additional compiler flags.
    pub rustc_flags: Vec<String>,
    /// Additional linker flags.
    pub linker_flags: Vec<String>,
    /// The generated executable's name; defaults to the rule name when empty.
    pub krate: String,
    /// Explicit crate-root override; empty when unset.
    pub crate_root: String,
    /// How dependencies are linked.
    pub link_style: LinkStyle,
    /// Whether to set the rpath in the executable.
    pub rpath: bool,
    /// Targets of tests exercising this rule.
    pub tests: Vec<BuildTarget>,
    /// License files.
    pub licenses: Vec<String>,
    /// Arbitrary annotation tags.
    pub labels: Vec<String>,
}

impl Default for RustBinaryRule {
    fn default() -> (r: Self)
        ensures
            r.srcs@ =~= Seq::<String>::empty(),
            r.features@ =~= Seq::<String>::empty(),
            r.rustc_flags@ =~= Seq::<String>::empty(),
            r.linker_flags@ =~= Seq::<String>::empty(),
            r.krate@ =~= Seq::<char>::empty(),
            r.crate_root@ =~= Seq::<char>::empty(),
            r.link_style == LinkStyle::Static,
            r.rpath == true,
            r.tests@ =~= Seq::<String>::empty(),
            r.licenses@ =~= Seq::<String>::empty(),
            r.labels@ =~= Seq::<String>::empty(),
    {
        RustBinaryRule {
            srcs: Vec::new(),
            features: Vec::new(),
            rustc_flags: Vec::new(),
            linker_flags: Vec::new(),
            krate: String::new(),
            crate_root: String::new(),
            link_style: LinkStyle::Static,
            rpath: true,
            tests: Vec::new(),
            licenses: Vec::new(),
            labels: Vec::new(),
        }
    }
}

/// A rule that builds a native library from Rust sources.
#[derive(Debug)]
pub struct RustLibraryRule {
    /// The set of source files; one of them is the crate root.
    pub srcs: Vec<String>,
    /// Feature names passed through to the compiler.
    pub features: Vec<String>,
    /// Additional compiler flags.
    pub rustc_flags: Vec<String>,
    /// The generated crate's name; defaults to the rule name when empty.
    pub krate: String,
    /// Explicit crate-root override; empty when unset.
    pub crate_root: String,
    /// How the library prefers to be linked.
    pub preferred_linkage: PreferredLinkage,
    /// Targets of tests exercising this rule.
    pub tests: Vec<BuildTarget>,
    /// License files.
    pub licenses: Vec<String>,
    /// Arbitrary annotation tags.
    pub labels: Vec<String>,
}

impl Default for RustLibraryRule {
    fn default() -> (r: Self)
        ensures
            r.srcs@ =~= Seq::<String>::empty(),
            r.features@ =~= Seq::<String>::empty(),
            r.rustc_flags@ =~= Seq::<String>::empty(),
            r.krate@ =~= Seq::<char>::empty(),
            r.crate_root@ =~= Seq::<char>::empty(),
            r.preferred_linkage == PreferredLinkage::Any,
            r.tests@ =~= Seq::<String>::empty(),
            r.licenses@ =~= Seq::<String>::empty(),
            r.labels@ =~= Seq::<String>::empty(),
    {
        RustLibraryRule {
            srcs: Vec::new(),
            features: Vec::new(),
            rustc_flags: Vec::new(),
            krate: String::new(),
            crate_root: String::new(),
            preferred_linkage: PreferredLinkage::Any,
            tests: Vec::new(),
            licenses: Vec::new(),
            labels: Vec::new(),
        }
    }
}

/// A rule that builds and runs a Rust test executable.
#[derive(Debug)]
pub struct RustTestRule {
    /// The set of source files; one of them is the crate root.
    pub srcs: Vec<String>,
    /// Whether the standard test framework is used.
    pub framework: bool,
    /// Feature names passed through to the compiler.
    pub features: Vec<String>,
    /// Additional compiler flags.
    pub rustc_flags: Vec<String>,
    /// The generated executable's name; defaults to the rule name when empty.
    pub krate: String,
    /// Explicit crate-root override; empty when unset.
    pub crate_root: String,
    /// How dependencies are linked.
    pub link_style: LinkStyle,
    /// License files.
    pub licenses: Vec<String>,
    /// Arbitrary annotation tags.
    pub labels: Vec<String>,
}

impl Default for RustTestRule {
    fn default() -> (r: Self)
        ensures
            r.srcs@ =~= Seq::<String>::empty(),
            r.framework == true,
            r.features@ =~= Seq::<String>::empty(),
            r.rustc_flags@ =~= Seq::<String>::empty(),
            r.krate@ =~= Seq::<char>::empty(),
            r.crate_root@ =~= Seq::<char>::empty(),
            r.link_style == LinkStyle::Static,
            r.licenses@ =~= Seq::<String>::empty(),
            r.labels@ =~= Seq::<String>::empty(),
    {
        RustTestRule {
            srcs: Vec::new(),
            framework: true,
            features: Vec::new(),
            rustc_flags: Vec::new(),
            krate: String::new(),
            crate_root: String::new(),
            link_style: LinkStyle::Static,
            licenses: Vec::new(),
            labels: Vec::new(),
        }
    }
}

/// A rule naming a pre-built Rust crate.
#[derive(Debug)]
pub struct PrebuiltRustLibraryRule {
    /// Path to the precompiled crate.
    pub rlib: String,
    /// The crate's name; defaults to the rule name when empty.
    pub krate: String,
    /// License files.
    pub licenses: Vec<String>,
    /// Arbitrary annotation tags.
    pub labels: Vec<String>,
}

impl Default for PrebuiltRustLibraryRule {
    fn default() -> (r: Self)
        ensures
            r.rlib@ =~= Seq::<char>::empty(),
            r.krate@ =~= Seq::<char>::empty(),
            r.licenses@ =~= Seq::<String>::empty(),
            r.labels@ =~= Seq::<String>::empty(),
    {
        PrebuiltRustLibraryRule {
            rlib: String::new(),
            krate: String::new(),
            licenses: Vec::new(),
            labels: Vec::new(),
        }
    }
}

/// The variant-specific part of a rule. Every recognized rule kind has its
/// own variant; a kind outside the recognized vocabulary becomes `Other`,
/// carrying the raw discriminator text, rather than a failure, since a rule
/// set may reference kinds irrelevant to this translator.
#[derive(Debug)]
pub enum BuildRuleType {
    RustBinary(RustBinaryRule),
    RustLibrary(RustLibraryRule),
    RustTest(RustTestRule),
    PrebuiltRustLibrary(PrebuiltRustLibraryRule),
    Other(String),
}

/// One full rule record: where its sources live, what it depends on, the
/// shared attributes and the variant-specific ones.
#[derive(Debug)]
pub struct BuildRule {
    /// The directory, relative to the discovered root, the rule's sources
    /// live under.
    pub base_path: String,
    /// Dependency identifiers as reported by the query tool.
    pub direct_dependencies: Vec<BuildTarget>,
    /// The attributes every variant shares.
    pub common: CommonBuildRule,
    /// The variant-specific attributes.
    pub typ: BuildRuleType,
}

/// The whole rule set: identifier/rule pairs, constructed once per
/// invocation. Well-formed sets satisfy [`rules_wf`]: identifiers unique
/// within the whole set.
pub type Rules = Vec<(BuildTarget, BuildRule)>;

/// The rule-set invariant: each identifier names at most one rule.
pub open spec fn rules_wf(rules: Seq<(BuildTarget, BuildRule)>) -> bool {
    forall|i: int, j: int|
        0 <= i < j < rules.len() ==> (#[trigger] rules[i].0)@ != (#[trigger] rules[j].0)@
}

/// Whether a rule kind is recognized at all; only the catch-all variant is
/// not. A recognized rule may still fail later — a library without a
/// determinable entry point is an entry-point error of its directory group,
/// not an unsupported kind.
pub open spec fn spec_is_supported(t: BuildRuleType) -> bool {
    !(t is Other)
}

/// Whether a rule declares a library.
pub open spec fn spec_is_library(t: BuildRuleType) -> bool {
    t is RustLibrary || t is PrebuiltRustLibrary
}

/// The raw kind name of a rule variant, as the query tool spells it; for
/// the catch-all, the discriminator text it carries.
pub open spec fn spec_type_name(t: BuildRuleType) -> Seq<char> {
    match t {
        BuildRuleType::RustBinary(_) => "rust_binary"@,
        BuildRuleType::RustLibrary(_) => "rust_library"@,
        BuildRuleType::RustTest(_) => "rust_test"@,
        BuildRuleType::PrebuiltRustLibrary(_) => "prebuilt_rust_library"@,
        BuildRuleType::Other(kind) => kind@,
    }
}

/// The module name a rule variant carries, when it carries one.
pub open spec fn spec_krate(t: BuildRuleType) -> Option<Seq<char>> {
    match t {
        BuildRuleType::RustBinary(b) => Some(b.krate@),
        BuildRuleType::RustLibrary(l) => Some(l.krate@),
        BuildRuleType::RustTest(r) => Some(r.krate@),
        BuildRuleType::PrebuiltRustLibrary(p) => Some(p.krate@),
        BuildRuleType::Other(_) => None,
    }
}

impl BuildRuleType {
    /// Whether this rule kind is recognized at all.
    pub fn is_supported(&self) -> (r: bool)
        ensures
            r == spec_is_supported(*self),
    {
        match self {
            BuildRuleType::Other(..) => false,
            _ => true,
        }
    }

    /// The raw kind name, as the query tool spells it.
    pub fn name(&self) -> (r: &str)
        ensures
            r@ == spec_type_name(*self),
    {
        match self {
            BuildRuleType::RustBinary(..) => "rust_binary",
            BuildRuleType::RustLibrary(..) => "rust_library",
            BuildRuleType::RustTest(..) => "rust_test",
            BuildRuleType::PrebuiltRustLibrary(..) => "prebuilt_rust_library",
            BuildRuleType::Other(kind) => kind.as_str(),
        }
    }

    /// Whether the rule declares a library.
    pub fn is_library(&self) -> (r: bool)
        ensures
            r == spec_is_library(*self),
    {
        match self {
            BuildRuleType::RustLibrary(..) | BuildRuleType::PrebuiltRustLibrary(..) => true,
            _ => false,
        }
    }

    /// The module name this rule carries, when its variant has one.
    pub fn krate(&self) -> (r: Option<&String>)
        ensures
            match r {
                Some(k) => spec_krate(*self) == Some(k@),
                None => spec_krate(*self) is None,
            },
    {
        match self {
            BuildRuleType::RustBinary(b) => Some(&b.krate),
            BuildRuleType::RustLibrary(l) => Some(&l.krate),
            BuildRuleType::RustTest(r) => Some(&r.krate),
            BuildRuleType::PrebuiltRustLibrary(p) => Some(&p.krate),
            BuildRuleType::Other(_) => None,
        }
    }
}

/// The first shallowest source whose file name is `fname`: among the sources
/// matching `fname`, the one with the fewest path components, ties going to
/// the earliest in input order.
pub open spec fn spec_shallowest(srcs: Seq<Seq<char>>, fname: Seq<char>) -> Option<Seq<char>>
    decreases srcs.len(),
{
    if srcs.len() == 0 {
        None
    } else {
        let rest = spec_shallowest(srcs.drop_first(), fname);
        if file_name_of(srcs[0]) == fname {
            match rest {
                None => Some(srcs[0]),
                Some(r) => if path_depth(srcs[0]) <= path_depth(r) {
                    Some(srcs[0])
                } else {
                    Some(r)
                },
            }
        } else {
            rest
        }
    }
}

/// How appending one more source changes the shallowest match: the new source
/// takes over only when it matches and is strictly shallower than the match
/// so far.
#[verifier::spinoff_prover]
proof fn lemma_shallowest_push(srcs: Seq<Seq<char>>, fname: Seq<char>, x: Seq<char>)
    ensures
        spec_shallowest(srcs.push(x), fname) == (match spec_shallowest(srcs, fname) {
            None => if file_name_of(x) == fname {
                Some(x)
            } else {
                None
            },
            Some(r) => if file_name_of(x) == fname && path_depth(x) < path_depth(r) {
                Some(x)
            } else {
                Some(r)
            },
        }),
    decreases srcs.len(),
{
    if srcs.len() == 0 {
        assert(srcs.push(x)[0] == x);
        assert(srcs.push(x).drop_first() =~= Seq::<Seq<char>>::empty());
    } else {
        assert(srcs.push(x)[0] == srcs[0]);
        assert(srcs.push(x).drop_first() =~= srcs.drop_first().push(x));
        lemma_shallowest_push(srcs.drop_first(), fname, x);
    }
}

/// What the shallowest match is: when there is none, no source matches; when
/// there is one, it is a matching source of minimal depth.
proof fn lemma_shallowest_props(srcs: Seq<Seq<char>>, fname: Seq<char>)
    ensures
        match spec_shallowest(srcs, fname) {
            None => forall|i: int| 0 <= i < srcs.len() ==> file_name_of(#[trigger] srcs[i]) != fname,
            Some(r) => {
                &&& exists|i: int| 0 <= i < srcs.len() && srcs[i] == r
                &&& file_name_of(r) == fname
                &&& forall|i: int|
                    0 <= i < srcs.len() && file_name_of(#[trigger] srcs[i]) == fname
                        ==> path_depth(r) <= path_depth(srcs[i])
            },
        },
    decreases srcs.len(),
{
    if srcs.len() > 0 {
        lemma_shallowest_props(srcs.drop_first(), fname);
        assert forall|i: int| 0 < i < srcs.len() implies srcs.drop_first()[i - 1] == srcs[i] by {}
        match spec_shallowest(srcs, fname) {
            None => {
            },
            Some(r) => {
                if file_name_of(srcs[0]) != fname || (spec_shallowest(srcs.drop_first(), fname)
                    matches Some(q) && path_depth(q) < path_depth(srcs[0])) {
                    let j = choose|j: int|
                        0 <= j < srcs.drop_first().len() && srcs.drop_first()[j] == r;
                    assert(srcs[j + 1] == r);
                }
            },
        }
    }
}

/// Scans `srcs` for the first shallowest source whose file name is `fname`.
pub fn shallowest_match<'a>(srcs: &'a Vec<String>, fname: &str) -> (r: Option<&'a String>)
    ensures
        match r {
            Some(p) => spec_shallowest(srcs.deep_view(), fname@) == Some(p@),
            None => spec_shallowest(srcs.deep_view(), fname@) is None,
        },
{
    let mut found = false;
    let mut best: usize = 0;
    let mut best_depth: usize = 0;
    let mut i: usize = 0;
    while i < srcs.len()
        invariant
            i <= srcs@.len(),
            !found ==> spec_shallowest(srcs.deep_view().subrange(0, i as int), fname@) is None,
            found ==> {
                &&& best < i
                &&& spec_shallowest(srcs.deep_view().subrange(0, i as int), fname@) == Some(
                    srcs@[best as int]@,
                )
                &&& best_depth == path_depth(srcs@[best as int]@)
            },
        decreases srcs@.len() - i,
    {
        proof {
            assert(srcs.deep_view().subrange(0, i as int).push(srcs.deep_view()[i as int])
                =~= srcs.deep_view().subrange(0, i + 1));
            lemma_shallowest_push(srcs.deep_view().subrange(0, i as int), fname@, srcs@[i as int]@);
        }
        let nm = file_name((&srcs[i]).as_str());
        if str_eq(nm, fname) {
            let d: usize = path_depth_exec((&srcs[i]).as_str());
            if !found || d < best_depth {
                found = true;
                best = i;
                best_depth = d;
            }
        }
        i = i + 1;
    }
    proof {
        assert(srcs.deep_view().subrange(0, srcs@.len() as int) =~= srcs.deep_view());
    }
    if found {
        Some(&srcs[best])
    } else {
        None
    }
}

/// The conventional entry-point file name for a rule: `lib.rs` for library
/// variants, `main.rs` otherwise.
pub open spec fn default_file_name(is_lib: bool) -> Seq<char> {
    if is_lib {
        "lib.rs"@
    } else {
        "main.rs"@
    }
}

/// Entry-point resolution over one variant's fields, in order of precedence:
/// a non-empty explicit override wins verbatim; otherwise the first
/// shallowest source named like the conventional entry point; otherwise the
/// first shallowest source named `{module name}.rs`; otherwise nothing.
pub open spec fn spec_resolve(
    srcs: Seq<Seq<char>>,
    root_override: Seq<char>,
    krate: Seq<char>,
    is_lib: bool,
) -> Option<Seq<char>> {
    if root_override.len() > 0 {
        Some(root_override)
    } else {
        match spec_shallowest(srcs, default_file_name(is_lib)) {
            Some(p) => Some(p),
            None => spec_shallowest(srcs, krate + ".rs"@),
        }
    }
}

/// The entry point of a rule, when it has a determinable one. Only the
/// supported source-carrying variants resolve.
pub open spec fn spec_crate_root(t: BuildRuleType) -> Option<Seq<char>> {
    match t {
        BuildRuleType::RustBinary(b) => spec_resolve(
            b.srcs.deep_view(),
            b.crate_root@,
            b.krate@,
            false,
        ),
        BuildRuleType::RustLibrary(l) => spec_resolve(
            l.srcs.deep_view(),
            l.crate_root@,
            l.krate@,
            true,
        ),
        BuildRuleType::RustTest(r) => spec_resolve(r.srcs.deep_view(), r.crate_root@, r.krate@, false),
        _ => None,
    }
}

impl BuildRuleType {
    /// Resolves this rule's entry point, per [`spec_crate_root`].
    pub fn crate_root(&self) -> (r: Option<&String>)
        ensures
            match r {
                Some(p) => spec_crate_root(*self) == Some(p@),
                None => spec_crate_root(*self) is None,
            },
    {
        let (srcs, root_override, krate, is_lib): (&Vec<String>, &String, &String, bool) =
            match self {
            BuildRuleType::RustBinary(b) => (&b.srcs, &b.crate_root, &b.krate, false),
            BuildRuleType::RustLibrary(l) => (&l.srcs, &l.crate_root, &l.krate, true),
            BuildRuleType::RustTest(t) => (&t.srcs, &t.crate_root, &t.krate, false),
            _ => {
                return None;
            },
        };
        if !root_override.as_str().is_empty() {
            Some(root_override)
        } else {
            let dflt: &str = if is_lib {
                "lib.rs"
            } else {
                "main.rs"
            };
            match shallowest_match(srcs, dflt) {
                Some(p) => Some(p),
                None => {
                    let mut crate_file = krate.clone();
                    crate_file.append(".rs");
                    shallowest_match(srcs, crate_file.as_str())
                },
            }
        }
    }
}

/// The explicit crate-root override a rule carries; empty when unset or when
/// its variant carries none.
pub open spec fn root_override_view(t: BuildRuleType) -> Seq<char> {
    match t {
        BuildRuleType::RustBinary(b) => b.crate_root@,
        BuildRuleType::RustLibrary(l) => l.crate_root@,
        BuildRuleType::RustTest(r) => r.crate_root@,
        _ => Seq::empty(),
    }
}

/// A supported rule with an explicit crate-root override resolves to that
/// path verbatim, whatever its source list holds.
pub proof fn lemma_override_wins(t: BuildRuleType)
    requires
        spec_is_supported(t),
        root_override_view(t).len() > 0,
    ensures
        spec_crate_root(t) == Some(root_override_view(t)),
{
}

/// Without an override, a rule with some source named like the conventional
/// entry point resolves to a source so named — a source matching only the
/// module name never takes precedence over it.
pub proof fn lemma_conventional_name_precedes(
    srcs: Seq<Seq<char>>,
    krate: Seq<char>,
    is_lib: bool,
    i: int,
)
    requires
        0 <= i < srcs.len(),
        file_name_of(srcs[i]) == default_file_name(is_lib),
    ensures
        spec_resolve(srcs, Seq::empty(), krate, is_lib) matches Some(r) && file_name_of(r)
            == default_file_name(is_lib),
{
    lemma_shallowest_props(srcs, default_file_name(is_lib));
}

/// Without an override, among the sources named like the conventional entry
/// point the resolved one has the fewest path components: a strictly
/// shallower matching path always wins over a deeper one.
pub proof fn lemma_shallowest_wins(srcs: Seq<Seq<char>>, krate: Seq<char>, is_lib: bool, i: int)
    requires
        0 <= i < srcs.len(),
        file_name_of(srcs[i]) == default_file_name(is_lib),
    ensures
        spec_resolve(srcs, Seq::empty(), krate, is_lib) matches Some(r) && forall|j: int|
            0 <= j < srcs.len() && file_name_of(#[trigger] srcs[j]) == default_file_name(is_lib)
                ==> path_depth(r) <= path_depth(srcs[j]),
{
    lemma_shallowest_props(srcs, default_file_name(is_lib));
}

/// The variant after normalization: a variant that carries a module name and
/// whose current one is empty acquires `name`; everything else is untouched.
pub open spec fn spec_normalized(t: BuildRuleType, name: String) -> BuildRuleType {
    match t {
        BuildRuleType::RustBinary(b) => BuildRuleType::RustBinary(
            RustBinaryRule {
                krate: if b.krate@.len() == 0 {
                    name
                } else {
                    b.krate
                },
                ..b
            },
        ),
        BuildRuleType::RustLibrary(l) => BuildRuleType::RustLibrary(
            RustLibraryRule {
                krate: if l.krate@.len() == 0 {
                    name
                } else {
                    l.krate
                },
                ..l
            },
        ),
        BuildRuleType::RustTest(r) => BuildRuleType::RustTest(
            RustTestRule {
                krate: if r.krate@.len() == 0 {
                    name
                } else {
                    r.krate
                },
                ..r
            },
        ),
        BuildRuleType::PrebuiltRustLibrary(p) => BuildRuleType::PrebuiltRustLibrary(
            PrebuiltRustLibraryRule {
                krate: if p.krate@.len() == 0 {
                    name
                } else {
                    p.krate
                },
                ..p
            },
        ),
        BuildRuleType::Other(kind) => BuildRuleType::Other(kind),
    }
}

/// A rule after normalization: only the variant's module name may change.
pub open spec fn spec_normalized_rule(r: BuildRule) -> BuildRule {
    BuildRule { typ: spec_normalized(r.typ, r.common.name), ..r }
}

impl BuildRuleType {
    /// Fills in an empty module name from the rule's own `name`.
    pub fn normalize(&mut self, name: &String)
        ensures
            *final(self) == spec_normalized(*old(self), *name),
    {
        match self {
            BuildRuleType::RustBinary(b) => {
                if b.krate.as_str().is_empty() {
                    b.krate = name.clone();
                }
            },
            BuildRuleType::RustLibrary(l) => {
                if l.krate.as_str().is_empty() {
                    l.krate = name.clone();
                }
            },
            BuildRuleType::RustTest(r) => {
                if r.krate.as_str().is_empty() {
                    r.krate = name.clone();
                }
            },
            BuildRuleType::PrebuiltRustLibrary(p) => {
                if p.krate.as_str().is_empty() {
                    p.krate = name.clone();
                }
            },
            BuildRuleType::Other(..) => {
            },
        }
    }
}

impl BuildRule {
    /// Normalizes this rule in place: the one mutation performed after
    /// construction.
    pub fn normalize(&mut self)
        ensures
            *final(self) == spec_normalized_rule(*old(self)),
    {
        let name = self.common.name.clone();
        self.typ.normalize(&name);
    }
}

/// Normalizes every rule of a freshly constructed rule set, so that each
/// rule's effective module name is non-empty whenever its variant carries
/// one.
pub fn normalize_rules(rules: Rules) -> (r: Rules)
    ensures
        r@.len() == rules@.len(),
        forall|i: int|
            0 <= i < rules@.len() ==> #[trigger] r@[i] == (
            rules@[i].0,
            spec_normalized_rule(rules@[i].1),
            ),
        rules_wf(rules@) ==> rules_wf(r@),
{
    let ghost orig = rules@;
    let mut rest = rules;
    let mut out: Rules = Vec::new();
    while rest.len() > 0
        invariant
            out@.len() + rest@.len() == orig.len(),
            forall|j: int| 0 <= j < rest@.len() ==> rest@[j] == orig[out@.len() + j],
            forall|i: int|
                0 <= i < out@.len() ==> #[trigger] out@[i] == (
                orig[i].0,
                spec_normalized_rule(orig[i].1),
                ),
        decreases rest@.len(),
    {
        let (target, mut rule) = rest.remove(0);
        rule.normalize();
        out.push((target, rule));
    }
    out
}

} // verus!
