//! Manifest synthesis.
//!
//! Rules are grouped by source directory; each directory group is
//! partitioned into library rules and executable rules (test rules are
//! ignored: test-target translation is out of scope), validated — at most
//! one library per directory, at least one target to name the package — and
//! rendered as one generated manifest: a fixed-order header, an optional
//! library section, and one binary section per executable in input order.

use vstd::prelude::*;
use vstd::string::*;

use crate::buck::{
    spec_crate_root, spec_is_library, spec_is_supported, spec_krate, spec_type_name, BuildRule,
    BuildRuleType, BuildTarget, Rules,
};
use crate::graph::{contains_view, distinct_views, find_target};
use crate::paths::{file_name, file_name_of, str_eq};

verus! {

broadcast use vstd::seq_lib::group_filter_ensures;

/// Why a rule set, or one of its directory groups, does not translate.
/// Every failure is a definitive condition about the shape of the input;
/// each carries the directory, identifier or rule kind an operator needs to
/// fix the source.
#[derive(Debug)]
pub enum TranslateError {
    /// An unrecognized-variant rule is required for translation.
    UnsupportedRuleVariant { target: BuildTarget, kind: String },
    /// More than one library rule shares one directory; the target format
    /// supports at most one library section per manifest.
    UnsupportedGrouping { dir: String, names: Vec<String> },
    /// A rule of the directory group has no determinable entry point.
    UnresolvableCrateRoot { dir: String, name: String },
    /// The directory group has neither library nor executable rules.
    NoDefaultTarget { dir: String },
}

/// How one more rule extends a group's library/executable partition.
proof fn lemma_partition_push(s: Seq<(BuildTarget, BuildRule)>, x: (BuildTarget, BuildRule))
    ensures
        spec_libs(s.push(x)) == (if spec_is_library(x.1.typ) {
            spec_libs(s).push(x)
        } else {
            spec_libs(s)
        }),
        spec_bins(s.push(x)) == (if x.1.typ is RustBinary {
            spec_bins(s).push(x)
        } else {
            spec_bins(s)
        }),
{
    reveal(Seq::filter);
    assert(s.push(x).drop_last() =~= s);
    assert(s.push(x).last() == x);
}

/// The library rules of a directory group, in input order.
pub open spec fn spec_libs(g: Seq<(BuildTarget, BuildRule)>) -> Seq<(BuildTarget, BuildRule)> {
    g.filter(|p: (BuildTarget, BuildRule)| spec_is_library(p.1.typ))
}

/// The executable rules of a directory group, in input order.
pub open spec fn spec_bins(g: Seq<(BuildTarget, BuildRule)>) -> Seq<(BuildTarget, BuildRule)> {
    g.filter(|p: (BuildTarget, BuildRule)| p.1.typ is RustBinary)
}

/// The module name a rule carries, as text; empty for the variant that
/// carries none.
pub open spec fn krate_view(t: BuildRuleType) -> Seq<char> {
    match spec_krate(t) {
        Some(k) => k,
        None => Seq::empty(),
    }
}

/// The resolved entry point of a rule, as text; empty when unresolvable.
pub open spec fn root_view(t: BuildRuleType) -> Seq<char> {
    match spec_crate_root(t) {
        Some(p) => p,
        None => Seq::empty(),
    }
}

/// The in-order search for the executable that resolves to the conventional
/// main entry point: `Ok(Some(..))` is the first such executable, `Err(..)`
/// the first executable found unresolvable before one matched, `Ok(None)`
/// when the list is exhausted.
pub open spec fn find_default_bin(b: Seq<(BuildTarget, BuildRule)>) -> Result<
    Option<(BuildTarget, BuildRule)>,
    (BuildTarget, BuildRule),
>
    decreases b.len(),
{
    if b.len() == 0 {
        Ok(None)
    } else {
        match spec_crate_root(b[0].1.typ) {
            None => Err(b[0]),
            Some(root) => if file_name_of(root) == "main.rs"@ {
                Ok(Some(b[0]))
            } else {
                find_default_bin(b.drop_first())
            },
        }
    }
}

/// The first rule of the list without a determinable entry point.
pub open spec fn first_unresolvable(b: Seq<(BuildTarget, BuildRule)>) -> Option<
    (BuildTarget, BuildRule),
>
    decreases b.len(),
{
    if b.len() == 0 {
        None
    } else if spec_crate_root(b[0].1.typ) is None {
        Some(b[0])
    } else {
        first_unresolvable(b.drop_first())
    }
}

/// The rule whose module name names the generated package: the sole library
/// when one is present, else the executable resolving to the conventional
/// main file, else the first executable. Meaningful for groups that
/// translate.
pub open spec fn spec_default_pair(g: Seq<(BuildTarget, BuildRule)>) -> (BuildTarget, BuildRule) {
    let l = spec_libs(g);
    let b = spec_bins(g);
    if l.len() >= 1 {
        l[0]
    } else {
        match find_default_bin(b) {
            Ok(opt) => match opt {
                Some(p) => p,
                None => b[0],
            },
            Err(_) => b[0],
        }
    }
}

/// Whether a directory group translates: at most one library, at least one
/// target, and an entry point determinable wherever one is needed.
pub open spec fn spec_group_ok(g: Seq<(BuildTarget, BuildRule)>) -> bool {
    let l = spec_libs(g);
    let b = spec_bins(g);
    &&& l.len() <= 1
    &&& l.len() + b.len() >= 1
    &&& (l.len() == 1 || !(find_default_bin(b) is Err))
    &&& forall|i: int| 0 <= i < l.len() ==> spec_crate_root(#[trigger] l[i].1.typ) is Some
    &&& forall|i: int| 0 <= i < b.len() ==> spec_crate_root(#[trigger] b[i].1.typ) is Some
}

/// The rule a failed group's entry-point error names: the library when it is
/// the unresolvable one, else the first unresolvable executable.
pub open spec fn spec_offender(g: Seq<(BuildTarget, BuildRule)>) -> (BuildTarget, BuildRule) {
    let l = spec_libs(g);
    let b = spec_bins(g);
    if l.len() == 1 && spec_crate_root(l[0].1.typ) is None {
        l[0]
    } else {
        match first_unresolvable(b) {
            Some(p) => p,
            None => b[0],
        }
    }
}

/// The error a group that does not translate reports: grouping conflicts
/// first, then the empty group, then the first entry-point failure.
pub open spec fn spec_error_matches(
    e: TranslateError,
    dirv: Seq<char>,
    g: Seq<(BuildTarget, BuildRule)>,
) -> bool {
    let l = spec_libs(g);
    let b = spec_bins(g);
    if l.len() > 1 {
        &&& e matches TranslateError::UnsupportedGrouping { dir, names }
        &&& e matches TranslateError::UnsupportedGrouping { dir, names } ==> dir@ == dirv
            && names.deep_view() == l.map_values(|p: (BuildTarget, BuildRule)| p.1.common.name@)
    } else if l.len() == 0 && b.len() == 0 {
        &&& e matches TranslateError::NoDefaultTarget { dir }
        &&& e matches TranslateError::NoDefaultTarget { dir } ==> dir@ == dirv
    } else {
        &&& e matches TranslateError::UnresolvableCrateRoot { dir, name }
        &&& e matches TranslateError::UnresolvableCrateRoot { dir, name } ==> dir@ == dirv
            && name@ == spec_offender(g).1.common.name@
    }
}

/// The generated manifest's `[package]` header.
pub open spec fn header_text(pkg: Seq<char>) -> Seq<char> {
    "[package]\nname = \""@ + pkg
        + "\"\nversion = \"0.1.0\"\nauthors = [\"Example <author@example.com>\"]\n"@
}

/// One `[lib]` section.
pub open spec fn lib_text(p: (BuildTarget, BuildRule)) -> Seq<char> {
    "\n[lib]\nname = \""@ + krate_view(p.1.typ) + "\"\npath = \""@ + root_view(p.1.typ) + "\"\n"@
}

/// One `[[bin]]` section.
pub open spec fn bin_text(p: (BuildTarget, BuildRule)) -> Seq<char> {
    "\n[[bin]]\nname = \""@ + krate_view(p.1.typ) + "\"\npath = \""@ + root_view(p.1.typ) + "\"\n"@
}

/// The `[[bin]]` sections of a group's executables, in input order.
pub open spec fn bins_text(b: Seq<(BuildTarget, BuildRule)>) -> Seq<char>
    decreases b.len(),
{
    if b.len() == 0 {
        Seq::empty()
    } else {
        bins_text(b.drop_last()) + bin_text(b.last())
    }
}

/// The whole generated manifest of a group that translates.
pub open spec fn spec_buildfile_text(g: Seq<(BuildTarget, BuildRule)>) -> Seq<char> {
    header_text(krate_view(spec_default_pair(g).1.typ)) + (if spec_libs(g).len() == 1 {
        lib_text(spec_libs(g)[0])
    } else {
        Seq::empty()
    }) + bins_text(spec_bins(g))
}

/// Position `k` holds the rule set's first rule of an unrecognized kind.
pub open spec fn spec_first_unsupported(rules: Seq<(BuildTarget, BuildRule)>, k: int) -> bool {
    &&& 0 <= k < rules.len()
    &&& !spec_is_supported(rules[k].1.typ)
    &&& forall|m: int| 0 <= m < k ==> spec_is_supported(#[trigger] rules[m].1.typ)
}

/// Checks that every rule of the set is of a recognized kind; the first
/// unrecognized one, in input order, is reported with its identifier and raw
/// kind.
pub fn check_supported(rules: &Rules) -> (r: Result<(), TranslateError>)
    ensures
        match r {
            Ok(_) => forall|k: int|
                0 <= k < rules@.len() ==> spec_is_supported(#[trigger] rules@[k].1.typ),
            Err(e) => {
                &&& e matches TranslateError::UnsupportedRuleVariant { target, kind }
                &&& e matches TranslateError::UnsupportedRuleVariant { target, kind } ==> exists|
                    k: int,
                |
                    #[trigger] spec_first_unsupported(rules@, k) && target@ == rules@[k].0@
                        && kind@ == spec_type_name(rules@[k].1.typ)
            },
        },
{
    let mut k: usize = 0;
    while k < rules.len()
        invariant
            k <= rules@.len(),
            forall|m: int| 0 <= m < k ==> spec_is_supported(#[trigger] rules@[m].1.typ),
        decreases rules@.len() - k,
    {
        let pair = &rules[k];
        if !pair.1.typ.is_supported() {
            proof {
                assert(spec_first_unsupported(rules@, k as int));
            }
            return Err(
                TranslateError::UnsupportedRuleVariant {
                    target: pair.0.clone(),
                    kind: String::from_str(pair.1.typ.name()),
                },
            );
        }
        k = k + 1;
    }
    Ok(())
}

/// A directory group holding two or more library rules never translates,
/// whatever executables stand beside them, and the only error such a group
/// can report is the grouping conflict.
pub proof fn lemma_multiple_libraries_rejected(
    g: Seq<(BuildTarget, BuildRule)>,
    e: TranslateError,
    dirv: Seq<char>,
)
    requires
        spec_libs(g).len() > 1,
    ensures
        !spec_group_ok(g),
        spec_error_matches(e, dirv, g) ==> (e matches TranslateError::UnsupportedGrouping { .. }),
{
}

/// In a directory group holding exactly one library rule, the library names
/// the generated package, the manifest holds the library's section, and one
/// section per executable follows in input order — whatever executables are
/// present.
pub proof fn lemma_library_names_package(g: Seq<(BuildTarget, BuildRule)>)
    requires
        spec_libs(g).len() == 1,
    ensures
        spec_default_pair(g) == spec_libs(g)[0],
        spec_buildfile_text(g) == header_text(krate_view(spec_libs(g)[0].1.typ)) + lib_text(
            spec_libs(g)[0],
        ) + bins_text(spec_bins(g)),
{
}

/// In a directory group without library rules, the first executable that
/// resolves to the conventional main entry point names the generated
/// package, even when it is not first in input order — provided the
/// executables before it resolve elsewhere.
pub proof fn lemma_main_executable_names_package(g: Seq<(BuildTarget, BuildRule)>, k: int)
    requires
        spec_libs(g).len() == 0,
        0 <= k < spec_bins(g).len(),
        spec_crate_root(spec_bins(g)[k].1.typ) matches Some(r) && file_name_of(r) == "main.rs"@,
        forall|j: int|
            0 <= j < k ==> (spec_crate_root(#[trigger] spec_bins(g)[j].1.typ) matches Some(rj)
                && file_name_of(rj) != "main.rs"@),
    ensures
        spec_default_pair(g) == spec_bins(g)[k],
{
    lemma_find_default_at(spec_bins(g), k);
}

/// The in-order search lands on position `k` when everything before it
/// resolves away from the conventional main entry point.
proof fn lemma_find_default_at(b: Seq<(BuildTarget, BuildRule)>, k: int)
    requires
        0 <= k < b.len(),
        spec_crate_root(b[k].1.typ) matches Some(r) && file_name_of(r) == "main.rs"@,
        forall|j: int|
            0 <= j < k ==> (spec_crate_root(#[trigger] b[j].1.typ) matches Some(rj)
                && file_name_of(rj) != "main.rs"@),
    ensures
        find_default_bin(b) == Ok::<Option<(BuildTarget, BuildRule)>, (BuildTarget, BuildRule)>(
            Some(b[k]),
        ),
    decreases k,
{
    if k == 0 {
    } else {
        assert(b.drop_first()[k - 1] == b[k]);
        assert forall|j: int|
            0 <= j < k - 1 implies (spec_crate_root(#[trigger] b.drop_first()[j].1.typ)
            matches Some(rj) && file_name_of(rj) != "main.rs"@) by {
            assert(b.drop_first()[j] == b[j + 1]);
        }
        lemma_find_default_at(b.drop_first(), k - 1);
    }
}

/// The partition's bookkeeping: the two index vectors list, in order, the
/// positions of the group's library rules and of its executable rules.
spec fn maps_ok(
    g: Seq<(BuildTarget, BuildRule)>,
    libs_i: Seq<usize>,
    bins_i: Seq<usize>,
) -> bool {
    &&& libs_i.len() == spec_libs(g).len()
    &&& forall|k: int|
        0 <= k < libs_i.len() ==> #[trigger] libs_i[k] < g.len() && g[libs_i[k] as int]
            == spec_libs(g)[k]
    &&& bins_i.len() == spec_bins(g).len()
    &&& forall|k: int|
        0 <= k < bins_i.len() ==> #[trigger] bins_i[k] < g.len() && g[bins_i[k] as int]
            == spec_bins(g)[k]
}

/// Translates one directory group into its generated manifest text, or
/// reports why the group cannot be represented. `dir` only names the
/// directory in errors.
pub fn translate_buildfile(dir: &str, rules: &Rules) -> (r: Result<String, TranslateError>)
    ensures
        match r {
            Ok(text) => spec_group_ok(rules@) && text@ == spec_buildfile_text(rules@),
            Err(e) => !spec_group_ok(rules@) && spec_error_matches(e, dir@, rules@),
        },
{
    let ghost g = rules@;
    let mut libs_i: Vec<usize> = Vec::new();
    let mut bins_i: Vec<usize> = Vec::new();
    let mut i: usize = 0;
    while i < rules.len()
        invariant
            g == rules@,
            i <= g.len(),
            maps_ok(g.subrange(0, i as int), libs_i@, bins_i@),
            forall|k: int| 0 <= k < libs_i@.len() ==> #[trigger] libs_i@[k] < i,
            forall|k: int| 0 <= k < bins_i@.len() ==> #[trigger] bins_i@[k] < i,
        decreases g.len() - i,
    {
        proof {
            assert(g.subrange(0, i as int).push(g[i as int]) =~= g.subrange(0, i + 1));
            lemma_partition_push(g.subrange(0, i as int), g[i as int]);
        }
        let pair = &rules[i];
        if pair.1.typ.is_library() {
            libs_i.push(i);
        } else if matches!(pair.1.typ, BuildRuleType::RustBinary(..)) {
            bins_i.push(i);
        }
        i = i + 1;
    }
    proof {
        assert(g.subrange(0, g.len() as int) =~= g);
    }
    let ghost l = spec_libs(g);
    let ghost b = spec_bins(g);
    // Reject a directory holding more than one library rule: the target
    // format has room for one library section only.
    if libs_i.len() > 1 {
        let mut names: Vec<String> = Vec::new();
        let mut k: usize = 0;
        while k < libs_i.len()
            invariant
                g == rules@,
                l == spec_libs(g),
                maps_ok(g, libs_i@, bins_i@),
                k <= libs_i@.len(),
                names@.len() == k,
                forall|m: int| 0 <= m < k ==> #[trigger] names@[m]@ == l[m].1.common.name@,
            decreases libs_i@.len() - k,
        {
            let li = libs_i[k];
            names.push((&rules[li].1.common.name).clone());
            k = k + 1;
        }
        proof {
            assert(names.deep_view() =~= l.map_values(
                |p: (BuildTarget, BuildRule)| p.1.common.name@,
            ));
        }
        return Err(
            TranslateError::UnsupportedGrouping { dir: String::from_str(dir), names },
        );
    }
    // Select the default rule: the sole library, else the executable whose
    // entry point is the conventional main file, else the first executable.
    let default_i: usize;
    let ghost mut main_pos: int = 0;
    if libs_i.len() == 1 {
        default_i = libs_i[0];
    } else {
        let mut k: usize = 0;
        let mut found_main = false;
        let mut main_i: usize = 0;
        proof {
            assert(b.skip(0) =~= b);
        }
        while k < bins_i.len() && !found_main
            invariant
                g == rules@,
                l == spec_libs(g),
                b == spec_bins(g),
                maps_ok(g, libs_i@, bins_i@),
                l.len() == 0,
                k <= bins_i@.len(),
                !found_main ==> find_default_bin(b) == find_default_bin(b.skip(k as int)),
                !found_main ==> first_unresolvable(b) == first_unresolvable(b.skip(k as int)),
                !found_main ==> forall|m: int|
                    0 <= m < k ==> spec_crate_root(#[trigger] b[m].1.typ) is Some,
                found_main ==> 0 <= main_pos < b.len() && main_i < g.len() && b[main_pos]
                    == g[main_i as int] && find_default_bin(b) == Ok::<
                    Option<(BuildTarget, BuildRule)>,
                    (BuildTarget, BuildRule),
                >(Some(g[main_i as int])),
            decreases bins_i@.len() - k + (if found_main {
                0int
            } else {
                1int
            }),
        {
            let bi = bins_i[k];
            proof {
                assert(b.skip(k as int).len() > 0);
                assert(b.skip(k as int)[0] == b[k as int]);
            }
            match (&rules[bi].1.typ).crate_root() {
                None => {
                    return Err(
                        TranslateError::UnresolvableCrateRoot {
                            dir: String::from_str(dir),
                            name: (&rules[bi].1.common.name).clone(),
                        },
                    );
                },
                Some(root) => {
                    let fnm = file_name(root.as_str());
                    if str_eq(fnm, "main.rs") {
                        found_main = true;
                        main_i = bi;
                        proof {
                            main_pos = k as int;
                        }
                    } else {
                        proof {
                            assert(b.skip(k as int).drop_first() =~= b.skip(k + 1));
                        }
                        k = k + 1;
                    }
                },
            }
        }
        if found_main {
            default_i = main_i;
        } else {
            proof {
                assert(b.skip(b.len() as int) =~= Seq::<(BuildTarget, BuildRule)>::empty());
            }
            if bins_i.len() > 0 {
                default_i = bins_i[0];
                proof {
                    main_pos = 0;
                }
            } else {
                return Err(TranslateError::NoDefaultTarget { dir: String::from_str(dir) });
            }
        }
    }
    proof {
        assert(g[default_i as int] == spec_default_pair(g));
        if l.len() >= 1 {
            assert(spec_is_library(spec_libs(g)[0].1.typ));
        } else {
            assert(spec_default_pair(g) == b[main_pos]);
            assert(b[main_pos] == spec_bins(g)[main_pos]);
            assert(spec_bins(g)[main_pos].1.typ is RustBinary);
        }
    }
    let dk = match (&rules[default_i].1.typ).krate() {
        Some(kk) => kk,
        None => {
            proof {
                assert(false);
            }
            vstd::pervasive::unreached()
        },
    };
    let mut toml = String::new();
    toml.append("[package]\nname = \"");
    toml.append(dk.as_str());
    toml.append("\"\nversion = \"0.1.0\"\nauthors = [\"Example <author@example.com>\"]\n");
    proof {
        assert(toml@ =~= header_text(krate_view(spec_default_pair(g).1.typ)));
    }
    let ghost lib_part = if l.len() == 1 {
        lib_text(l[0])
    } else {
        Seq::<char>::empty()
    };
    if libs_i.len() == 1 {
        let li = libs_i[0];
        proof {
            assert(spec_is_library(spec_libs(g)[0].1.typ));
        }
        let lroot = match (&rules[li].1.typ).crate_root() {
            Some(rt) => rt,
            None => {
                return Err(
                    TranslateError::UnresolvableCrateRoot {
                        dir: String::from_str(dir),
                        name: (&rules[li].1.common.name).clone(),
                    },
                );
            },
        };
        let lk = match (&rules[li].1.typ).krate() {
            Some(kk) => kk,
            None => {
                proof {
                    assert(false);
                }
                vstd::pervasive::unreached()
            },
        };
        toml.append("\n[lib]\nname = \"");
        toml.append(lk.as_str());
        toml.append("\"\npath = \"");
        toml.append(lroot.as_str());
        toml.append("\"\n");
        proof {
            assert(toml@ =~= header_text(krate_view(spec_default_pair(g).1.typ)) + lib_part);
        }
    } else {
        proof {
            assert(toml@ =~= header_text(krate_view(spec_default_pair(g).1.typ)) + lib_part);
        }
    }
    let mut k2: usize = 0;
    proof {
        assert(b.skip(0) =~= b);
        assert(b.subrange(0, 0) =~= Seq::<(BuildTarget, BuildRule)>::empty());
    }
    while k2 < bins_i.len()
        invariant
            g == rules@,
            l == spec_libs(g),
            b == spec_bins(g),
            maps_ok(g, libs_i@, bins_i@),
            l.len() <= 1,
            l.len() + b.len() >= 1,
            l.len() == 1 || !(find_default_bin(b) is Err),
            forall|m: int| 0 <= m < l.len() ==> spec_crate_root(#[trigger] l[m].1.typ) is Some,
            lib_part == (if l.len() == 1 {
                lib_text(l[0])
            } else {
                Seq::<char>::empty()
            }),
            k2 <= bins_i@.len(),
            forall|m: int| 0 <= m < k2 ==> spec_crate_root(#[trigger] b[m].1.typ) is Some,
            first_unresolvable(b) == first_unresolvable(b.skip(k2 as int)),
            toml@ == header_text(krate_view(spec_default_pair(g).1.typ)) + lib_part + bins_text(
                b.subrange(0, k2 as int),
            ),
        decreases bins_i@.len() - k2,
    {
        let bi = bins_i[k2];
        proof {
            assert(b.skip(k2 as int).len() > 0);
            assert(b.skip(k2 as int)[0] == b[k2 as int]);
        }
        let broot = match (&rules[bi].1.typ).crate_root() {
            Some(rt) => rt,
            None => {
                return Err(
                    TranslateError::UnresolvableCrateRoot {
                        dir: String::from_str(dir),
                        name: (&rules[bi].1.common.name).clone(),
                    },
                );
            },
        };
        proof {
            assert(spec_bins(g)[k2 as int].1.typ is RustBinary);
        }
        let bk = match (&rules[bi].1.typ).krate() {
            Some(kk) => kk,
            None => {
                proof {
                    assert(false);
                }
                vstd::pervasive::unreached()
            },
        };
        toml.append("\n[[bin]]\nname = \"");
        toml.append(bk.as_str());
        toml.append("\"\npath = \"");
        toml.append(broot.as_str());
        toml.append("\"\n");
        proof {
            assert(b.subrange(0, k2 + 1).drop_last() =~= b.subrange(0, k2 as int));
            assert(b.subrange(0, k2 + 1).last() == b[k2 as int]);
            assert(toml@ =~= header_text(krate_view(spec_default_pair(g).1.typ)) + lib_part
                + bins_text(b.subrange(0, k2 + 1)));
            assert(b.skip(k2 as int).drop_first() =~= b.skip(k2 + 1));
        }
        k2 = k2 + 1;
    }
    proof {
        assert(b.subrange(0, b.len() as int) =~= b);
        assert(spec_group_ok(g));
        assert(toml@ == spec_buildfile_text(g));
    }
    Ok(toml)
}

/// The rules of one directory, in input order.
pub open spec fn dir_group(rules: Seq<(BuildTarget, BuildRule)>, d: Seq<char>) -> Seq<
    (BuildTarget, BuildRule),
> {
    rules.filter(|p: (BuildTarget, BuildRule)| p.1.base_path@ == d)
}

/// How one more rule extends one directory's group.
proof fn lemma_dir_group_push(
    s: Seq<(BuildTarget, BuildRule)>,
    x: (BuildTarget, BuildRule),
    d: Seq<char>,
)
    ensures
        dir_group(s.push(x), d) == (if x.1.base_path@ == d {
            dir_group(s, d).push(x)
        } else {
            dir_group(s, d)
        }),
{
    reveal(Seq::filter);
    assert(s.push(x).drop_last() =~= s);
    assert(s.push(x).last() == x);
}

/// A directory none of the rules lives under has an empty group.
proof fn lemma_dir_group_absent(s: Seq<(BuildTarget, BuildRule)>, d: Seq<char>)
    requires
        forall|k: int| 0 <= k < s.len() ==> (#[trigger] s[k].1).base_path@ != d,
    ensures
        dir_group(s, d) == Seq::<(BuildTarget, BuildRule)>::empty(),
    decreases s.len(),
{
    reveal(Seq::filter);
    if s.len() > 0 {
        assert(forall|k: int|
            0 <= k < s.drop_last().len() ==> (#[trigger] s.drop_last()[k].1).base_path@ != d);
        lemma_dir_group_absent(s.drop_last(), d);
    }
}

/// Groups the rule set by source directory: one entry per distinct
/// directory, holding that directory's rules in input order.
pub fn group_by_dir(rules: Rules) -> (r: (Vec<String>, Vec<Rules>))
    ensures
        r.0@.len() == r.1@.len(),
        distinct_views(r.0@),
        forall|gi: int| 0 <= gi < r.1@.len() ==> #[trigger] r.1@[gi]@ == dir_group(rules@, r.0@[gi]@),
        forall|k: int|
            0 <= k < rules@.len() ==> contains_view(r.0@, (#[trigger] rules@[k].1).base_path@),
        forall|gi: int| 0 <= gi < r.1@.len() ==> (#[trigger] r.1@[gi])@.len() > 0,
{
    let ghost orig = rules@;
    let mut rest = rules;
    let mut dirs: Vec<String> = Vec::new();
    let mut groups: Vec<Rules> = Vec::new();
    let ghost mut done: int = 0;
    while rest.len() > 0
        invariant
            0 <= done <= orig.len(),
            done + rest@.len() == orig.len(),
            forall|j: int| 0 <= j < rest@.len() ==> rest@[j] == orig[done + j],
            dirs@.len() == groups@.len(),
            distinct_views(dirs@),
            forall|gi: int|
                0 <= gi < groups@.len() ==> #[trigger] groups@[gi]@ == dir_group(
                    orig.subrange(0, done),
                    dirs@[gi]@,
                ),
            forall|k: int|
                0 <= k < done ==> contains_view(dirs@, (#[trigger] orig[k].1).base_path@),
            forall|gi: int| 0 <= gi < groups@.len() ==> (#[trigger] groups@[gi])@.len() > 0,
        decreases rest@.len(),
    {
        let pair = rest.remove(0);
        proof {
            assert(pair == orig[done]);
            assert(orig.subrange(0, done).push(orig[done]) =~= orig.subrange(0, done + 1));
            assert forall|d: Seq<char>| true implies #[trigger] dir_group(orig.subrange(0, done + 1), d)
                == (if orig[done].1.base_path@ == d {
                dir_group(orig.subrange(0, done), d).push(orig[done])
            } else {
                dir_group(orig.subrange(0, done), d)
            }) by {
                lemma_dir_group_push(orig.subrange(0, done), orig[done], d);
            }
        }
        match find_target(&dirs, &pair.1.base_path) {
            Some(gi) => {
                let ghost groups0 = groups@;
                let mut grp = groups.remove(gi);
                grp.push(pair);
                groups.insert(gi, grp);
                proof {
                    assert(groups@ =~= groups0.update(gi as int, grp));
                    assert(dirs@[gi as int]@ == orig[done].1.base_path@);
                    assert(contains_view(dirs@, orig[done].1.base_path@));
                }
            },
            None => {
                proof {
                    assert forall|k: int|
                        0 <= k < orig.subrange(0, done).len() implies (#[trigger] orig.subrange(
                        0,
                        done,
                    )[k].1).base_path@ != pair.1.base_path@ by {
                        assert(contains_view(dirs@, orig[k].1.base_path@));
                    }
                    lemma_dir_group_absent(orig.subrange(0, done), pair.1.base_path@);
                }
                let ghost dirs0 = dirs@;
                dirs.push((&pair.1.base_path).clone());
                let mut grp: Rules = Vec::new();
                grp.push(pair);
                groups.push(grp);
                proof {
                    assert(dirs@[dirs0.len() as int]@ == orig[done].1.base_path@);
                    assert forall|v: Seq<char>|
                        contains_view(dirs0, v) implies contains_view(dirs@, v) by {
                        let i = choose|i: int| 0 <= i < dirs0.len() && dirs0[i]@ == v;
                        assert(dirs@[i]@ == v);
                    }
                    assert(contains_view(dirs@, orig[done].1.base_path@));
                }
            },
        }
        proof {
            done = done + 1;
        }
    }
    proof {
        assert(orig.subrange(0, orig.len() as int) =~= orig);
        assert(done == orig.len());
    }
    (dirs, groups)
}

/// Whether some per-directory outcome is for directory `d`.
pub open spec fn outs_contain_dir(
    outs: Seq<(String, Result<String, TranslateError>)>,
    d: Seq<char>,
) -> bool {
    exists|oi: int| 0 <= oi < outs.len() && (#[trigger] outs[oi].0)@ == d
}

/// What the whole-set translation guarantees: one entry per distinct source
/// directory of the input, each pairing the directory with its own group's
/// outcome — the generated manifest when the group is representable, the
/// group's error otherwise. Directory groups succeed or fail independently
/// of one another.
pub open spec fn spec_outputs_ok(
    rules: Seq<(BuildTarget, BuildRule)>,
    outs: Seq<(String, Result<String, TranslateError>)>,
) -> bool {
    &&& forall|oi: int, oj: int|
        0 <= oi < oj < outs.len() ==> (#[trigger] outs[oi].0)@ != (#[trigger] outs[oj].0)@
    &&& forall|k: int|
        #![trigger rules[k]]
        0 <= k < rules.len() ==> outs_contain_dir(outs, rules[k].1.base_path@)
    &&& forall|oi: int|
        #![trigger outs[oi]]
        0 <= oi < outs.len() ==> {
            &&& dir_group(rules, outs[oi].0@).len() > 0
            &&& match outs[oi].1 {
                Ok(text) => spec_group_ok(dir_group(rules, outs[oi].0@)) && text@
                    == spec_buildfile_text(dir_group(rules, outs[oi].0@)),
                Err(e) => !spec_group_ok(dir_group(rules, outs[oi].0@)) && spec_error_matches(
                    e,
                    outs[oi].0@,
                    dir_group(rules, outs[oi].0@),
                ),
            }
        }
}

/// A run that carried every directory group to its own outcome, group by
/// group in the grouping's order, satisfies the whole-set guarantee.
proof fn lemma_outputs_ok(
    rules: Seq<(BuildTarget, BuildRule)>,
    dirs: Seq<String>,
    outs: Seq<(String, Result<String, TranslateError>)>,
)
    requires
        distinct_views(dirs),
        outs.len() == dirs.len(),
        forall|k: int|
            0 <= k < rules.len() ==> contains_view(dirs, (#[trigger] rules[k].1).base_path@),
        forall|oi: int|
            #![trigger outs[oi]]
            0 <= oi < outs.len() ==> outs[oi].0@ == dirs[oi]@ && dir_group(
                rules,
                dirs[oi]@,
            ).len() > 0 && match outs[oi].1 {
                Ok(text) => spec_group_ok(dir_group(rules, dirs[oi]@)) && text@
                    == spec_buildfile_text(dir_group(rules, dirs[oi]@)),
                Err(e) => !spec_group_ok(dir_group(rules, dirs[oi]@)) && spec_error_matches(
                    e,
                    dirs[oi]@,
                    dir_group(rules, dirs[oi]@),
                ),
            },
    ensures
        spec_outputs_ok(rules, outs),
{
    assert forall|oi: int, oj: int| 0 <= oi < oj < outs.len() implies (#[trigger] outs[oi].0)@ != (
    #[trigger] outs[oj].0)@ by {
        assert(outs[oi].0@ == dirs[oi]@);
        assert(outs[oj].0@ == dirs[oj]@);
    }
    assert forall|k: int|
        #![trigger rules[k]]
        0 <= k < rules.len() implies outs_contain_dir(outs, rules[k].1.base_path@) by {
        let g2 = choose|g2: int| 0 <= g2 < dirs.len() && dirs[g2]@ == rules[k].1.base_path@;
        assert(outs[g2].0@ == rules[k].1.base_path@);
    }
    assert forall|oi: int|
        #![trigger outs[oi]]
        0 <= oi < outs.len() implies dir_group(rules, outs[oi].0@).len() > 0 && (match outs[oi].1 {
        Ok(text) => spec_group_ok(dir_group(rules, outs[oi].0@)) && text@ == spec_buildfile_text(
            dir_group(rules, outs[oi].0@),
        ),
        Err(e) => !spec_group_ok(dir_group(rules, outs[oi].0@)) && spec_error_matches(
            e,
            outs[oi].0@,
            dir_group(rules, outs[oi].0@),
        ),
    }) by {
        assert(outs[oi].0@ == dirs[oi]@);
        assert(dir_group(rules, outs[oi].0@) == dir_group(rules, dirs[oi]@));
    }
}

/// Translates a whole rule set, one directory group at a time and
/// independently of the others: every distinct source directory is paired
/// with its generated manifest, or with the error that makes its own group
/// unrepresentable. One group's failure never blocks another directory's
/// translation.
pub fn translate_rules(rules: Rules) -> (r: Vec<(String, Result<String, TranslateError>)>)
    ensures
        spec_outputs_ok(rules@, r@),
{
    let ghost orig = rules@;
    let (dirs, groups) = group_by_dir(rules);
    let mut outs: Vec<(String, Result<String, TranslateError>)> = Vec::new();
    let mut gi: usize = 0;
    while gi < groups.len()
        invariant
            orig == rules@,
            dirs@.len() == groups@.len(),
            distinct_views(dirs@),
            forall|g2: int|
                0 <= g2 < groups@.len() ==> #[trigger] groups@[g2]@ == dir_group(orig, dirs@[g2]@),
            forall|k: int|
                0 <= k < orig.len() ==> contains_view(dirs@, (#[trigger] orig[k].1).base_path@),
            forall|g2: int| 0 <= g2 < groups@.len() ==> (#[trigger] groups@[g2])@.len() > 0,
            gi <= groups@.len(),
            outs@.len() == gi,
            forall|oi: int|
                #![trigger outs@[oi]]
                0 <= oi < gi ==> outs@[oi].0@ == dirs@[oi]@ && dir_group(
                    orig,
                    dirs@[oi]@,
                ).len() > 0 && match outs@[oi].1 {
                    Ok(text) => spec_group_ok(dir_group(orig, dirs@[oi]@)) && text@
                        == spec_buildfile_text(dir_group(orig, dirs@[oi]@)),
                    Err(e) => !spec_group_ok(dir_group(orig, dirs@[oi]@)) && spec_error_matches(
                        e,
                        dirs@[oi]@,
                        dir_group(orig, dirs@[oi]@),
                    ),
                },
        decreases groups@.len() - gi,
    {
        let outcome = translate_buildfile((&dirs[gi]).as_str(), &groups[gi]);
        outs.push(((&dirs[gi]).clone(), outcome));
        proof {
            assert(groups@[gi as int]@ == dir_group(orig, dirs@[gi as int]@));
            assert(outs@[gi as int].0@ == dirs@[gi as int]@);
        }
        gi = gi + 1;
    }
    proof {
        lemma_outputs_ok(orig, dirs@, outs@);
        assert(spec_outputs_ok(rules@, outs@));
    }
    outs
}

} // verus!
