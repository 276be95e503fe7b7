//! Target resolution: out of a workspace's packages, select exactly one
//! executable target to package. Ambiguity is an error, never a silent
//! pick.

use crate::warning::Warning;
use vstd::prelude::*;
use vstd::string::*;

verus! {

/// One build target of a package, as the metadata query reports it.
pub struct TargetMeta {
    pub name: String,
    pub kinds: Vec<String>,
}

pub ghost struct TargetMetaV {
    pub name: Seq<char>,
    pub kinds: Seq<Seq<char>>,
}

impl DeepView for TargetMeta {
    type V = TargetMetaV;

    open spec fn deep_view(&self) -> TargetMetaV {
        TargetMetaV { name: self.name@, kinds: self.kinds.deep_view() }
    }
}

/// One package of the workspace, as the metadata query reports it.
pub struct PackageMeta {
    pub id: String,
    pub manifest_path: String,
    pub default_run: Option<String>,
    pub features: Vec<String>,
    pub targets: Vec<TargetMeta>,
}

pub ghost struct PackageMetaV {
    pub id: Seq<char>,
    pub manifest_path: Seq<char>,
    pub default_run: Option<Seq<char>>,
    pub features: Seq<Seq<char>>,
    pub targets: Seq<TargetMetaV>,
}

impl DeepView for PackageMeta {
    type V = PackageMetaV;

    open spec fn deep_view(&self) -> PackageMetaV {
        PackageMetaV {
            id: self.id@,
            manifest_path: self.manifest_path@,
            default_run: self.default_run.deep_view(),
            features: self.features.deep_view(),
            targets: self.targets.deep_view(),
        }
    }
}

/// The one buildable unit the pipeline packages. Immutable once resolved.
#[derive(Clone, Debug)]
pub struct PackageInfo {
    pub name: String,
    pub target_directory: String,
    pub manifest_path: String,
    pub has_devcade_feature: bool,
}

/// Resolution fails loudly: zero or several matching executable targets
/// both abort with an instruction to disambiguate.
#[derive(Clone, Copy, Debug, PartialEq, Eq, Structural)]
pub enum ResolveError {
    NoMatchingTarget,
    AmbiguousTarget { count: usize },
}

pub ghost struct MatchV {
    pub target_name: Seq<char>,
    pub manifest_path: Seq<char>,
    pub has_feature: bool,
}

/// A target is packageable when the metadata marks it as an executable.
pub open spec fn spec_is_bin_target(t: TargetMetaV) -> bool {
    t.kinds.contains("bin"@)
}

/// An executable target is selected by exact name when an explicit binary
/// name was supplied, else by the package's configured default-run target,
/// else unconditionally.
pub open spec fn spec_target_selected(
    default_run: Option<Seq<char>>,
    t: TargetMetaV,
    bin: Option<Seq<char>>,
) -> bool {
    spec_is_bin_target(t) && match bin {
        Some(b) => t.name == b,
        None => match default_run {
            Some(d) => d == t.name,
            None => true,
        },
    }
}

pub open spec fn spec_match_of(p: PackageMetaV, t: TargetMetaV) -> MatchV {
    MatchV {
        target_name: t.name,
        manifest_path: p.manifest_path,
        has_feature: p.features.contains("devcade"@),
    }
}

pub open spec fn spec_targets_matches(
    p: PackageMetaV,
    ts: Seq<TargetMetaV>,
    bin: Option<Seq<char>>,
) -> Seq<MatchV>
    decreases ts.len(),
{
    if ts.len() == 0 {
        Seq::empty()
    } else {
        spec_targets_matches(p, ts.drop_last(), bin) + if spec_target_selected(
            p.default_run,
            ts.last(),
            bin,
        ) {
            seq![spec_match_of(p, ts.last())]
        } else {
            Seq::empty()
        }
    }
}

/// What one package contributes to the selection: its matching executable
/// targets if it is a workspace member, nothing otherwise.
pub open spec fn spec_package_contribution(
    p: PackageMetaV,
    members: Seq<Seq<char>>,
    bin: Option<Seq<char>>,
) -> Seq<MatchV> {
    if members.contains(p.id) {
        spec_targets_matches(p, p.targets, bin)
    } else {
        Seq::empty()
    }
}

/// All matches collected across the workspace, in enumeration order.
pub open spec fn spec_workspace_matches(
    pkgs: Seq<PackageMetaV>,
    members: Seq<Seq<char>>,
    bin: Option<Seq<char>>,
) -> Seq<MatchV>
    decreases pkgs.len(),
{
    if pkgs.len() == 0 {
        Seq::empty()
    } else {
        spec_workspace_matches(pkgs.drop_last(), members, bin) + spec_package_contribution(
            pkgs.last(),
            members,
            bin,
        )
    }
}

struct FoundMatch {
    target_name: String,
    manifest_path: String,
    has_feature: bool,
}

impl DeepView for FoundMatch {
    type V = MatchV;

    closed spec fn deep_view(&self) -> MatchV {
        MatchV {
            target_name: self.target_name@,
            manifest_path: self.manifest_path@,
            has_feature: self.has_feature,
        }
    }
}

/// Whether some element of `v` holds exactly the characters of `s`.
fn contains_str(v: &Vec<String>, s: &str) -> (r: bool)
    ensures
        r == v.deep_view().contains(s@),
{
    let key = String::from_str(s);
    let mut i: usize = 0;
    while i < v.len()
        invariant
            i <= v@.len(),
            key@ == s@,
            forall|k: int| 0 <= k < i ==> v.deep_view()[k] != s@,
        decreases v@.len() - i,
    {
        if v[i] == key {
            proof {
                assert(v.deep_view()[i as int] == s@);
            }
            return true;
        }
        i += 1;
    }
    false
}

fn target_selected(default_run: &Option<String>, t: &TargetMeta, bin: &Option<String>) -> (r: bool)
    ensures
        r == spec_target_selected(default_run.deep_view(), t.deep_view(), bin.deep_view()),
{
    let is_bin = contains_str(&t.kinds, "bin");
    if !is_bin {
        return false;
    }
    match bin {
        Some(b) => t.name == *b,
        None => match default_run {
            Some(d) => *d == t.name,
            None => true,
        },
    }
}

/// Resolves exactly one executable target out of the workspace, or fails
/// with an error that demands explicit disambiguation: with zero or with
/// two or more matches nothing is ever picked silently, whatever order the
/// metadata query enumerated the packages in.
pub fn find_package(
    packages: &Vec<PackageMeta>,
    workspace_members: &Vec<String>,
    bin: &Option<String>,
    target_directory: &str,
) -> (r: Result<PackageInfo, ResolveError>)
    ensures
        ({
            let ms = spec_workspace_matches(
                packages.deep_view(),
                workspace_members.deep_view(),
                bin.deep_view(),
            );
            &&& (r is Ok <==> ms.len() == 1)
            &&& (r matches Ok(info) ==> {
                &&& info.name@ == ms[0].target_name
                &&& info.manifest_path@ == ms[0].manifest_path
                &&& info.has_devcade_feature == ms[0].has_feature
                &&& info.target_directory@ == target_directory@
            })
            &&& (r == Err::<PackageInfo, ResolveError>(ResolveError::NoMatchingTarget) <==> ms.len()
                == 0)
            &&& (r matches Err(ResolveError::AmbiguousTarget { count }) ==> count == ms.len()
                && ms.len() >= 2)
        }),
{
    let ghost pkgs_dv = packages.deep_view();
    let ghost members_dv = workspace_members.deep_view();
    let ghost bin_dv = bin.deep_view();
    let mut found: Vec<FoundMatch> = Vec::new();
    let mut i: usize = 0;
    while i < packages.len()
        invariant
            i <= packages@.len(),
            pkgs_dv == packages.deep_view(),
            members_dv == workspace_members.deep_view(),
            bin_dv == bin.deep_view(),
            found.deep_view() == spec_workspace_matches(pkgs_dv.take(i as int), members_dv, bin_dv),
        decreases packages@.len() - i,
    {
        let p = &packages[i];
        let ghost found_before = found.deep_view();
        if contains_str(workspace_members, p.id.as_str()) {
            let has_feature = contains_str(&p.features, "devcade");
            let mut j: usize = 0;
            while j < p.targets.len()
                invariant
                    j <= p.targets@.len(),
                    p == &packages[i as int],
                    i < packages@.len(),
                    pkgs_dv == packages.deep_view(),
                    bin_dv == bin.deep_view(),
                    has_feature == p.deep_view().features.contains("devcade"@),
                    found.deep_view() == found_before + spec_targets_matches(
                        p.deep_view(),
                        p.deep_view().targets.take(j as int),
                        bin_dv,
                    ),
                decreases p.targets@.len() - j,
            {
                let t = &p.targets[j];
                let ghost ts = p.deep_view().targets;
                proof {
                    assert(ts.take(j + 1).drop_last() =~= ts.take(j as int));
                    assert(ts.take(j + 1).last() == ts[j as int]);
                }
                if target_selected(&p.default_run, t, bin) {
                    let m = FoundMatch {
                        target_name: t.name.clone(),
                        manifest_path: p.manifest_path.clone(),
                        has_feature,
                    };
                    let ghost before_push = found.deep_view();
                    found.push(m);
                    proof {
                        assert(found.deep_view() =~= before_push.push(
                            MatchV {
                                target_name: ts[j as int].name,
                                manifest_path: p.deep_view().manifest_path,
                                has_feature,
                            },
                        ));
                        assert(found.deep_view() =~= found_before + spec_targets_matches(
                            p.deep_view(),
                            ts.take(j + 1),
                            bin_dv,
                        ));
                    }
                } else {
                    proof {
                        assert(found.deep_view() =~= found_before + spec_targets_matches(
                            p.deep_view(),
                            ts.take(j + 1),
                            bin_dv,
                        ));
                    }
                }
                j += 1;
            }
            proof {
                assert(p.deep_view().targets.take(p.targets@.len() as int) =~= p.deep_view()
                    .targets);
                assert(pkgs_dv.take(i + 1).drop_last() =~= pkgs_dv.take(i as int));
                assert(pkgs_dv.take(i + 1).last() == pkgs_dv[i as int]);
                assert(members_dv.contains(p.deep_view().id));
            }
        } else {
            proof {
                assert(pkgs_dv.take(i + 1).drop_last() =~= pkgs_dv.take(i as int));
                assert(pkgs_dv.take(i + 1).last() == pkgs_dv[i as int]);
                assert(found.deep_view() =~= found_before + Seq::<MatchV>::empty());
            }
        }
        i += 1;
    }
    proof {
        assert(pkgs_dv.take(packages@.len() as int) =~= pkgs_dv);
    }
    if found.len() == 1 {
        let m = &found[0];
        Ok(
            PackageInfo {
                name: m.target_name.clone(),
                target_directory: target_directory.to_owned(),
                manifest_path: m.manifest_path.clone(),
                has_devcade_feature: m.has_feature,
            },
        )
    } else if found.len() == 0 {
        Err(ResolveError::NoMatchingTarget)
    } else {
        Err(ResolveError::AmbiguousTarget { count: found.len() })
    }
}

proof fn lemma_workspace_matches_remove(
    pkgs: Seq<PackageMetaV>,
    members: Seq<Seq<char>>,
    bin: Option<Seq<char>>,
    i: int,
)
    requires
        0 <= i < pkgs.len(),
    ensures
        spec_workspace_matches(pkgs, members, bin).len() == spec_workspace_matches(
            pkgs.remove(i),
            members,
            bin,
        ).len() + spec_package_contribution(pkgs[i], members, bin).len(),
    decreases pkgs.len(),
{
    if i == pkgs.len() - 1 {
        assert(pkgs.remove(i) =~= pkgs.drop_last());
    } else {
        let r = pkgs.remove(i);
        assert(r.drop_last() =~= pkgs.drop_last().remove(i));
        assert(r.last() == pkgs.last());
        lemma_workspace_matches_remove(pkgs.drop_last(), members, bin, i);
    }
}

/// The number of matching executable targets does not depend on the order
/// in which the metadata query enumerates the workspace's packages: any
/// reordering of the same packages yields the same count, so resolution
/// succeeds, or fails, identically for every enumeration order.
pub proof fn lemma_match_count_order_independent(
    p1: Seq<PackageMetaV>,
    p2: Seq<PackageMetaV>,
    members: Seq<Seq<char>>,
    bin: Option<Seq<char>>,
)
    requires
        p1.to_multiset() == p2.to_multiset(),
    ensures
        spec_workspace_matches(p1, members, bin).len() == spec_workspace_matches(
            p2,
            members,
            bin,
        ).len(),
    decreases p1.len(),
{
    p1.to_multiset_ensures();
    p2.to_multiset_ensures();
    if p1.len() == 0 {
        assert(p2.len() == 0);
    } else {
        let x = p1.last();
        assert(p1.contains(x));
        assert(p2.to_multiset().count(x) > 0);
        assert(p2.contains(x));
        let i = choose|i: int| 0 <= i < p2.len() && p2[i] == x;
        let p2r = p2.remove(i);
        assert(p2r.to_multiset() == p2.to_multiset().remove(x));
        assert(p1.drop_last().push(x) =~= p1);
        assert(p1.drop_last().to_multiset().insert(x) == p1.to_multiset()) by {
            p1.drop_last().to_multiset_ensures();
        }
        assert(p1.drop_last().to_multiset() == p1.to_multiset().remove(x)) by {
            assert(p1.drop_last().to_multiset().insert(x).remove(x) == p1.drop_last()
                .to_multiset());
        }
        lemma_match_count_order_independent(p1.drop_last(), p2r, members, bin);
        lemma_workspace_matches_remove(p2, members, bin, i);
    }
}

/// Warns when the package name holds an underscore, which the target
/// launcher's executable discovery rejects; packaging still proceeds.
pub fn validate_name(name: &str) -> (r: Option<Warning>)
    ensures
        r == if name@.contains('_') {
            Some(Warning::UnderscoreInName)
        } else {
            None::<Warning>
        },
{
    let n: usize = name.unicode_len();
    let mut i: usize = 0;
    while i < n
        invariant
            n == name@.len(),
            i <= n,
            forall|k: int| 0 <= k < i ==> name@[k] != '_',
        decreases n - i,
    {
        if name.get_char(i) == '_' {
            proof {
                assert(name@[i as int] == '_');
            }
            return Some(Warning::UnderscoreInName);
        }
        i += 1;
    }
    proof {
        assert(!name@.contains('_'));
    }
    None
}

} // verus!
