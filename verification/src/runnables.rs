//! Flattening package metadata into runnable records.
//!
//! The external metadata query is performed outside the library; its answer
//! arrives as a [`ProjectMetadata`] value holding plain package and target
//! records. This module selects the packages belonging to a discovered
//! project and turns their binary and example targets into [`Runnable`]s.

use vstd::prelude::*;
use vstd::string::StringExecFns;

use crate::text::clone_string_vec;
use crate::text::path_eq;

verus! {

/// The kind tags a metadata query reports for one target.
#[derive(Clone, Copy, Debug, PartialEq, Eq, Structural)]
pub enum TargetKind {
    /// An executable binary target.
    Bin,
    /// An example target.
    Example,
    /// Any other target kind (library, test, bench, ...).
    Other,
}

/// One target of a package, as reported by the metadata query.
#[derive(Debug, Clone)]
pub struct TargetMeta {
    /// The target's bare name.
    pub name: String,
    /// The target's kind tags.
    pub kinds: Vec<TargetKind>,
    /// The feature flags the target declares as required.
    pub required_features: Vec<String>,
}

/// One package, as reported by the metadata query. Paths are canonical
/// absolute paths, split into components.
#[derive(Debug, Clone)]
pub struct PackageMeta {
    /// The package name.
    pub name: String,
    /// The canonical path of the package's manifest file, as components.
    pub manifest_path: Vec<String>,
    /// The package's targets.
    pub targets: Vec<TargetMeta>,
}

/// The answer of one metadata query for a project root.
#[derive(Debug, Clone)]
pub struct ProjectMetadata {
    /// All packages the query reported.
    pub packages: Vec<PackageMeta>,
    /// Whether the query reported an explicit workspace membership list.
    pub has_workspace_members: bool,
}

/// Whether a runnable is a binary or an example target.
#[derive(Clone, Copy, Debug, PartialEq, Eq, Structural)]
pub enum RunnableType {
    Binary,
    Example,
}

/// A runnable target eligible for a debug-launch entry.
#[derive(Debug, Clone, PartialEq, Eq)]
pub struct Runnable {
    /// The namespaced display name, unique across projects.
    pub name: String,
    /// The owning package's name.
    pub package: String,
    /// The target's bare name.
    pub target: String,
    /// Whether the target is a binary or an example.
    pub runnable_type: RunnableType,
    /// The feature flags required to build the target.
    pub required_features: Vec<String>,
    /// The owning project root's path relative to the scanned root.
    pub project_path: Vec<String>,
}

/// The mathematical model of a [`Runnable`].
pub ghost struct RunnableV {
    pub name: Seq<char>,
    pub package: Seq<char>,
    pub target: Seq<char>,
    pub runnable_type: RunnableType,
    pub required_features: Seq<Seq<char>>,
    pub project_path: Seq<Seq<char>>,
}

impl View for Runnable {
    type V = RunnableV;

    open spec fn view(&self) -> RunnableV {
        RunnableV {
            name: self.name@,
            package: self.package@,
            target: self.target@,
            runnable_type: self.runnable_type,
            required_features: self.required_features.deep_view(),
            project_path: self.project_path.deep_view(),
        }
    }
}

impl DeepView for Runnable {
    type V = RunnableV;

    open spec fn deep_view(&self) -> RunnableV {
        self.view()
    }
}

/// Why a discovered project contributes no runnables.
#[derive(Clone, Copy, Debug, PartialEq, Eq, Structural)]
pub enum ProjectSkip {
    /// A single-package query reported no package whose manifest matches the
    /// project's manifest.
    NoMatchingPackage,
    /// A workspace query reported no package under the project root.
    NoPackages,
}

/// The directory of a manifest file path: the path without its last
/// component (the path itself when it has no parent).
pub open spec fn spec_manifest_dir(path: Seq<Seq<char>>) -> Seq<Seq<char>> {
    if path.len() > 0 {
        path.drop_last()
    } else {
        path
    }
}

/// Component-wise prefix test: whether `path` lies at or under `prefix`.
pub open spec fn spec_path_starts_with(path: Seq<Seq<char>>, prefix: Seq<Seq<char>>) -> bool {
    prefix.len() <= path.len() && path.subrange(0, prefix.len() as int) == prefix
}

/// The first package whose manifest file path equals `manifest`.
pub open spec fn spec_find_package(pkgs: Seq<PackageMeta>, manifest: Seq<Seq<char>>) -> Option<
    PackageMeta,
>
    decreases pkgs.len(),
{
    if pkgs.len() == 0 {
        None
    } else if pkgs[0].manifest_path.deep_view() == manifest {
        Some(pkgs[0])
    } else {
        spec_find_package(pkgs.drop_first(), manifest)
    }
}

/// The packages whose manifest directory lies under the project root
/// `canon`, in reported order.
pub open spec fn spec_member_packages(pkgs: Seq<PackageMeta>, canon: Seq<Seq<char>>) -> Seq<
    PackageMeta,
>
    decreases pkgs.len(),
{
    if pkgs.len() == 0 {
        Seq::empty()
    } else {
        (if spec_path_starts_with(spec_manifest_dir(pkgs[0].manifest_path.deep_view()), canon) {
            seq![pkgs[0]]
        } else {
            Seq::empty()
        }) + spec_member_packages(pkgs.drop_first(), canon)
    }
}

/// The model of the binary runnable for target `t` of package `pkg`.
pub open spec fn spec_binary_runnable(pkg: PackageMeta, t: TargetMeta, rel: Seq<Seq<char>>) -> RunnableV {
    RunnableV {
        name: pkg.name@ + "::"@ + t.name@,
        package: pkg.name@,
        target: t.name@,
        runnable_type: RunnableType::Binary,
        required_features: t.required_features.deep_view(),
        project_path: rel,
    }
}

/// The model of the example runnable for target `t` of package `pkg`.
pub open spec fn spec_example_runnable(pkg: PackageMeta, t: TargetMeta, rel: Seq<Seq<char>>) -> RunnableV {
    RunnableV {
        name: pkg.name@ + "::"@ + t.name@ + " (example)"@,
        package: pkg.name@,
        target: t.name@,
        runnable_type: RunnableType::Example,
        required_features: t.required_features.deep_view(),
        project_path: rel,
    }
}

/// The runnables one target contributes: a binary entry when tagged `Bin`, an
/// example entry when tagged `Example`.
pub open spec fn spec_target_runnables(pkg: PackageMeta, t: TargetMeta, rel: Seq<Seq<char>>) -> Seq<
    RunnableV,
> {
    (if t.kinds@.contains(TargetKind::Bin) {
        seq![spec_binary_runnable(pkg, t, rel)]
    } else {
        Seq::empty()
    }) + (if t.kinds@.contains(TargetKind::Example) {
        seq![spec_example_runnable(pkg, t, rel)]
    } else {
        Seq::empty()
    })
}

pub open spec fn spec_targets_runnables(
    pkg: PackageMeta,
    ts: Seq<TargetMeta>,
    rel: Seq<Seq<char>>,
) -> Seq<RunnableV>
    decreases ts.len(),
{
    if ts.len() == 0 {
        Seq::empty()
    } else {
        spec_target_runnables(pkg, ts[0], rel) + spec_targets_runnables(pkg, ts.drop_first(), rel)
    }
}

/// The runnables of one package: each target's contribution, in order.
pub open spec fn spec_package_runnables(pkg: PackageMeta, rel: Seq<Seq<char>>) -> Seq<RunnableV> {
    spec_targets_runnables(pkg, pkg.targets@, rel)
}

/// The runnables of a sequence of packages, in order.
pub open spec fn spec_packages_runnables(pkgs: Seq<PackageMeta>, rel: Seq<Seq<char>>) -> Seq<
    RunnableV,
>
    decreases pkgs.len(),
{
    if pkgs.len() == 0 {
        Seq::empty()
    } else {
        spec_package_runnables(pkgs[0], rel) + spec_packages_runnables(pkgs.drop_first(), rel)
    }
}

/// The runnables of one discovered project, given the metadata answer for
/// its manifest: a query without a membership list must name a package whose
/// manifest is the project's; a workspace query contributes every member
/// package under the project root.
pub open spec fn spec_project_runnables(
    meta: ProjectMetadata,
    rel: Seq<Seq<char>>,
    canon: Seq<Seq<char>>,
) -> Result<Seq<RunnableV>, ProjectSkip> {
    if !meta.has_workspace_members {
        match spec_find_package(meta.packages@, canon.push("Cargo.toml"@)) {
            Some(pkg) => Ok(spec_package_runnables(pkg, rel)),
            None => Err(ProjectSkip::NoMatchingPackage),
        }
    } else {
        let sel = spec_member_packages(meta.packages@, canon);
        if sel.len() == 0 {
            Err(ProjectSkip::NoPackages)
        } else {
            Ok(spec_packages_runnables(sel, rel))
        }
    }
}

/// The display name of a runnable is its owning package's name, the
/// namespace separator, and the target's name (with the example suffix for
/// examples).
pub open spec fn spec_runnable_namespaced(r: RunnableV) -> bool {
    match r.runnable_type {
        RunnableType::Binary => r.name == r.package + "::"@ + r.target,
        RunnableType::Example => r.name == r.package + "::"@ + r.target + " (example)"@,
    }
}

proof fn lemma_targets_runnables_namespaced(pkg: PackageMeta, ts: Seq<TargetMeta>, rel: Seq<Seq<char>>)
    ensures
        forall|i: int|
            0 <= i < spec_targets_runnables(pkg, ts, rel).len() ==> spec_runnable_namespaced(
                #[trigger] spec_targets_runnables(pkg, ts, rel)[i],
            ),
    decreases ts.len(),
{
    if ts.len() > 0 {
        lemma_targets_runnables_namespaced(pkg, ts.drop_first(), rel);
        assert forall|i: int|
            0 <= i < spec_targets_runnables(pkg, ts, rel).len() implies spec_runnable_namespaced(
            #[trigger] spec_targets_runnables(pkg, ts, rel)[i],
        ) by {
            let head = spec_target_runnables(pkg, ts[0], rel);
            let rest = spec_targets_runnables(pkg, ts.drop_first(), rel);
            if i < head.len() {
                assert(spec_targets_runnables(pkg, ts, rel)[i] == head[i]);
            } else {
                assert(spec_targets_runnables(pkg, ts, rel)[i] == rest[i - head.len()]);
            }
        }
    }
}

proof fn lemma_packages_runnables_namespaced(pkgs: Seq<PackageMeta>, rel: Seq<Seq<char>>)
    ensures
        forall|i: int|
            0 <= i < spec_packages_runnables(pkgs, rel).len() ==> spec_runnable_namespaced(
                #[trigger] spec_packages_runnables(pkgs, rel)[i],
            ),
    decreases pkgs.len(),
{
    if pkgs.len() > 0 {
        lemma_targets_runnables_namespaced(pkgs[0], pkgs[0].targets@, rel);
        lemma_packages_runnables_namespaced(pkgs.drop_first(), rel);
        assert forall|i: int|
            0 <= i < spec_packages_runnables(pkgs, rel).len() implies spec_runnable_namespaced(
            #[trigger] spec_packages_runnables(pkgs, rel)[i],
        ) by {
            let head = spec_package_runnables(pkgs[0], rel);
            let rest = spec_packages_runnables(pkgs.drop_first(), rel);
            if i < head.len() {
                assert(spec_packages_runnables(pkgs, rel)[i] == head[i]);
            } else {
                assert(spec_packages_runnables(pkgs, rel)[i] == rest[i - head.len()]);
            }
        }
    }
}

/// Every runnable the builder produces carries a display name namespaced by
/// its owning package, so entries of different packages can never collide.
pub proof fn lemma_project_runnables_namespaced(
    meta: ProjectMetadata,
    rel: Seq<Seq<char>>,
    canon: Seq<Seq<char>>,
)
    ensures
        match spec_project_runnables(meta, rel, canon) {
            Ok(rs) => forall|i: int|
                0 <= i < rs.len() ==> spec_runnable_namespaced(#[trigger] rs[i]),
            Err(_) => true,
        },
{
    if !meta.has_workspace_members {
        match spec_find_package(meta.packages@, canon.push("Cargo.toml"@)) {
            Some(pkg) => {
                lemma_targets_runnables_namespaced(pkg, pkg.targets@, rel);
            },
            None => {},
        }
    } else {
        lemma_packages_runnables_namespaced(spec_member_packages(meta.packages@, canon), rel);
    }
}

proof fn lemma_member_packages_push(s: Seq<PackageMeta>, x: PackageMeta, canon: Seq<Seq<char>>)
    ensures
        spec_member_packages(s.push(x), canon) == spec_member_packages(s, canon) + (
        if spec_path_starts_with(spec_manifest_dir(x.manifest_path.deep_view()), canon) {
            seq![x]
        } else {
            Seq::<PackageMeta>::empty()
        }),
    decreases s.len(),
{
    let contribution = if spec_path_starts_with(
        spec_manifest_dir(x.manifest_path.deep_view()),
        canon,
    ) {
        seq![x]
    } else {
        Seq::<PackageMeta>::empty()
    };
    if s.len() == 0 {
        assert(s.push(x)[0] == x);
        assert(s.push(x).drop_first() =~= Seq::<PackageMeta>::empty());
        assert(spec_member_packages(Seq::<PackageMeta>::empty(), canon)
            =~= Seq::<PackageMeta>::empty());
        assert(spec_member_packages(s.push(x), canon) =~= spec_member_packages(s, canon)
            + contribution);
    } else {
        assert(s.push(x).drop_first() =~= s.drop_first().push(x));
        lemma_member_packages_push(s.drop_first(), x, canon);
        assert(spec_member_packages(s.push(x), canon) =~= spec_member_packages(s, canon)
            + contribution);
    }
}

proof fn lemma_packages_runnables_push(s: Seq<PackageMeta>, x: PackageMeta, rel: Seq<Seq<char>>)
    ensures
        spec_packages_runnables(s.push(x), rel) == spec_packages_runnables(s, rel)
            + spec_package_runnables(x, rel),
    decreases s.len(),
{
    if s.len() == 0 {
        assert(s.push(x)[0] == x);
        assert(s.push(x).drop_first() =~= Seq::<PackageMeta>::empty());
        assert(spec_packages_runnables(Seq::<PackageMeta>::empty(), rel)
            =~= Seq::<RunnableV>::empty());
        assert(spec_packages_runnables(s.push(x), rel) =~= spec_packages_runnables(s, rel)
            + spec_package_runnables(x, rel));
    } else {
        assert(s.push(x).drop_first() =~= s.drop_first().push(x));
        lemma_packages_runnables_push(s.drop_first(), x, rel);
        assert(spec_packages_runnables(s.push(x), rel) =~= spec_packages_runnables(s, rel)
            + spec_package_runnables(x, rel));
    }
}

proof fn lemma_targets_runnables_push(
    pkg: PackageMeta,
    ts: Seq<TargetMeta>,
    x: TargetMeta,
    rel: Seq<Seq<char>>,
)
    ensures
        spec_targets_runnables(pkg, ts.push(x), rel) == spec_targets_runnables(pkg, ts, rel)
            + spec_target_runnables(pkg, x, rel),
    decreases ts.len(),
{
    if ts.len() == 0 {
        assert(ts.push(x)[0] == x);
        assert(ts.push(x).drop_first() =~= Seq::<TargetMeta>::empty());
        assert(spec_targets_runnables(pkg, Seq::<TargetMeta>::empty(), rel)
            =~= Seq::<RunnableV>::empty());
        assert(spec_targets_runnables(pkg, ts.push(x), rel) =~= spec_targets_runnables(
            pkg,
            ts,
            rel,
        ) + spec_target_runnables(pkg, x, rel));
    } else {
        assert(ts.push(x).drop_first() =~= ts.drop_first().push(x));
        lemma_targets_runnables_push(pkg, ts.drop_first(), x, rel);
        assert(spec_targets_runnables(pkg, ts.push(x), rel) =~= spec_targets_runnables(
            pkg,
            ts,
            rel,
        ) + spec_target_runnables(pkg, x, rel));
    }
}

/// Decides whether `kinds` lists the tag `k`.
fn kinds_contain(kinds: &Vec<TargetKind>, k: TargetKind) -> (r: bool)
    ensures
        r == kinds@.contains(k),
{
    let mut i: usize = 0;
    while i < kinds.len()
        invariant
            i <= kinds.len(),
            forall|j: int| 0 <= j < i ==> kinds@[j] != k,
        decreases kinds.len() - i,
    {
        if kinds[i] == k {
            return true;
        }
        i = i + 1;
    }
    false
}

/// Decides whether the directory of the manifest at `path` lies at or under
/// `prefix`.
fn manifest_dir_starts_with(path: &Vec<String>, prefix: &Vec<String>) -> (r: bool)
    ensures
        r == spec_path_starts_with(spec_manifest_dir(path.deep_view()), prefix.deep_view()),
{
    let ghost dir = spec_manifest_dir(path.deep_view());
    let effective_len = if path.len() > 0 {
        path.len() - 1
    } else {
        path.len()
    };
    proof {
        assert(dir.len() == effective_len);
        assert(forall|j: int| 0 <= j < dir.len() ==> dir[j] == path.deep_view()[j]);
    }
    if prefix.len() > effective_len {
        return false;
    }
    let mut i: usize = 0;
    while i < prefix.len()
        invariant
            i <= prefix.len(),
            prefix.len() <= effective_len,
            effective_len <= path.len(),
            dir == spec_manifest_dir(path.deep_view()),
            dir.len() == effective_len,
            forall|j: int| 0 <= j < dir.len() ==> dir[j] == path.deep_view()[j],
            forall|j: int| 0 <= j < i ==> dir[j] == prefix.deep_view()[j],
        decreases prefix.len() - i,
    {
        proof {
            assert(path.deep_view()[i as int] == path[i as int].deep_view());
            assert(prefix.deep_view()[i as int] == prefix[i as int].deep_view());
        }
        if !(path[i] == prefix[i]) {
            return false;
        }
        i = i + 1;
    }
    proof {
        assert(dir.subrange(0, prefix.len() as int) =~= prefix.deep_view());
    }
    true
}

fn binary_runnable(pkg: &PackageMeta, t: &TargetMeta, rel: &Vec<String>) -> (r: Runnable)
    ensures
        r@ == spec_binary_runnable(*pkg, *t, rel.deep_view()),
{
    Runnable {
        name: pkg.name.clone().concat("::").concat(t.name.as_str()),
        package: pkg.name.clone(),
        target: t.name.clone(),
        runnable_type: RunnableType::Binary,
        required_features: clone_string_vec(&t.required_features),
        project_path: clone_string_vec(rel),
    }
}

fn example_runnable(pkg: &PackageMeta, t: &TargetMeta, rel: &Vec<String>) -> (r: Runnable)
    ensures
        r@ == spec_example_runnable(*pkg, *t, rel.deep_view()),
{
    Runnable {
        name: pkg.name.clone().concat("::").concat(t.name.as_str()).concat(" (example)"),
        package: pkg.name.clone(),
        target: t.name.clone(),
        runnable_type: RunnableType::Example,
        required_features: clone_string_vec(&t.required_features),
        project_path: clone_string_vec(rel),
    }
}

/// Appends the runnables of `pkg` to `out`.
fn package_runnables_into(pkg: &PackageMeta, rel: &Vec<String>, out: &mut Vec<Runnable>)
    ensures
        final(out).deep_view() == old(out).deep_view() + spec_package_runnables(
            *pkg,
            rel.deep_view(),
        ),
{
    let ghost targets = pkg.targets@;
    let mut i: usize = 0;
    proof {
        assert(targets.take(0) =~= Seq::<TargetMeta>::empty());
        assert(out.deep_view() =~= old(out).deep_view() + spec_targets_runnables(
            *pkg,
            targets.take(0),
            rel.deep_view(),
        ));
    }
    while i < pkg.targets.len()
        invariant
            i <= pkg.targets.len(),
            targets == pkg.targets@,
            out.deep_view() == old(out).deep_view() + spec_targets_runnables(
                *pkg,
                targets.take(i as int),
                rel.deep_view(),
            ),
        decreases pkg.targets.len() - i,
    {
        let t = &pkg.targets[i];
        let ghost dv0 = out.deep_view();
        let ghost tgt = targets[i as int];
        if kinds_contain(&t.kinds, TargetKind::Bin) {
            let ghost before_push = out.deep_view();
            let r = binary_runnable(pkg, t, rel);
            out.push(r);
            proof {
                assert(out.deep_view() =~= before_push.push(
                    spec_binary_runnable(*pkg, tgt, rel.deep_view()),
                ));
            }
        }
        if kinds_contain(&t.kinds, TargetKind::Example) {
            let ghost before_push = out.deep_view();
            let r = example_runnable(pkg, t, rel);
            out.push(r);
            proof {
                assert(out.deep_view() =~= before_push.push(
                    spec_example_runnable(*pkg, tgt, rel.deep_view()),
                ));
            }
        }
        proof {
            assert(out.deep_view() =~= dv0 + spec_target_runnables(*pkg, tgt, rel.deep_view()));
            lemma_targets_runnables_push(*pkg, targets.take(i as int), tgt, rel.deep_view());
            assert(targets.take(i + 1) =~= targets.take(i as int).push(tgt));
            assert(out.deep_view() =~= old(out).deep_view() + spec_targets_runnables(
                *pkg,
                targets.take(i + 1),
                rel.deep_view(),
            ));
        }
        i = i + 1;
    }
    proof {
        assert(targets.take(pkg.targets.len() as int) =~= targets);
    }
}

/// Builds the runnables of one discovered project from the metadata answer
/// for its manifest. `rel` is the project root's path relative to the
/// scanned root; `canon` is its canonical absolute path, as components.
pub fn runnables_for_project(
    rel: &Vec<String>,
    canon: &Vec<String>,
    meta: &ProjectMetadata,
) -> (r: Result<Vec<Runnable>, ProjectSkip>)
    ensures
        match r {
            Ok(rs) => spec_project_runnables(*meta, rel.deep_view(), canon.deep_view())
                == Ok::<Seq<RunnableV>, ProjectSkip>(rs.deep_view()),
            Err(e) => spec_project_runnables(*meta, rel.deep_view(), canon.deep_view())
                == Err::<Seq<RunnableV>, ProjectSkip>(e),
        },
{
    let ghost pkgs = meta.packages@;
    if !meta.has_workspace_members {
        let mut manifest = clone_string_vec(canon);
        manifest.push(String::from_str("Cargo.toml"));
        proof {
            assert(manifest.deep_view() =~= canon.deep_view().push("Cargo.toml"@));
            assert(pkgs.skip(0) =~= pkgs);
        }
        let ghost m = manifest.deep_view();
        let mut i: usize = 0;
        while i < meta.packages.len()
            invariant
                i <= meta.packages.len(),
                pkgs == meta.packages@,
                m == canon.deep_view().push("Cargo.toml"@),
                m == manifest.deep_view(),
                !meta.has_workspace_members,
                spec_find_package(pkgs, m) == spec_find_package(pkgs.skip(i as int), m),
            decreases meta.packages.len() - i,
        {
            proof {
                assert(pkgs.skip(i as int)[0] == pkgs[i as int]);
            }
            if path_eq(&meta.packages[i].manifest_path, &manifest) {
                let mut out: Vec<Runnable> = Vec::new();
                proof {
                    assert(out.deep_view() =~= Seq::<RunnableV>::empty());
                    assert(spec_find_package(pkgs.skip(i as int), m) == Some(pkgs[i as int]));
                }
                package_runnables_into(&meta.packages[i], rel, &mut out);
                proof {
                    assert(out.deep_view() =~= spec_package_runnables(
                        pkgs[i as int],
                        rel.deep_view(),
                    ));
                    assert(spec_find_package(pkgs, m) == Some(pkgs[i as int]));
                }
                return Ok(out);
            }
            proof {
                assert(pkgs.skip(i as int).drop_first() =~= pkgs.skip(i + 1));
            }
            i = i + 1;
        }
        proof {
            assert(pkgs.skip(meta.packages.len() as int) =~= Seq::<PackageMeta>::empty());
        }
        Err(ProjectSkip::NoMatchingPackage)
    } else {
        let mut out: Vec<Runnable> = Vec::new();
        let mut matched = false;
        let mut i: usize = 0;
        proof {
            assert(pkgs.take(0) =~= Seq::<PackageMeta>::empty());
            assert(out.deep_view() =~= Seq::<RunnableV>::empty());
            assert(spec_member_packages(pkgs.take(0), canon.deep_view())
                =~= Seq::<PackageMeta>::empty());
        }
        while i < meta.packages.len()
            invariant
                i <= meta.packages.len(),
                pkgs == meta.packages@,
                out.deep_view() == spec_packages_runnables(
                    spec_member_packages(pkgs.take(i as int), canon.deep_view()),
                    rel.deep_view(),
                ),
                matched == (spec_member_packages(pkgs.take(i as int), canon.deep_view()).len()
                    > 0),
            decreases meta.packages.len() - i,
        {
            let ghost members_before = spec_member_packages(pkgs.take(i as int), canon.deep_view());
            let is_member = manifest_dir_starts_with(&meta.packages[i].manifest_path, canon);
            if is_member {
                matched = true;
                package_runnables_into(&meta.packages[i], rel, &mut out);
            }
            proof {
                lemma_member_packages_push(pkgs.take(i as int), pkgs[i as int], canon.deep_view());
                assert(pkgs.take(i + 1) =~= pkgs.take(i as int).push(pkgs[i as int]));
                if spec_path_starts_with(
                    spec_manifest_dir(pkgs[i as int].manifest_path.deep_view()),
                    canon.deep_view(),
                ) {
                    lemma_packages_runnables_push(members_before, pkgs[i as int], rel.deep_view());
                    assert(members_before.push(pkgs[i as int]) =~= members_before + seq![
                        pkgs[i as int],
                    ]);
                } else {
                    assert(members_before + Seq::<PackageMeta>::empty() =~= members_before);
                }
            }
            i = i + 1;
        }
        proof {
            assert(pkgs.take(meta.packages.len() as int) =~= pkgs);
        }
        if !matched {
            Err(ProjectSkip::NoPackages)
        } else {
            Ok(out)
        }
    }
}

} // verus!
