//! Planning the BUILD files of a vendored workspace from Cargo's resolve.
use vstd::prelude::*;
use vstd::string::StringExecFns;
use cargo_platform::Cfg;
use crate::context::{BuildDependency, BuildTarget, CrateContext, WorkspaceContext};
use crate::platform::{platform_applies, platform_matches};
use crate::resolve::{
    CargoPackage, CargoTarget, Dependency, DependencyKind, PackageId, PackageSet, Resolve,
    ResolveNode, TargetKind, id_view, resolve_deps, resolve_features, same_id,
};
use crate::sort::{keys, sort_stable, sorted_keys, sorted_seq, lemma_sorted_seq_congruent};
use crate::text::{chars_of, find_chars, first_occurrence, owned, str_equal, string_from_chars, views};

verus! {

/// Why a build could not be planned.
#[derive(Debug)]
pub enum RazeError {
    /// The root crate is not among the resolved packages.
    RootCrateNotInResolve,
    /// There is no `Cargo.lock` next to `Cargo.toml`.
    MissingLockfile,
    /// A crate has not been vendored: its directory is missing.
    MissingVendorDirectory { path: String },
    /// A target's source file lies outside its crate's vendored directory.
    TargetOutsideVendor { full_name: String, target_name: String },
    /// The registry URL does not parse: the URL given, and why it does not.
    InvalidRegistryUrl { host: String, reason: String },
}

/// What an error says.
pub open spec fn error_message(e: RazeError) -> Seq<char> {
    match e {
        RazeError::RootCrateNotInResolve => "root crate should be in cargo resolve"@,
        RazeError::MissingLockfile => "failed to find Cargo.lock. Please run `cargo generate-lockfile` first."@,
        RazeError::MissingVendorDirectory { path } => "failed to find "@ + path@
            + ". Please run `cargo vendor -x` first."@,
        RazeError::TargetOutsideVendor { full_name, target_name } => "path for "@ + full_name@ + "'s target "@
            + target_name@ + " should have been in vendor directory"@,
        RazeError::InvalidRegistryUrl { host, reason } => "invalid url `"@ + host@ + "`: "@ + reason@,
    }
}

impl RazeError {
    /// What the error says, for a person to read.
    pub fn message(&self) -> (r: String)
        ensures
            r@ == error_message(*self),
    {
        match self {
            RazeError::RootCrateNotInResolve => owned("root crate should be in cargo resolve"),
            RazeError::MissingLockfile => owned(
                "failed to find Cargo.lock. Please run `cargo generate-lockfile` first.",
            ),
            RazeError::MissingVendorDirectory { path } => {
                let mut r = owned("failed to find ");
                r.append(path.as_str());
                r.append(". Please run `cargo vendor -x` first.");
                r
            },
            RazeError::TargetOutsideVendor { full_name, target_name } => {
                let mut r = owned("path for ");
                r.append(full_name.as_str());
                r.append("'s target ");
                r.append(target_name.as_str());
                r.append(" should have been in vendor directory");
                r
            },
            RazeError::InvalidRegistryUrl { host, reason } => {
                let mut r = owned("invalid url `");
                r.append(host.as_str());
                r.append("`: ");
                r.append(reason.as_str());
                r
            },
        }
    }
}

/// The set of all included dependencies for Cargo's dependency categories.
#[derive(Clone, Debug)]
pub struct PlannedDeps {
    pub build_deps: Vec<BuildDependency>,
    pub dev_deps: Vec<BuildDependency>,
    pub normal_deps: Vec<BuildDependency>,
}

/// The names of the declared dependencies of kind `kind` that apply to the platform,
/// in declaration order.
pub open spec fn kinded_names(deps: Seq<Dependency>, applies: Seq<bool>, kind: DependencyKind) -> Seq<Seq<char>>
    decreases deps.len(),
{
    if deps.len() == 0 || applies.len() != deps.len() {
        Seq::empty()
    } else {
        let rest = kinded_names(deps.drop_last(), applies.drop_last(), kind);
        if applies.last() && deps.last().kind == kind {
            rest.push(deps.last().name@)
        } else {
            rest
        }
    }
}

/// The resolved dependencies (name, version) whose names are declared with kind `kind`
/// among the dependencies that apply, in resolve order.
pub open spec fn planned_of_kind(
    resolved: Seq<PackageId>,
    deps: Seq<Dependency>,
    applies: Seq<bool>,
    kind: DependencyKind,
) -> Seq<(Seq<char>, Seq<char>)>
    decreases resolved.len(),
{
    if resolved.len() == 0 {
        Seq::empty()
    } else {
        let rest = planned_of_kind(resolved.drop_last(), deps, applies, kind);
        if kinded_names(deps, applies, kind).contains(resolved.last().name@) {
            rest.push((resolved.last().name@, resolved.last().version@))
        } else {
            rest
        }
    }
}

/// Which declared dependencies apply to the platform: those without a platform, and those
/// whose platform `Platform::matches` accepts for the target `triple` and its `cfg` values.
pub open spec fn applicability(deps: Seq<Dependency>, triple: Seq<char>, cfgs: Seq<Cfg>) -> Seq<bool> {
    Seq::new(
        deps.len(),
        |i: int|
            match deps[i].platform {
                Some(p) => platform_applies(p, triple, cfgs),
                None => true,
            },
    )
}

/// `pd` holds, for each kind, the resolved dependencies declared with that kind.
pub open spec fn planned_deps_are(
    pd: PlannedDeps,
    resolved: Seq<PackageId>,
    deps: Seq<Dependency>,
    applies: Seq<bool>,
) -> bool {
    &&& keys(pd.normal_deps@) == planned_of_kind(resolved, deps, applies, DependencyKind::Normal)
    &&& keys(pd.build_deps@) == planned_of_kind(resolved, deps, applies, DependencyKind::Build)
    &&& keys(pd.dev_deps@) == planned_of_kind(resolved, deps, applies, DependencyKind::Development)
}

/// The names of the declared dependencies of one kind that apply to the platform
/// (`take_kinded_dep_names` on the platform's dependencies).
pub fn take_kinded_dep_names(deps: &Vec<Dependency>, applies: &Vec<bool>, kind: DependencyKind) -> (r: Vec<String>)
    requires
        applies@.len() == deps@.len(),
    ensures
        views(r@) == kinded_names(deps@, applies@, kind),
{
    let mut out: Vec<String> = Vec::new();
    let mut i: usize = 0;
    while i < deps.len()
        invariant
            applies@.len() == deps@.len(),
            i <= deps.len(),
            views(out@) == kinded_names(deps@.take(i as int), applies@.take(i as int), kind),
        decreases deps.len() - i,
    {
        assert(deps@.take(i as int + 1).drop_last() =~= deps@.take(i as int));
        assert(applies@.take(i as int + 1).drop_last() =~= applies@.take(i as int));
        if applies[i] && deps[i].kind == kind {
            let ghost before = out@;
            out.push(deps[i].name.clone());
            assert(views(out@) =~= views(before).push(deps@[i as int].name@));
        }
        i = i + 1;
    }
    assert(deps@.take(i as int) =~= deps@);
    assert(applies@.take(i as int) =~= applies@);
    out
}

fn names_contain(names: &Vec<String>, name: &String) -> (r: bool)
    ensures
        r == views(names@).contains(name@),
{
    let mut i: usize = 0;
    while i < names.len()
        invariant
            i <= names.len(),
            forall|j: int| 0 <= j < i ==> names@[j]@ != name@,
        decreases names.len() - i,
    {
        if str_equal(names[i].as_str(), name.as_str()) {
            assert(views(names@)[i as int] == name@);
            return true;
        }
        i = i + 1;
    }
    assert forall|j: int| 0 <= j < views(names@).len() implies views(names@)[j] != name@ by {
        assert(views(names@)[j] == names@[j]@);
    }
    false
}

fn deps_named(resolved: &Vec<PackageId>, names: &Vec<String>, ghost_deps: Ghost<Seq<Dependency>>, ghost_applies: Ghost<Seq<bool>>, kind: DependencyKind) -> (r: Vec<BuildDependency>)
    requires
        views(names@) == kinded_names(ghost_deps@, ghost_applies@, kind),
    ensures
        keys(r@) == planned_of_kind(resolved@, ghost_deps@, ghost_applies@, kind),
{
    let mut out: Vec<BuildDependency> = Vec::new();
    let mut i: usize = 0;
    while i < resolved.len()
        invariant
            i <= resolved.len(),
            views(names@) == kinded_names(ghost_deps@, ghost_applies@, kind),
            keys(out@) == planned_of_kind(resolved@.take(i as int), ghost_deps@, ghost_applies@, kind),
        decreases resolved.len() - i,
    {
        assert(resolved@.take(i as int + 1).drop_last() =~= resolved@.take(i as int));
        let id = &resolved[i];
        if names_contain(names, &id.name) {
            let ghost before = out@;
            out.push(BuildDependency { name: id.name.clone(), version: id.version.clone() });
            assert(keys(out@) =~= keys(before).push((id.name@, id.version@)));
        }
        i = i + 1;
    }
    assert(resolved@.take(i as int) =~= resolved@);
    out
}

impl PlannedDeps {
    /// Splits the resolved dependencies of a package by the kinds its manifest declares them
    /// with, given which declared dependencies apply to the platform.
    pub fn select(dependencies: &Vec<Dependency>, applies: &Vec<bool>, resolved: &Vec<PackageId>) -> (r: PlannedDeps)
        requires
            applies@.len() == dependencies@.len(),
        ensures
            planned_deps_are(r, resolved@, dependencies@, applies@),
    {
        let build_names = take_kinded_dep_names(dependencies, applies, DependencyKind::Build);
        let dev_names = take_kinded_dep_names(dependencies, applies, DependencyKind::Development);
        let normal_names = take_kinded_dep_names(dependencies, applies, DependencyKind::Normal);
        let normal_deps = deps_named(resolved, &normal_names, Ghost(dependencies@), Ghost(applies@), DependencyKind::Normal);
        let build_deps = deps_named(resolved, &build_names, Ghost(dependencies@), Ghost(applies@), DependencyKind::Build);
        let dev_deps = deps_named(resolved, &dev_names, Ghost(dependencies@), Ghost(applies@), DependencyKind::Development);
        PlannedDeps { build_deps, dev_deps, normal_deps }
    }

    /// Identifies the full set of cargo dependencies of a package from Cargo's resolve:
    /// the declared dependencies whose platform matches (or that have none), split by kind,
    /// as the resolve pins them.
    pub fn find_all_deps(
        id: &PackageId,
        package: &CargoPackage,
        resolve: &Resolve,
        platform_triple: &str,
        platform_attrs: &Vec<Cfg>,
    ) -> (r: PlannedDeps)
        ensures
            planned_deps_are(
                r,
                resolve_deps(*resolve, id_view(*id)),
                package.dependencies@,
                applicability(package.dependencies@, platform_triple@, platform_attrs@),
            ),
    {
        let applies = platform_applicability(&package.dependencies, platform_triple, platform_attrs);
        let empty: Vec<PackageId> = Vec::new();
        let resolved = match resolve.find_node(id) {
            Some(i) => &resolve.nodes[i].deps,
            None => &empty,
        };
        assert(resolved@ == resolve_deps(*resolve, id_view(*id)));
        PlannedDeps::select(&package.dependencies, &applies, resolved)
    }
}

/// Which declared dependencies apply to the platform: those without a platform, and those
/// whose platform matches the target and its `cfg` values.
pub fn platform_applicability(deps: &Vec<Dependency>, platform_triple: &str, platform_attrs: &Vec<Cfg>) -> (r: Vec<bool>)
    ensures
        r@ == applicability(deps@, platform_triple@, platform_attrs@),
{
    let mut out: Vec<bool> = Vec::new();
    let mut i: usize = 0;
    while i < deps.len()
        invariant
            i <= deps.len(),
            out@ == applicability(deps@, platform_triple@, platform_attrs@).take(i as int),
        decreases deps.len() - i,
    {
        let applies = match &deps[i].platform {
            Some(p) => platform_matches(p, platform_triple, platform_attrs),
            None => true,
        };
        out.push(applies);
        i = i + 1;
        assert(out@ =~= applicability(deps@, platform_triple@, platform_attrs@).take(i as int));
    }
    assert(out@ =~= applicability(deps@, platform_triple@, platform_attrs@));
    out
}

/// The kinds a target is built as: a library's crate types, `bin`, `test`, `bench`,
/// `example`, or `custom-build` for a build script.
pub open spec fn kinds_of(kind: TargetKind) -> Seq<Seq<char>> {
    match kind {
        TargetKind::Lib(kinds) => views(kinds@),
        TargetKind::Bin => seq!["bin"@],
        TargetKind::Test => seq!["test"@],
        TargetKind::Bench => seq!["bench"@],
        TargetKind::ExampleLib(_) => seq!["example"@],
        TargetKind::ExampleBin => seq!["example"@],
        TargetKind::CustomBuild => seq!["custom-build"@],
    }
}

/// The kinds a target is built as.
pub fn kind_to_kinds(kind: &TargetKind) -> (r: Vec<String>)
    ensures
        views(r@) == kinds_of(*kind),
{
    let mut out: Vec<String> = Vec::new();
    match kind {
        TargetKind::Lib(kinds) => {
            let mut i: usize = 0;
            while i < kinds.len()
                invariant
                    i <= kinds.len(),
                    views(out@) == views(kinds@).take(i as int),
                decreases kinds.len() - i,
            {
                let ghost before = out@;
                out.push(kinds[i].clone());
                assert(views(out@) =~= views(before).push(kinds@[i as int]@));
                assert(views(kinds@).take(i as int + 1) =~= views(kinds@).take(i as int).push(kinds@[i as int]@));
                i = i + 1;
            }
            assert(views(kinds@).take(i as int) =~= views(kinds@));
        },
        TargetKind::Bin => {
            out.push(owned("bin"));
        },
        TargetKind::Test => {
            out.push(owned("test"));
        },
        TargetKind::Bench => {
            out.push(owned("bench"));
        },
        TargetKind::ExampleLib(_) => {
            out.push(owned("example"));
        },
        TargetKind::ExampleBin => {
            out.push(owned("example"));
        },
        TargetKind::CustomBuild => {
            out.push(owned("custom-build"));
        },
    }
    assert(views(out@) =~= kinds_of(*kind));
    out
}

/// The targets of a package as (name, kind, path inside the crate's directory), one per kind,
/// or the index of the first target whose source lies outside `{full_name}/`.
#[verifier::opaque]
pub open spec fn targets_in_vendor(full_name: Seq<char>, targets: Seq<CargoTarget>) -> Result<Seq<(Seq<char>, Seq<char>, Seq<char>)>, int>
    decreases targets.len(),
{
    if targets.len() == 0 {
        Ok(Seq::empty())
    } else {
        match targets_in_vendor(full_name, targets.drop_last()) {
            Err(i) => Err(i),
            Ok(acc) => {
                let t = targets.last();
                let partial = full_name + "/"@;
                match first_occurrence(t.src_path@, partial) {
                    None => Err(targets.len() - 1),
                    Some(k) => {
                        let local = t.src_path@.skip(k + partial.len());
                        Ok(acc + kinds_of(t.kind).map_values(|kind: Seq<char>| (t.name@, kind, local)))
                    },
                }
            },
        }
    }
}

/// Derives Bazel targets from Cargo's targets: each source path is taken relative to the
/// crate's vendored directory `{full_name}/`.
pub fn identify_targets(full_name: &str, package: &CargoPackage) -> (r: Result<Vec<BuildTarget>, RazeError>)
    ensures
        match targets_in_vendor(full_name@, package.targets@) {
            Ok(ts) => r matches Ok(v) && keys(v@) == ts,
            Err(i) => r matches Err(RazeError::TargetOutsideVendor { full_name: f, target_name: t })
                && f@ == full_name@ && t@ == package.targets@[i].name@,
        },
{
    let mut partial_path = owned(full_name);
    partial_path.append("/");
    let partial = chars_of(partial_path.as_str());
    let mut targets: Vec<BuildTarget> = Vec::new();
    let mut i: usize = 0;
    assert(package.targets@.take(0) =~= Seq::<CargoTarget>::empty());
    assert(keys(targets@) =~= Seq::<(Seq<char>, Seq<char>, Seq<char>)>::empty());
    proof {
        reveal(targets_in_vendor);
    }
    while i < package.targets.len()
        invariant
            i <= package.targets.len(),
            partial@ == full_name@ + "/"@,
            targets_in_vendor(full_name@, package.targets@.take(i as int)) == Ok::<Seq<(Seq<char>, Seq<char>, Seq<char>)>, int>(keys(targets@)),
        decreases package.targets.len() - i,
    {
        let target = &package.targets[i];
        let path_chars = chars_of(target.src_path.as_str());
        match find_chars(&path_chars, &partial) {
            None => {
                proof {
                    lemma_targets_in_vendor_none(full_name@, package.targets@, i as int, keys(targets@));
                    lemma_targets_in_vendor_err(full_name@, package.targets@, i as int + 1);
                }
                return Err(RazeError::TargetOutsideVendor {
                    full_name: owned(full_name),
                    target_name: target.name.clone(),
                });
            },
            Some(idx) => {
                let plen = path_chars.len();
                assert(idx + partial@.len() <= plen);
                let local = string_from_chars(&path_chars, idx + partial.len());
                let kinds = kind_to_kinds(&target.kind);
                let ghost before = targets@;
                push_targets(&mut targets, &target.name, &kinds, &local);
                proof {
                    lemma_targets_in_vendor_ok(full_name@, package.targets@, i as int, keys(before), idx as int);
                }
            },
        }
        i = i + 1;
    }
    assert(package.targets@.take(i as int) =~= package.targets@);
    Ok(targets)
}

fn push_targets(targets: &mut Vec<BuildTarget>, name: &String, kinds: &Vec<String>, local: &String)
    ensures
        keys(final(targets)@) == keys(old(targets)@) + views(kinds@).map_values(
            |kind: Seq<char>| (name@, kind, local@),
        ),
{
    let ghost before = targets@;
    let mut k: usize = 0;
    while k < kinds.len()
        invariant
            k <= kinds.len(),
            keys(targets@) == keys(before) + views(kinds@).take(k as int).map_values(
                |kind: Seq<char>| (name@, kind, local@),
            ),
        decreases kinds.len() - k,
    {
        let ghost prev = targets@;
        targets.push(BuildTarget { name: name.clone(), kind: kinds[k].clone(), path: local.clone() });
        assert(keys(targets@) =~= keys(prev).push((name@, kinds@[k as int]@, local@)));
        assert(views(kinds@).take(k as int + 1) =~= views(kinds@).take(k as int).push(kinds@[k as int]@));
        assert(views(kinds@).take(k as int + 1).map_values(|kind: Seq<char>| (name@, kind, local@))
            =~= views(kinds@).take(k as int).map_values(|kind: Seq<char>| (name@, kind, local@)).push((name@, kinds@[k as int]@, local@)));
        k = k + 1;
    }
    assert(views(kinds@).take(k as int) =~= views(kinds@));
}

proof fn lemma_targets_in_vendor_ok(
    full_name: Seq<char>,
    targets: Seq<CargoTarget>,
    i: int,
    acc: Seq<(Seq<char>, Seq<char>, Seq<char>)>,
    k: int,
)
    requires
        0 <= i < targets.len(),
        targets_in_vendor(full_name, targets.take(i)) == Ok::<Seq<(Seq<char>, Seq<char>, Seq<char>)>, int>(acc),
        first_occurrence(targets[i].src_path@, full_name + "/"@) == Some(k),
    ensures
        targets_in_vendor(full_name, targets.take(i + 1)) == Ok::<Seq<(Seq<char>, Seq<char>, Seq<char>)>, int>(
            acc + kinds_of(targets[i].kind).map_values(
                |kind: Seq<char>| (targets[i].name@, kind, targets[i].src_path@.skip(k + (full_name + "/"@).len())),
            ),
        ),
{
    reveal(targets_in_vendor);
    assert(targets.take(i + 1).drop_last() =~= targets.take(i));
    assert(targets.take(i + 1).last() == targets[i]);
}

proof fn lemma_targets_in_vendor_none(
    full_name: Seq<char>,
    targets: Seq<CargoTarget>,
    i: int,
    acc: Seq<(Seq<char>, Seq<char>, Seq<char>)>,
)
    requires
        0 <= i < targets.len(),
        targets_in_vendor(full_name, targets.take(i)) == Ok::<Seq<(Seq<char>, Seq<char>, Seq<char>)>, int>(acc),
        first_occurrence(targets[i].src_path@, full_name + "/"@) is None,
    ensures
        targets_in_vendor(full_name, targets.take(i + 1)) == Err::<Seq<(Seq<char>, Seq<char>, Seq<char>)>, int>(i),
{
    reveal(targets_in_vendor);
    assert(targets.take(i + 1).drop_last() =~= targets.take(i));
    assert(targets.take(i + 1).last() == targets[i]);
}

proof fn lemma_targets_in_vendor_err(full_name: Seq<char>, targets: Seq<CargoTarget>, i: int)
    requires
        0 < i <= targets.len(),
        targets_in_vendor(full_name, targets.take(i)) is Err,
    ensures
        targets_in_vendor(full_name, targets) == targets_in_vendor(full_name, targets.take(i)),
    decreases targets.len() - i,
{
    reveal(targets_in_vendor);
    if i < targets.len() {
        assert(targets.take(i + 1).drop_last() =~= targets.take(i));
        lemma_targets_in_vendor_err(full_name, targets, i + 1);
    } else {
        assert(targets.take(i) =~= targets);
    }
}

/// The ids of the resolve's packages that come from `registry`, in resolve order.
pub open spec fn registry_ids(nodes: Seq<ResolveNode>, registry: Seq<char>) -> Seq<PackageId>
    decreases nodes.len(),
{
    if nodes.len() == 0 {
        Seq::empty()
    } else {
        let rest = registry_ids(nodes.drop_last(), registry);
        if nodes.last().id.source_id@ == registry {
            rest.push(nodes.last().id)
        } else {
            rest
        }
    }
}

/// The two sequences identify the same packages in the same order.
pub open spec fn same_ids(a: Seq<PackageId>, b: Seq<PackageId>) -> bool {
    a.len() == b.len() && forall|i: int| 0 <= i < a.len() ==> same_id(#[trigger] a[i], b[i])
}

/// Enumerates the packages that come from the registry, sorted by name (stably, so that
/// versions of one crate keep Cargo's order). Fails when there is no lockfile.
pub fn find_all_package_ids(registry_id: &str, resolve: &Resolve, lockfile_present: bool) -> (r: Result<Vec<PackageId>, RazeError>)
    ensures
        !lockfile_present ==> r matches Err(RazeError::MissingLockfile),
        lockfile_present ==> (r matches Ok(v) && same_ids(v@, sorted_seq(registry_ids(resolve.nodes@, registry_id@)))),
{
    if !lockfile_present {
        return Err(RazeError::MissingLockfile);
    }
    let mut ids: Vec<PackageId> = Vec::new();
    let mut i: usize = 0;
    while i < resolve.nodes.len()
        invariant
            i <= resolve.nodes.len(),
            same_ids(ids@, registry_ids(resolve.nodes@.take(i as int), registry_id@)),
        decreases resolve.nodes.len() - i,
    {
        assert(resolve.nodes@.take(i as int + 1).drop_last() =~= resolve.nodes@.take(i as int));
        let id = &resolve.nodes[i].id;
        if str_equal(id.source_id.as_str(), registry_id) {
            let ghost before = ids@;
            ids.push(id.copied());
            assert(registry_ids(resolve.nodes@.take(i as int + 1), registry_id@) == registry_ids(resolve.nodes@.take(i as int), registry_id@).push(resolve.nodes@[i as int].id));
        }
        i = i + 1;
    }
    assert(resolve.nodes@.take(i as int) =~= resolve.nodes@);
    let ghost unsorted = ids@;
    let sorted = sort_stable(ids);
    proof {
        let target = registry_ids(resolve.nodes@, registry_id@);
        let rel = |x: PackageId, y: PackageId| same_id(x, y);
        assert forall|k: int| 0 <= k < unsorted.len() implies #[trigger] rel(unsorted[k], target[k]) by {
            assert(same_id(unsorted[k], target[k]));
        }
        lemma_sorted_seq_congruent(unsorted, target, rel);
        assert forall|k: int| 0 <= k < sorted@.len() implies same_id(#[trigger] sorted@[k], sorted_seq(target)[k]) by {
            assert(rel(sorted_seq(unsorted)[k], sorted_seq(target)[k]));
        }
    }
    Ok(sorted)
}

/// A planned build: the workspace details and one context per vendored crate.
#[derive(Clone, Debug)]
pub struct PlannedBuild {
    pub workspace_context: WorkspaceContext,
    pub crate_contexts: Vec<CrateContext>,
}

impl PlannedBuild {
    /// Assembles a planned build.
    pub fn new(workspace_context: WorkspaceContext, crate_contexts: Vec<CrateContext>) -> (r: PlannedBuild)
        ensures
            r.workspace_context == workspace_context,
            r.crate_contexts == crate_contexts,
    {
        PlannedBuild { workspace_context, crate_contexts }
    }
}

/// A file to be written: where, and what.
#[derive(Clone, Debug)]
pub struct FileOutputs {
    pub path: String,
    pub contents: String,
}

/// Cargo's resolution of the workspace: the root crate's name, the packages, and the graph.
#[derive(Clone, Debug)]
pub struct ResolvedPlan {
    pub root_name: String,
    pub packages: PackageSet,
    pub resolve: Resolve,
}

/// Plans BUILD files for one platform.
#[derive(Clone, Debug)]
pub struct BuildPlanner {
    pub workspace_prefix: String,
    pub platform_triple: String,
    /// The platform's `cfg` values.
    pub platform_attrs: Vec<Cfg>,
    /// The source that vendored crates come from, as `registry+{url}`; crates.io when unset.
    pub registry: Option<String>,
}

/// Why planning stops, as plain values.
pub enum PlanFailure {
    RootMissing,
    NoLockfile,
    NotVendored(Seq<char>),
    TargetOutside(Seq<char>, Seq<char>),
}

/// `e` reports `f`.
pub open spec fn failure_is(e: RazeError, f: PlanFailure) -> bool {
    match f {
        PlanFailure::RootMissing => e is RootCrateNotInResolve,
        PlanFailure::NoLockfile => e is MissingLockfile,
        PlanFailure::NotVendored(p) => e matches RazeError::MissingVendorDirectory { path } && path@ == p,
        PlanFailure::TargetOutside(f, t) => e matches RazeError::TargetOutsideVendor { full_name, target_name }
            && full_name@ == f && target_name@ == t,
    }
}

/// The registry whose crates are planned.
pub open spec fn chosen_registry(planner: BuildPlanner, default_registry: Seq<char>) -> Seq<char> {
    match planner.registry {
        Some(r) => r@,
        None => default_registry,
    }
}

/// Index of the first resolved package named `name`.
pub open spec fn root_index(nodes: Seq<ResolveNode>, name: Seq<char>) -> Option<int>
    decreases nodes.len(),
{
    if nodes.len() == 0 {
        None
    } else {
        match root_index(nodes.drop_last(), name) {
            Some(i) => Some(i),
            None => if nodes.last().id.name@ == name {
                Some(nodes.len() - 1)
            } else {
                None
            },
        }
    }
}

/// Index of the first package of `pkgs` with id `id`.
pub open spec fn package_index(pkgs: Seq<CargoPackage>, id: (Seq<char>, Seq<char>, Seq<char>)) -> Option<int>
    decreases pkgs.len(),
{
    if pkgs.len() == 0 {
        None
    } else {
        match package_index(pkgs.drop_last(), id) {
            Some(i) => Some(i),
            None => if id_view(pkgs.last().id) == id {
                Some(pkgs.len() - 1)
            } else {
                None
            },
        }
    }
}

/// `{name}-{version}`.
pub open spec fn full_name_of(id: (Seq<char>, Seq<char>, Seq<char>)) -> Seq<char> {
    id.0 + "-"@ + id.1
}

/// `./vendor/{name}-{version}/`, where a vendored crate lives.
pub open spec fn vendor_path_of(id: (Seq<char>, Seq<char>, Seq<char>)) -> Seq<char> {
    "./vendor/"@ + id.0 + "-"@ + id.1 + "/"@
}

/// Why the crate `id` cannot be planned, if it cannot: it is not vendored, or a target of it
/// lies outside its vendored directory.
pub open spec fn package_failure(pkgs: Seq<CargoPackage>, id: (Seq<char>, Seq<char>, Seq<char>), vendored: Seq<Seq<char>>) -> Option<PlanFailure> {
    if !vendored.contains(vendor_path_of(id)) {
        Some(PlanFailure::NotVendored(vendor_path_of(id)))
    } else {
        match package_index(pkgs, id) {
            Some(k) => match targets_in_vendor(full_name_of(id), pkgs[k].targets@) {
                Err(i) => Some(PlanFailure::TargetOutside(full_name_of(id), pkgs[k].targets@[i].name@)),
                Ok(_) => None,
            },
            None => None,
        }
    }
}

/// Why the first crate of `ids` that cannot be planned cannot be.
pub open spec fn first_failure(pkgs: Seq<CargoPackage>, ids: Seq<PackageId>, vendored: Seq<Seq<char>>) -> Option<PlanFailure>
    decreases ids.len(),
{
    if ids.len() == 0 {
        None
    } else {
        match first_failure(pkgs, ids.drop_last(), vendored) {
            Some(f) => Some(f),
            None => package_failure(pkgs, id_view(ids.last()), vendored),
        }
    }
}

/// Target keys without those of kind `kind`, in order.
pub open spec fn without_kind(ts: Seq<(Seq<char>, Seq<char>, Seq<char>)>, kind: Seq<char>) -> Seq<(Seq<char>, Seq<char>, Seq<char>)>
    decreases ts.len(),
{
    if ts.len() == 0 {
        ts
    } else {
        let rest = without_kind(ts.drop_last(), kind);
        if ts.last().1 == kind {
            rest
        } else {
            rest.push(ts.last())
        }
    }
}

/// The first target key of kind `kind`.
pub open spec fn first_of_kind(ts: Seq<(Seq<char>, Seq<char>, Seq<char>)>, kind: Seq<char>) -> Option<(Seq<char>, Seq<char>, Seq<char>)>
    decreases ts.len(),
{
    if ts.len() == 0 {
        None
    } else {
        match first_of_kind(ts.drop_last(), kind) {
            Some(t) => Some(t),
            None => if ts.last().1 == kind {
                Some(ts.last())
            } else {
                None
            },
        }
    }
}

/// The key of an optional target.
pub open spec fn target_key(t: Option<BuildTarget>) -> Option<(Seq<char>, Seq<char>, Seq<char>)> {
    match t {
        Some(t) => Some((t.name@, t.kind@, t.path@)),
        None => None,
    }
}

/// `c` is the plan of crate `id`, given the root crate's direct dependencies.
pub open spec fn planned_as(
    c: CrateContext,
    planner: BuildPlanner,
    plan: ResolvedPlan,
    id: (Seq<char>, Seq<char>, Seq<char>),
    root_deps: Seq<PackageId>,
) -> bool {
    let pkg = plan.packages.packages@[package_index(plan.packages.packages@, id)->0];
    let resolved = resolve_deps(plan.resolve, id);
    let applies = applicability(pkg.dependencies@, planner.platform_triple@, planner.platform_attrs@);
    &&& c.pkg_name@ == id.0
    &&& c.pkg_version@ == id.1
    &&& views(c.features@) == crate::text::sorted_strs(resolve_features(plan.resolve, id))
    &&& c.is_root_dependency == exists|j: int| 0 <= j < root_deps.len() && id_view(#[trigger] root_deps[j]) == id
    &&& keys(c.dependencies@) == sorted_keys::<BuildDependency>(planned_of_kind(resolved, pkg.dependencies@, applies, DependencyKind::Normal))
    &&& keys(c.build_dependencies@) == sorted_keys::<BuildDependency>(planned_of_kind(resolved, pkg.dependencies@, applies, DependencyKind::Build))
    &&& keys(c.dev_dependencies@) == sorted_keys::<BuildDependency>(planned_of_kind(resolved, pkg.dependencies@, applies, DependencyKind::Development))
    &&& c.path@ == vendor_path_of(id)
    &&& targets_in_vendor(full_name_of(id), pkg.targets@) matches Ok(ts)
    &&& keys(c.targets@) == without_kind(sorted_keys::<BuildTarget>(ts), "custom-build"@)
    &&& target_key(c.build_script_target) == first_of_kind(sorted_keys::<BuildTarget>(ts), "custom-build"@)
    &&& c.platform_triple@ == planner.platform_triple@
}

/// The crates a planner plans: those of the chosen registry, sorted by name.
pub open spec fn planned_ids(planner: BuildPlanner, plan: ResolvedPlan, default_registry: Seq<char>) -> Seq<PackageId> {
    sorted_seq(registry_ids(plan.resolve.nodes@, chosen_registry(planner, default_registry)))
}

pub(crate) fn find_package_index(pkgs: &PackageSet, id: &PackageId) -> (r: Option<usize>)
    ensures
        match r {
            Some(k) => package_index(pkgs.packages@, id_view(*id)) == Some(k as int) && k < pkgs.packages@.len(),
            None => package_index(pkgs.packages@, id_view(*id)) is None,
        },
{
    let mut i: usize = 0;
    assert(pkgs.packages@.take(0) =~= Seq::<CargoPackage>::empty());
    while i < pkgs.packages.len()
        invariant
            i <= pkgs.packages.len(),
            package_index(pkgs.packages@.take(i as int), id_view(*id)) is None,
        decreases pkgs.packages.len() - i,
    {
        assert(pkgs.packages@.take(i as int + 1).drop_last() =~= pkgs.packages@.take(i as int));
        if pkgs.packages[i].id.is_same(id) {
            proof {
                lemma_package_index_found(pkgs.packages@, id_view(*id), i as int + 1);
            }
            return Some(i);
        }
        i = i + 1;
    }
    assert(pkgs.packages@.take(i as int) =~= pkgs.packages@);
    None
}

proof fn lemma_package_index_found(pkgs: Seq<CargoPackage>, id: (Seq<char>, Seq<char>, Seq<char>), i: int)
    requires
        0 <= i <= pkgs.len(),
        package_index(pkgs.take(i), id) is Some,
    ensures
        package_index(pkgs, id) == package_index(pkgs.take(i), id),
    decreases pkgs.len() - i,
{
    if i < pkgs.len() {
        assert(pkgs.take(i + 1).drop_last() =~= pkgs.take(i));
        lemma_package_index_found(pkgs, id, i + 1);
    } else {
        assert(pkgs.take(i) =~= pkgs);
    }
}

pub(crate) fn find_root_index(nodes: &Vec<ResolveNode>, name: &String) -> (r: Option<usize>)
    ensures
        match r {
            Some(k) => root_index(nodes@, name@) == Some(k as int) && k < nodes@.len(),
            None => root_index(nodes@, name@) is None,
        },
{
    let mut i: usize = 0;
    assert(nodes@.take(0) =~= Seq::<ResolveNode>::empty());
    while i < nodes.len()
        invariant
            i <= nodes.len(),
            root_index(nodes@.take(i as int), name@) is None,
        decreases nodes.len() - i,
    {
        assert(nodes@.take(i as int + 1).drop_last() =~= nodes@.take(i as int));
        if str_equal(nodes[i].id.name.as_str(), name.as_str()) {
            proof {
                lemma_root_index_found(nodes@, name@, i as int + 1);
            }
            return Some(i);
        }
        i = i + 1;
    }
    assert(nodes@.take(i as int) =~= nodes@);
    None
}

proof fn lemma_root_index_found(nodes: Seq<ResolveNode>, name: Seq<char>, i: int)
    requires
        0 <= i <= nodes.len(),
        root_index(nodes.take(i), name) is Some,
    ensures
        root_index(nodes, name) == root_index(nodes.take(i), name),
    decreases nodes.len() - i,
{
    if i < nodes.len() {
        assert(nodes.take(i + 1).drop_last() =~= nodes.take(i));
        lemma_root_index_found(nodes, name, i + 1);
    } else {
        assert(nodes.take(i) =~= nodes);
    }
}

pub(crate) fn ids_contain_id(ids: &Vec<PackageId>, id: &PackageId) -> (r: bool)
    ensures
        r == exists|j: int| 0 <= j < ids@.len() && id_view(#[trigger] ids@[j]) == id_view(*id),
{
    let mut i: usize = 0;
    while i < ids.len()
        invariant
            i <= ids.len(),
            forall|j: int| 0 <= j < i ==> id_view(#[trigger] ids@[j]) != id_view(*id),
        decreases ids.len() - i,
    {
        if ids[i].is_same(id) {
            return true;
        }
        i = i + 1;
    }
    false
}

fn strings_contain(items: &Vec<String>, s: &String) -> (r: bool)
    ensures
        r == views(items@).contains(s@),
{
    let mut i: usize = 0;
    while i < items.len()
        invariant
            i <= items.len(),
            forall|j: int| 0 <= j < i ==> items@[j]@ != s@,
        decreases items.len() - i,
    {
        if str_equal(items[i].as_str(), s.as_str()) {
            assert(views(items@)[i as int] == s@);
            return true;
        }
        i = i + 1;
    }
    assert forall|j: int| 0 <= j < views(items@).len() implies views(items@)[j] != s@ by {
        assert(views(items@)[j] == items@[j]@);
    }
    false
}

fn copy_target(t: &BuildTarget) -> (r: BuildTarget)
    ensures
        r.name@ == t.name@,
        r.kind@ == t.kind@,
        r.path@ == t.path@,
{
    BuildTarget { name: t.name.clone(), kind: t.kind.clone(), path: t.path.clone() }
}

/// Splits sorted targets into the first build script, if any, and the other targets.
fn split_build_script(targets: &Vec<BuildTarget>) -> (r: (Option<BuildTarget>, Vec<BuildTarget>))
    ensures
        target_key(r.0) == first_of_kind(keys(targets@), "custom-build"@),
        keys(r.1@) == without_kind(keys(targets@), "custom-build"@),
{
    let mut script: Option<BuildTarget> = None;
    let mut rest: Vec<BuildTarget> = Vec::new();
    let mut i: usize = 0;
    while i < targets.len()
        invariant
            i <= targets.len(),
            target_key(script) == first_of_kind(keys(targets@).take(i as int), "custom-build"@),
            keys(rest@) == without_kind(keys(targets@).take(i as int), "custom-build"@),
        decreases targets.len() - i,
    {
        assert(keys(targets@).take(i as int + 1).drop_last() =~= keys(targets@).take(i as int));
        let t = &targets[i];
        if str_equal(t.kind.as_str(), "custom-build") {
            if script.is_none() {
                script = Some(copy_target(t));
            }
        } else {
            let ghost before = rest@;
            rest.push(copy_target(t));
            assert(keys(rest@) =~= keys(before).push((t.name@, t.kind@, t.path@)));
        }
        i = i + 1;
    }
    assert(keys(targets@).take(i as int) =~= keys(targets@));
    (script, rest)
}

impl BuildPlanner {
    /// A planner for one platform, given its `cfg` values.
    pub fn new(workspace_prefix: String, platform_triple: String, platform_attrs: Vec<Cfg>) -> (r: BuildPlanner)
        ensures
            r.workspace_prefix == workspace_prefix,
            r.platform_triple == platform_triple,
            r.platform_attrs == platform_attrs,
            r.registry is None,
    {
        BuildPlanner { workspace_prefix, platform_triple, platform_attrs, registry: None }
    }

    /// Plans one crate: its features, dependencies, targets and build script.
    pub fn plan_crate(&self, plan: &ResolvedPlan, id: &PackageId, root_deps: &Vec<PackageId>, vendored_paths: &Vec<String>) -> (r: Result<CrateContext, RazeError>)
        requires
            package_index(plan.packages.packages@, id_view(*id)) is Some,
        ensures
            match package_failure(plan.packages.packages@, id_view(*id), views(vendored_paths@)) {
                Some(f) => r matches Err(e) && failure_is(e, f),
                None => r matches Ok(c) && planned_as(c, *self, *plan, id_view(*id), root_deps@),
            },
    {
        let k = match find_package_index(&plan.packages, id) {
            Some(k) => k,
            None => {
                assert(false);
                0
            },
        };
        let package = &plan.packages.packages[k];
        let features = match plan.resolve.find_node(id) {
            Some(n) => crate::text::sort_strings(crate::text::copy_strings(&plan.resolve.nodes[n].features)),
            None => {
                let empty: Vec<String> = Vec::new();
                assert(views(empty@) =~= crate::text::sorted_strs(Seq::empty()));
                empty
            },
        };
        assert(views(features@) == crate::text::sorted_strs(resolve_features(plan.resolve, id_view(*id))));
        let mut full_name = owned(id.name.as_str());
        full_name.append("-");
        full_name.append(id.version.as_str());
        let mut path = owned("./vendor/");
        path.append(full_name.as_str());
        path.append("/");
        assert(full_name@ =~= full_name_of(id_view(*id)));
        assert(path@ =~= vendor_path_of(id_view(*id)));
        if !strings_contain(vendored_paths, &path) {
            return Err(RazeError::MissingVendorDirectory { path });
        }
        let planned = PlannedDeps::find_all_deps(id, package, &plan.resolve, self.platform_triple.as_str(), &self.platform_attrs);
        let PlannedDeps { build_deps, dev_deps, normal_deps } = planned;
        let build_deps = sort_stable(build_deps);
        let dev_deps = sort_stable(dev_deps);
        let normal_deps = sort_stable(normal_deps);
        let targets = match identify_targets(full_name.as_str(), package) {
            Ok(t) => t,
            Err(e) => return Err(e),
        };
        let targets = sort_stable(targets);
        let (build_script_target, targets_sans_build_script) = split_build_script(&targets);
        let is_root_dependency = ids_contain_id(root_deps, id);
        let c = CrateContext {
            pkg_name: id.name.clone(),
            pkg_version: id.version.clone(),
            features,
            dependencies: normal_deps,
            build_dependencies: build_deps,
            dev_dependencies: dev_deps,
            is_root_dependency,
            targets: targets_sans_build_script,
            build_script_target,
            path,
            platform_triple: self.platform_triple.clone(),
        };
        assert(planned_as(c, *self, *plan, id_view(*id), root_deps@));
        Ok(c)
    }
}

/// Every crate of `ids` up to and including the first one that cannot be planned has its
/// package in `pkgs`.
pub open spec fn covered_until_failure(pkgs: Seq<CargoPackage>, ids: Seq<PackageId>, vendored: Seq<Seq<char>>) -> bool
    decreases ids.len(),
{
    if ids.len() == 0 {
        true
    } else {
        covered_until_failure(pkgs, ids.drop_last(), vendored) && (first_failure(pkgs, ids.drop_last(), vendored) is Some
            || package_index(pkgs, id_view(ids.last())) is Some)
    }
}

/// Why planning fails, if it does: the root crate is not resolved, there is no lockfile,
/// or the first crate (in name order) that cannot be planned.
pub open spec fn plan_failure(
    planner: BuildPlanner,
    plan: ResolvedPlan,
    default_registry: Seq<char>,
    lockfile_present: bool,
    vendored: Seq<Seq<char>>,
) -> Option<PlanFailure> {
    if root_index(plan.resolve.nodes@, plan.root_name@) is None {
        Some(PlanFailure::RootMissing)
    } else if !lockfile_present {
        Some(PlanFailure::NoLockfile)
    } else {
        first_failure(plan.packages.packages@, planned_ids(planner, plan, default_registry), vendored)
    }
}

/// The root crate's direct dependencies.
pub open spec fn root_deps_of(plan: ResolvedPlan) -> Seq<PackageId> {
    plan.resolve.nodes@[root_index(plan.resolve.nodes@, plan.root_name@)->0].deps@
}

proof fn lemma_first_failure_extend(pkgs: Seq<CargoPackage>, ids: Seq<PackageId>, vendored: Seq<Seq<char>>, i: int)
    requires
        0 < i <= ids.len(),
        first_failure(pkgs, ids.take(i), vendored) is Some,
    ensures
        first_failure(pkgs, ids, vendored) == first_failure(pkgs, ids.take(i), vendored),
    decreases ids.len() - i,
{
    if i < ids.len() {
        assert(ids.take(i + 1).drop_last() =~= ids.take(i));
        lemma_first_failure_extend(pkgs, ids, vendored, i + 1);
    } else {
        assert(ids.take(i) =~= ids);
    }
}

proof fn lemma_covered_prefix(pkgs: Seq<CargoPackage>, ids: Seq<PackageId>, vendored: Seq<Seq<char>>, i: int)
    requires
        0 <= i < ids.len(),
        covered_until_failure(pkgs, ids, vendored),
        first_failure(pkgs, ids.take(i), vendored) is None,
    ensures
        package_index(pkgs, id_view(ids[i])) is Some,
    decreases ids.len(),
{
    if i < ids.len() - 1 {
        assert(ids.drop_last().take(i) =~= ids.take(i));
        lemma_covered_prefix(pkgs, ids.drop_last(), vendored, i);
    } else {
        assert(ids.take(i) =~= ids.drop_last());
    }
}

impl BuildPlanner {
    /// Plans the BUILD files of every vendored crate of the registry: checks that the root crate
    /// is resolved and that a lockfile exists, then plans the registry's crates in name order,
    /// stopping at the first that is not vendored or has a target outside its directory.
    /// `default_registry` is the crates.io source, used when no registry was set;
    /// `vendored_paths` are the crate directories (`./vendor/{name}-{version}/`) that exist.
    pub fn plan_build(
        &self,
        plan: &ResolvedPlan,
        default_registry: &str,
        lockfile_present: bool,
        vendored_paths: &Vec<String>,
    ) -> (r: Result<PlannedBuild, RazeError>)
        requires
            root_index(plan.resolve.nodes@, plan.root_name@) is Some && lockfile_present ==> covered_until_failure(
                plan.packages.packages@,
                planned_ids(*self, *plan, default_registry@),
                views(vendored_paths@),
            ),
        ensures
            match plan_failure(*self, *plan, default_registry@, lockfile_present, views(vendored_paths@)) {
                Some(f) => r matches Err(e) && failure_is(e, f),
                None => r matches Ok(pb) && pb.crate_contexts@.len() == planned_ids(*self, *plan, default_registry@).len()
                    && (forall|i: int| 0 <= i < pb.crate_contexts@.len() ==> planned_as(
                        #[trigger] pb.crate_contexts@[i],
                        *self,
                        *plan,
                        id_view(planned_ids(*self, *plan, default_registry@)[i]),
                        root_deps_of(*plan),
                    ))
                    && pb.workspace_context.workspace_prefix@ == self.workspace_prefix@
                    && pb.workspace_context.platform_triple@ == self.platform_triple@
                    && pb.workspace_context.crates@.len() == 0,
            },
    {
        let root = match find_root_index(&plan.resolve.nodes, &plan.root_name) {
            Some(k) => k,
            None => return Err(RazeError::RootCrateNotInResolve),
        };
        let root_deps = &plan.resolve.nodes[root].deps;
        let source_id: &str = match &self.registry {
            Some(r) => r.as_str(),
            None => default_registry,
        };
        let ids = match find_all_package_ids(source_id, &plan.resolve, lockfile_present) {
            Ok(ids) => ids,
            Err(e) => return Err(e),
        };
        let ghost spec_ids = planned_ids(*self, *plan, default_registry@);
        let ghost pkgs = plan.packages.packages@;
        let ghost vendored = views(vendored_paths@);
        let mut crate_contexts: Vec<CrateContext> = Vec::new();
        let mut i: usize = 0;
        assert(spec_ids.take(0) =~= Seq::<PackageId>::empty());
        while i < ids.len()
            invariant
                same_ids(ids@, spec_ids),
                spec_ids == planned_ids(*self, *plan, default_registry@),
                pkgs == plan.packages.packages@,
                vendored == views(vendored_paths@),
                root_deps@ == root_deps_of(*plan),
                root_index(plan.resolve.nodes@, plan.root_name@) is Some,
                lockfile_present,
                covered_until_failure(pkgs, spec_ids, vendored),
                i <= ids.len(),
                first_failure(pkgs, spec_ids.take(i as int), vendored) is None,
                crate_contexts@.len() == i,
                forall|j: int| 0 <= j < i ==> planned_as(#[trigger] crate_contexts@[j], *self, *plan, id_view(spec_ids[j]), root_deps_of(*plan)),
            decreases ids.len() - i,
        {
            proof {
                lemma_covered_prefix(pkgs, spec_ids, vendored, i as int);
                assert(same_id(ids@[i as int], spec_ids[i as int]));
                assert(spec_ids.take(i as int + 1).drop_last() =~= spec_ids.take(i as int));
                assert(spec_ids.take(i as int + 1).last() == spec_ids[i as int]);
            }
            let ghost fi = package_failure(pkgs, id_view(spec_ids[i as int]), vendored);
            assert(first_failure(pkgs, spec_ids.take(i as int + 1), vendored) == fi);
            let c = match self.plan_crate(plan, &ids[i], root_deps, vendored_paths) {
                Ok(c) => c,
                Err(e) => {
                    proof {
                        assert(fi is Some);
                        lemma_first_failure_extend(pkgs, spec_ids, vendored, i as int + 1);
                    }
                    return Err(e);
                },
            };
            assert(fi is None);
            assert(planned_as(c, *self, *plan, id_view(spec_ids[i as int]), root_deps_of(*plan)));
            let ghost before = crate_contexts@;
            crate_contexts.push(c);
            assert forall|j: int| 0 <= j < i + 1 implies planned_as(#[trigger] crate_contexts@[j], *self, *plan, id_view(spec_ids[j]), root_deps_of(*plan)) by {
                if j < i {
                    assert(crate_contexts@[j] == before[j]);
                } else {
                    assert(crate_contexts@[j] == c);
                }
            }
            i = i + 1;
        }
        assert(spec_ids.take(i as int) =~= spec_ids);
        assert(ids@.len() == spec_ids.len());
        let workspace_context = WorkspaceContext {
            crates: Vec::new(),
            workspace_prefix: self.workspace_prefix.clone(),
            platform_triple: self.platform_triple.clone(),
        };
        Ok(PlannedBuild::new(workspace_context, crate_contexts))
    }
}

/// What `url::Url::parse` makes of `input`: the serialization of the URL, or, when `input` is
/// not an absolute URL, the text of the parse error (a function of the input alone).
pub uninterp spec fn url_parse(input: Seq<char>) -> Result<Seq<char>, Seq<char>>;

/// `url::Url::parse`, giving the parsed URL's serialization (`Url::into_string`) or the text of
/// the parse error (its `Display`). Claimed: the outcome is the one `url_parse` names.
#[verifier::external_body]
fn parse_url(input: &str) -> (r: Result<String, String>)
    ensures
        match r {
            Ok(s) => url_parse(input@) == Ok::<Seq<char>, Seq<char>>(s@),
            Err(m) => url_parse(input@) == Err::<Seq<char>, Seq<char>>(m@),
        },
{
    match url::Url::parse(input) {
        Ok(u) => Ok(u.into_string()),
        Err(e) => Err(e.to_string()),
    }
}

impl BuildPlanner {
    /// Plans crates of the registry at `host` instead of crates.io: the registry's source is
    /// `registry+` followed by the parsed URL.
    pub fn set_registry_from_url(&mut self, host: String) -> (r: Result<(), RazeError>)
        ensures
            match url_parse(host@) {
                Ok(u) => r is Ok && (final(self).registry matches Some(reg) && reg@ == "registry+"@ + u),
                Err(m) => r matches Err(RazeError::InvalidRegistryUrl { host: h, reason })
                    && h@ == host@ && reason@ == m && final(self).registry == old(self).registry,
            },
            final(self).workspace_prefix == old(self).workspace_prefix,
            final(self).platform_triple == old(self).platform_triple,
            final(self).platform_attrs == old(self).platform_attrs,
    {
        match parse_url(host.as_str()) {
            Ok(url) => {
                let mut registry_id = owned("registry+");
                registry_id.append(url.as_str());
                self.registry = Some(registry_id);
                Ok(())
            },
            Err(reason) => Err(RazeError::InvalidRegistryUrl { host, reason }),
        }
    }
}

} // verus!
