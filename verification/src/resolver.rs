//! Resolving a workspace's crates into crate contexts straight from Cargo's resolve.
use vstd::prelude::*;
use cargo_platform::Cfg;
use crate::context::{BuildDependency, BuildTarget, CrateContext, WorkspaceContext};
use crate::planning::{RazeError, applicability, platform_applicability, root_index};
use crate::resolve::{
    CargoPackage, CargoTarget, Dependency, DependencyKind, PackageId, PackageSet, Resolve,
    ResolveNode, TargetKind, id_view,
};
use crate::sort::{keys, sort_stable, sorted_seq};
use crate::text::{owned, str_equal, views};

verus! {

/// Resolves the crates of a workspace; the Cargo workspace itself stays with the caller.
pub struct CargoDependencyResolver;

/// The ids of the resolve's packages other than the root crate, in resolve order.
pub open spec fn non_root_ids(nodes: Seq<ResolveNode>, root_name: Seq<char>) -> Seq<PackageId>
    decreases nodes.len(),
{
    if nodes.len() == 0 {
        Seq::empty()
    } else {
        let rest = non_root_ids(nodes.drop_last(), root_name);
        if nodes.last().id.name@ != root_name {
            rest.push(nodes.last().id)
        } else {
            rest
        }
    }
}

/// Index of the first package of `pkgs` with id `id`.
pub open spec fn package_at(pkgs: Seq<CargoPackage>, id: (Seq<char>, Seq<char>, Seq<char>)) -> Option<int> {
    crate::planning::package_index(pkgs, id)
}

/// The declared dependencies of kind `kind` that apply to the platform, as (name, version
/// requirement), in declaration order.
pub open spec fn declared_of_kind(deps: Seq<Dependency>, applies: Seq<bool>, kind: DependencyKind) -> Seq<(Seq<char>, Seq<char>)>
    decreases deps.len(),
{
    if deps.len() == 0 || applies.len() != deps.len() {
        Seq::empty()
    } else {
        let rest = declared_of_kind(deps.drop_last(), applies.drop_last(), kind);
        if applies.last() && deps.last().kind == kind {
            rest.push((deps.last().name@, deps.last().version_req@))
        } else {
            rest
        }
    }
}

/// The library and binary targets, one per crate type of a library, as (name, kind, path).
pub open spec fn buildable_targets(ts: Seq<CargoTarget>) -> Seq<(Seq<char>, Seq<char>, Seq<char>)>
    decreases ts.len(),
{
    if ts.len() == 0 {
        Seq::empty()
    } else {
        let rest = buildable_targets(ts.drop_last());
        let t = ts.last();
        match t.kind {
            TargetKind::Lib(kinds) => rest + views(kinds@).map_values(|k: Seq<char>| (t.name@, k, t.src_path@)),
            TargetKind::Bin => rest.push((t.name@, "bin"@, t.src_path@)),
            _ => rest,
        }
    }
}

/// The last build script target, as (name, `custom-build`, path).
pub open spec fn last_build_script(ts: Seq<CargoTarget>) -> Option<(Seq<char>, Seq<char>, Seq<char>)>
    decreases ts.len(),
{
    if ts.len() == 0 {
        None
    } else {
        match ts.last().kind {
            TargetKind::CustomBuild => Some((ts.last().name@, "custom-build"@, ts.last().src_path@)),
            _ => last_build_script(ts.drop_last()),
        }
    }
}

/// `c` describes package `pkg` the way the resolver does for the target `triple` with the
/// `cfg` values `cfgs`.
pub open spec fn resolved_crate_is(
    c: CrateContext,
    pkg: CargoPackage,
    features: Seq<Seq<char>>,
    is_root: bool,
    triple: Seq<char>,
    cfgs: Seq<Cfg>,
) -> bool {
    let applies = applicability(pkg.dependencies@, triple, cfgs);
    &&& keys(c.dependencies@) == declared_of_kind(pkg.dependencies@, applies, DependencyKind::Normal)
    &&& keys(c.build_dependencies@) == declared_of_kind(pkg.dependencies@, applies, DependencyKind::Build)
    &&& c.pkg_name@ == pkg.id.name@
    &&& c.pkg_version@ == pkg.id.version@
    &&& views(c.features@) == features
    &&& c.dev_dependencies@.len() == 0
    &&& c.is_root_dependency == is_root
    &&& keys(c.targets@) == buildable_targets(pkg.targets@)
    &&& crate::planning::target_key(c.build_script_target) == last_build_script(pkg.targets@)
}

fn declared_deps(deps: &Vec<Dependency>, applies: &Vec<bool>, kind: DependencyKind) -> (r: Vec<BuildDependency>)
    requires
        applies@.len() == deps@.len(),
    ensures
        keys(r@) == declared_of_kind(deps@, applies@, kind),
{
    let mut out: Vec<BuildDependency> = Vec::new();
    let mut i: usize = 0;
    while i < deps.len()
        invariant
            applies@.len() == deps@.len(),
            i <= deps.len(),
            keys(out@) == declared_of_kind(deps@.take(i as int), applies@.take(i as int), kind),
        decreases deps.len() - i,
    {
        assert(deps@.take(i as int + 1).drop_last() =~= deps@.take(i as int));
        assert(applies@.take(i as int + 1).drop_last() =~= applies@.take(i as int));
        if applies[i] && deps[i].kind == kind {
            let ghost before = out@;
            out.push(BuildDependency { name: deps[i].name.clone(), version: deps[i].version_req.clone() });
            assert(keys(out@) =~= keys(before).push((deps@[i as int].name@, deps@[i as int].version_req@)));
        }
        i = i + 1;
    }
    assert(deps@.take(i as int) =~= deps@);
    assert(applies@.take(i as int) =~= applies@);
    out
}

fn collect_targets(ts: &Vec<CargoTarget>) -> (r: (Option<BuildTarget>, Vec<BuildTarget>))
    ensures
        crate::planning::target_key(r.0) == last_build_script(ts@),
        keys(r.1@) == buildable_targets(ts@),
{
    let mut script: Option<BuildTarget> = None;
    let mut out: Vec<BuildTarget> = Vec::new();
    let mut i: usize = 0;
    while i < ts.len()
        invariant
            i <= ts.len(),
            crate::planning::target_key(script) == last_build_script(ts@.take(i as int)),
            keys(out@) == buildable_targets(ts@.take(i as int)),
        decreases ts.len() - i,
    {
        assert(ts@.take(i as int + 1).drop_last() =~= ts@.take(i as int));
        let t = &ts[i];
        match &t.kind {
            TargetKind::Lib(kinds) => {
                let ghost before = out@;
                let mut k: usize = 0;
                while k < kinds.len()
                    invariant
                        k <= kinds.len(),
                        keys(out@) == keys(before) + views(kinds@).take(k as int).map_values(
                            |kind: Seq<char>| (t.name@, kind, t.src_path@),
                        ),
                    decreases kinds.len() - k,
                {
                    let ghost prev = out@;
                    out.push(BuildTarget { name: t.name.clone(), kind: kinds[k].clone(), path: t.src_path.clone() });
                    assert(keys(out@) =~= keys(prev).push((t.name@, kinds@[k as int]@, t.src_path@)));
                    assert(views(kinds@).take(k as int + 1) =~= views(kinds@).take(k as int).push(kinds@[k as int]@));
                    assert(views(kinds@).take(k as int + 1).map_values(|kind: Seq<char>| (t.name@, kind, t.src_path@))
                        =~= views(kinds@).take(k as int).map_values(|kind: Seq<char>| (t.name@, kind, t.src_path@)).push((t.name@, kinds@[k as int]@, t.src_path@)));
                    k = k + 1;
                }
                assert(views(kinds@).take(k as int) =~= views(kinds@));
            },
            TargetKind::Bin => {
                let ghost before = out@;
                out.push(BuildTarget { name: t.name.clone(), kind: owned("bin"), path: t.src_path.clone() });
                assert(keys(out@) =~= keys(before).push((t.name@, "bin"@, t.src_path@)));
            },
            TargetKind::CustomBuild => {
                script = Some(BuildTarget { name: t.name.clone(), kind: owned("custom-build"), path: t.src_path.clone() });
            },
            _ => {},
        }
        i = i + 1;
    }
    assert(ts@.take(i as int) =~= ts@);
    (script, out)
}

fn resolved_crate(
    package: &CargoPackage,
    features: &Vec<String>,
    is_root_dependency: bool,
    platform_triple: &str,
    platform_attrs: &Vec<Cfg>,
) -> (r: CrateContext)
    ensures
        resolved_crate_is(r, *package, views(features@), is_root_dependency, platform_triple@, platform_attrs@),
{
    let applies = platform_applicability(&package.dependencies, platform_triple, platform_attrs);
    let normal_deps = declared_deps(&package.dependencies, &applies, DependencyKind::Normal);
    let build_deps = declared_deps(&package.dependencies, &applies, DependencyKind::Build);
    let (build_script_target, targets) = collect_targets(&package.targets);
    let c = CrateContext {
        pkg_name: package.id.name.clone(),
        pkg_version: package.id.version.clone(),
        features: crate::text::copy_strings(features),
        dependencies: normal_deps,
        build_dependencies: build_deps,
        dev_dependencies: Vec::new(),
        is_root_dependency,
        targets,
        build_script_target,
        path: String::new(),
        platform_triple: String::new(),
    };
    c
}

/// Every non-root package of the resolve has its package in the set.
pub open spec fn non_root_packages_present(pkgs: Seq<CargoPackage>, nodes: Seq<ResolveNode>, root_name: Seq<char>) -> bool {
    forall|i: int| 0 <= i < nodes.len() && (#[trigger] nodes[i]).id.name@ != root_name ==> package_at(pkgs, id_view(nodes[i].id)) is Some
}

/// What resolving a workspace whose root crate is `root_name` gives: an error when the root
/// crate is not in the resolve, and otherwise a workspace context with no crates, prefix or
/// platform.
pub open spec fn resolution_is(r: Result<WorkspaceContext, RazeError>, nodes: Seq<ResolveNode>, root_name: Seq<char>) -> bool {
    if root_index(nodes, root_name) is None {
        r matches Err(RazeError::RootCrateNotInResolve)
    } else {
        r matches Ok(w) && w.crates@.len() == 0 && w.workspace_prefix@.len() == 0 && w.platform_triple@.len() == 0
    }
}

impl CargoDependencyResolver {
    /// Resolves the workspace whose package specs are `spec_names` (the first is the root crate)
    /// from the packages and graph that Cargo resolved.
    pub fn resolve_using_network(
        &self,
        platform_triple: &str,
        platform_attrs: &Vec<Cfg>,
        spec_names: &Vec<String>,
        packages: &PackageSet,
        resolve: &Resolve,
    ) -> (r: Result<WorkspaceContext, RazeError>)
        requires
            spec_names@.len() > 0,
            root_index(resolve.nodes@, spec_names@[0]@) is Some ==> non_root_packages_present(packages.packages@, resolve.nodes@, spec_names@[0]@),
        ensures
            resolution_is(r, resolve.nodes@, spec_names@[0]@),
    {
        let root_crate_name = owned(spec_names[0].as_str());
        self.resolve_directly(platform_triple, platform_attrs, root_crate_name.as_str(), packages, resolve)
    }

    /// Resolves the workspace from the packages and graph that Cargo resolved: finds the root
    /// crate, then describes every other package, sorted by name. The descriptions are not
    /// returned: the workspace context comes back without crates.
    pub fn resolve_directly(
        &self,
        platform_triple: &str,
        platform_attrs: &Vec<Cfg>,
        root_crate_name: &str,
        packages: &PackageSet,
        resolve: &Resolve,
    ) -> (r: Result<WorkspaceContext, RazeError>)
        requires
            root_index(resolve.nodes@, root_crate_name@) is Some ==> non_root_packages_present(packages.packages@, resolve.nodes@, root_crate_name@),
        ensures
            resolution_is(r, resolve.nodes@, root_crate_name@),
    {
        let package_ids = sorted_non_root_ids(resolve, root_crate_name);
        let root_name = owned(root_crate_name);
        let root = match crate::planning::find_root_index(&resolve.nodes, &root_name) {
            Some(k) => k,
            None => return Err(RazeError::RootCrateNotInResolve),
        };
        let root_direct_deps = &resolve.nodes[root].deps;
        let mut crates: Vec<CrateContext> = Vec::new();
        let mut i: usize = 0;
        while i < package_ids.len()
            invariant
                i <= package_ids.len(),
                forall|j: int| 0 <= j < package_ids@.len() ==> package_at(packages.packages@, id_view(#[trigger] package_ids@[j])) is Some,
            decreases package_ids.len() - i,
        {
            let id = &package_ids[i];
            assert(package_at(packages.packages@, id_view(package_ids@[i as int])) is Some);
            let k = match crate::planning::find_package_index(packages, id) {
                Some(k) => k,
                None => {
                    assert(false);
                    0
                },
            };
            let features = match resolve.find_node(id) {
                Some(n) => crate::text::copy_strings(&resolve.nodes[n].features),
                None => Vec::new(),
            };
            let is_root = crate::planning::ids_contain_id(root_direct_deps, id);
            let c = resolved_crate(&packages.packages[k], &features, is_root, platform_triple, platform_attrs);
            crates.push(c);
            i = i + 1;
        }
        Ok(WorkspaceContext { crates: Vec::new(), workspace_prefix: String::new(), platform_triple: String::new() })
    }
}

/// The non-root package ids, sorted by name.
fn sorted_non_root_ids(resolve: &Resolve, root_name: &str) -> (r: Vec<PackageId>)
    ensures
        r@.len() == non_root_ids(resolve.nodes@, root_name@).len(),
        forall|j: int| 0 <= j < r@.len() ==> exists|k: int| 0 <= k < resolve.nodes@.len()
            && resolve.nodes@[k].id.name@ != root_name@ && id_view(#[trigger] r@[j]) == id_view(resolve.nodes@[k].id),
{
    let mut ids: Vec<PackageId> = Vec::new();
    let mut i: usize = 0;
    while i < resolve.nodes.len()
        invariant
            i <= resolve.nodes.len(),
            ids@.len() == non_root_ids(resolve.nodes@.take(i as int), root_name@).len(),
            forall|j: int| 0 <= j < ids@.len() ==> exists|k: int| 0 <= k < i
                && resolve.nodes@[k].id.name@ != root_name@ && id_view(#[trigger] ids@[j]) == id_view(resolve.nodes@[k].id),
        decreases resolve.nodes.len() - i,
    {
        assert(resolve.nodes@.take(i as int + 1).drop_last() =~= resolve.nodes@.take(i as int));
        let id = &resolve.nodes[i].id;
        if !str_equal(id.name.as_str(), root_name) {
            let ghost before = ids@;
            ids.push(id.copied());
            assert forall|j: int| 0 <= j < ids@.len() implies exists|k: int| 0 <= k < i + 1
                && resolve.nodes@[k].id.name@ != root_name@ && id_view(#[trigger] ids@[j]) == id_view(resolve.nodes@[k].id) by {
                if j < before.len() {
                    assert(ids@[j] == before[j]);
                } else {
                    assert(id_view(ids@[j]) == id_view(resolve.nodes@[i as int].id));
                }
            }
        }
        i = i + 1;
    }
    assert(resolve.nodes@.take(i as int) =~= resolve.nodes@);
    let ghost unsorted = ids@;
    let sorted = sort_stable(ids);
    proof {
        broadcast use vstd::seq_lib::group_to_multiset_ensures;
        assert forall|j: int| 0 <= j < sorted@.len() implies exists|k: int| 0 <= k < resolve.nodes@.len()
            && resolve.nodes@[k].id.name@ != root_name@ && id_view(#[trigger] sorted@[j]) == id_view(resolve.nodes@[k].id) by {
            assert(sorted@.to_multiset().count(sorted@[j]) > 0) by {
                assert(sorted@.contains(sorted@[j]));
            }
            assert(unsorted.contains(sorted@[j]));
            let m = choose|m: int| 0 <= m < unsorted.len() && unsorted[m] == sorted@[j];
            assert(unsorted[m] == sorted@[j]);
        }
    }
    sorted
}

} // verus!
