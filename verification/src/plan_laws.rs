//! What holds of every planned build, whatever the workspace.
use vstd::prelude::*;
use crate::context::{BuildDependency, BuildTarget, CrateContext, pair_le};
use crate::planning::{
    BuildPlanner, PlannedDeps, ResolvedPlan, applicability, chosen_registry, first_of_kind, full_name_of,
    kinded_names, planned_deps_are,
    package_index, planned_as, planned_ids, planned_of_kind, registry_ids, target_key,
    targets_in_vendor, without_kind,
};
use crate::resolve::{Dependency, DependencyKind, PackageId, ResolveNode, id_view, resolve_deps};
use crate::platform::platform_applies;
use cargo_platform::Cfg;
use crate::sort::{Ordered, keys, sorted_keys, sorted_seq, is_sorted, lemma_sorted_seq_keys,
    lemma_sorted_keys_is_sorted, lemma_sorted_keys_permutes};
use crate::text::{str_le, views};

verus! {

type TargetKey = (Seq<char>, Seq<char>, Seq<char>);

proof fn lemma_registry_ids_from(nodes: Seq<crate::resolve::ResolveNode>, registry: Seq<char>)
    ensures
        forall|i: int| 0 <= i < registry_ids(nodes, registry).len()
            ==> (#[trigger] registry_ids(nodes, registry)[i]).source_id@ == registry,
    decreases nodes.len(),
{
    if nodes.len() > 0 {
        let rest = registry_ids(nodes.drop_last(), registry);
        lemma_registry_ids_from(nodes.drop_last(), registry);
        assert forall|i: int| 0 <= i < registry_ids(nodes, registry).len()
            implies (#[trigger] registry_ids(nodes, registry)[i]).source_id@ == registry by {
            if i < rest.len() {
                assert(registry_ids(nodes, registry)[i] == rest[i]);
            }
        }
    }
}

/// The crates a planner plans are the resolve's crates of the chosen registry, each once,
/// in name order.
pub proof fn lemma_planned_ids_by_name(planner: BuildPlanner, plan: ResolvedPlan, default_registry: Seq<char>)
    ensures
        forall|i: int, j: int| 0 <= i < j < planned_ids(planner, plan, default_registry).len()
            ==> str_le(
                #[trigger] planned_ids(planner, plan, default_registry)[i].name@,
                #[trigger] planned_ids(planner, plan, default_registry)[j].name@,
            ),
        forall|i: int| 0 <= i < planned_ids(planner, plan, default_registry).len()
            ==> (#[trigger] planned_ids(planner, plan, default_registry)[i]).source_id@
                == chosen_registry(planner, default_registry),
        planned_ids(planner, plan, default_registry).to_multiset()
            == registry_ids(plan.resolve.nodes@, chosen_registry(planner, default_registry)).to_multiset(),
{
    broadcast use vstd::seq_lib::group_to_multiset_ensures;

    let reg = chosen_registry(planner, default_registry);
    let s = registry_ids(plan.resolve.nodes@, reg);
    let p = sorted_seq(s);
    assert(p == planned_ids(planner, plan, default_registry));
    lemma_sorted_seq_keys(s);
    lemma_sorted_keys_is_sorted::<PackageId>(keys(s));
    lemma_registry_ids_from(plan.resolve.nodes@, reg);
    assert forall|i: int, j: int| 0 <= i < j < p.len() implies str_le(#[trigger] p[i].name@, #[trigger] p[j].name@) by {
        assert(keys(p)[i] == p[i].name@);
        assert(keys(p)[j] == p[j].name@);
        assert(<PackageId as Ordered>::key_le(keys(p)[i], keys(p)[j]));
    }
    assert forall|i: int| 0 <= i < p.len() implies (#[trigger] p[i]).source_id@ == reg by {
        assert(p.contains(p[i]));
        assert(p.to_multiset().count(p[i]) > 0);
        assert(s.contains(p[i]));
    }
}

proof fn lemma_without_kind_excludes(ts: Seq<TargetKey>, kind: Seq<char>)
    ensures
        forall|i: int| 0 <= i < without_kind(ts, kind).len() ==> (#[trigger] without_kind(ts, kind)[i]).1 != kind,
    decreases ts.len(),
{
    if ts.len() > 0 {
        let rest = without_kind(ts.drop_last(), kind);
        lemma_without_kind_excludes(ts.drop_last(), kind);
        assert forall|i: int| 0 <= i < without_kind(ts, kind).len() implies (#[trigger] without_kind(ts, kind)[i]).1 != kind by {
            if i < rest.len() {
                assert(without_kind(ts, kind)[i] == rest[i]);
            }
        }
    }
}

proof fn lemma_without_kind_keeps(ts: Seq<TargetKey>, kind: Seq<char>)
    ensures
        forall|i: int| 0 <= i < ts.len() && (#[trigger] ts[i]).1 != kind ==> without_kind(ts, kind).contains(ts[i]),
    decreases ts.len(),
{
    if ts.len() > 0 {
        let d = ts.drop_last();
        lemma_without_kind_keeps(d, kind);
        assert forall|i: int| 0 <= i < ts.len() && (#[trigger] ts[i]).1 != kind implies without_kind(ts, kind).contains(ts[i]) by {
            if i < ts.len() - 1 {
                assert(d[i] == ts[i]);
                let k = choose|k: int| 0 <= k < without_kind(d, kind).len() && without_kind(d, kind)[k] == ts[i];
                if ts.last().1 != kind {
                    assert(without_kind(ts, kind)[k] == ts[i]);
                }
            } else {
                assert(without_kind(ts, kind).last() == ts[i]);
            }
        }
    }
}

proof fn lemma_first_of_kind_is_of_kind(ts: Seq<TargetKey>, kind: Seq<char>)
    ensures
        first_of_kind(ts, kind) matches Some(t) ==> t.1 == kind && ts.contains(t),
        first_of_kind(ts, kind) is None ==> forall|i: int| 0 <= i < ts.len() ==> (#[trigger] ts[i]).1 != kind,
    decreases ts.len(),
{
    if ts.len() > 0 {
        let d = ts.drop_last();
        lemma_first_of_kind_is_of_kind(d, kind);
        if let Some(t) = first_of_kind(d, kind) {
            let k = choose|k: int| 0 <= k < d.len() && d[k] == t;
            assert(ts[k] == t);
        } else {
            assert forall|i: int| 0 <= i < ts.len() implies (#[trigger] ts[i]).1 != kind || first_of_kind(ts, kind) is Some by {
                if i < ts.len() - 1 {
                    assert(d[i] == ts[i]);
                }
            }
        }
    }
}

/// The targets of a planned crate, sorted, as (name, kind, path).
pub open spec fn planned_targets(plan: ResolvedPlan, id: (Seq<char>, Seq<char>, Seq<char>)) -> Seq<(Seq<char>, Seq<char>, Seq<char>)> {
    let pkg = plan.packages.packages@[package_index(plan.packages.packages@, id)->0];
    sorted_keys::<BuildTarget>(targets_in_vendor(full_name_of(id), pkg.targets@)->Ok_0)
}

/// A planned crate keeps its build script apart: none of its targets is a `custom-build`
/// target; the build script, if it has one, is one of the crate's `custom-build` targets; and it
/// has none only when the crate has no such target. Every other target of the crate is kept.
pub proof fn lemma_build_script_apart(
    c: CrateContext,
    planner: BuildPlanner,
    plan: ResolvedPlan,
    id: (Seq<char>, Seq<char>, Seq<char>),
    root_deps: Seq<PackageId>,
)
    requires
        planned_as(c, planner, plan, id, root_deps),
    ensures
        forall|i: int| 0 <= i < c.targets@.len() ==> (#[trigger] c.targets@[i]).kind@ != "custom-build"@,
        c.build_script_target matches Some(t) ==> t.kind@ == "custom-build"@
            && planned_targets(plan, id).contains((t.name@, t.kind@, t.path@)),
        c.build_script_target is None ==> forall|i: int| 0 <= i < planned_targets(plan, id).len()
            ==> (#[trigger] planned_targets(plan, id)[i]).1 != "custom-build"@,
        forall|i: int| 0 <= i < planned_targets(plan, id).len() && (#[trigger] planned_targets(plan, id)[i]).1 != "custom-build"@
            ==> keys(c.targets@).contains(planned_targets(plan, id)[i]),
{
    let ts = planned_targets(plan, id);
    let cb = "custom-build"@;
    assert(keys(c.targets@) == without_kind(ts, cb));
    assert(target_key(c.build_script_target) == first_of_kind(ts, cb));
    lemma_without_kind_excludes(ts, cb);
    lemma_without_kind_keeps(ts, cb);
    lemma_first_of_kind_is_of_kind(ts, cb);
    assert forall|i: int| 0 <= i < c.targets@.len() implies (#[trigger] c.targets@[i]).kind@ != cb by {
        assert(keys(c.targets@)[i] == (c.targets@[i].name@, c.targets@[i].kind@, c.targets@[i].path@));
    }
}

/// Cargo's resolve pins the package `name` at `version`.
pub open spec fn pins(resolved: Seq<PackageId>, name: Seq<char>, version: Seq<char>) -> bool {
    exists|j: int| 0 <= j < resolved.len() && resolved[j].name@ == name && resolved[j].version@ == version
}

proof fn lemma_planned_of_kind_resolved(
    resolved: Seq<PackageId>,
    deps: Seq<crate::resolve::Dependency>,
    applies: Seq<bool>,
    kind: DependencyKind,
)
    ensures
        forall|i: int| 0 <= i < planned_of_kind(resolved, deps, applies, kind).len() ==> exists|j: int|
            0 <= j < resolved.len() && (#[trigger] planned_of_kind(resolved, deps, applies, kind)[i])
                == (resolved[j].name@, resolved[j].version@),
    decreases resolved.len(),
{
    if resolved.len() > 0 {
        let d = resolved.drop_last();
        lemma_planned_of_kind_resolved(d, deps, applies, kind);
        let p = planned_of_kind(resolved, deps, applies, kind);
        assert forall|i: int| 0 <= i < p.len() implies exists|j: int|
            0 <= j < resolved.len() && (#[trigger] p[i]) == (resolved[j].name@, resolved[j].version@) by {
            if i < planned_of_kind(d, deps, applies, kind).len() {
                let j = choose|j: int| 0 <= j < d.len() && planned_of_kind(d, deps, applies, kind)[i] == (d[j].name@, d[j].version@);
                assert(resolved[j] == d[j]);
            } else {
                assert(p[i] == (resolved[resolved.len() - 1].name@, resolved[resolved.len() - 1].version@));
            }
        }
    }
}

proof fn lemma_sorted_deps(s: Seq<(Seq<char>, Seq<char>)>, resolved: Seq<PackageId>)
    requires
        forall|i: int| 0 <= i < s.len() ==> exists|j: int|
            0 <= j < resolved.len() && (#[trigger] s[i]) == (resolved[j].name@, resolved[j].version@),
    ensures
        forall|i: int, j: int| 0 <= i < j < sorted_keys::<BuildDependency>(s).len()
            ==> pair_le(#[trigger] sorted_keys::<BuildDependency>(s)[i], #[trigger] sorted_keys::<BuildDependency>(s)[j]),
        forall|i: int| 0 <= i < sorted_keys::<BuildDependency>(s).len() ==> exists|j: int|
            0 <= j < resolved.len() && (#[trigger] sorted_keys::<BuildDependency>(s)[i]) == (resolved[j].name@, resolved[j].version@),
{
    broadcast use vstd::seq_lib::group_to_multiset_ensures;

    let t = sorted_keys::<BuildDependency>(s);
    lemma_sorted_keys_is_sorted::<BuildDependency>(s);
    lemma_sorted_keys_permutes::<BuildDependency>(s);
    assert forall|i: int, j: int| 0 <= i < j < t.len() implies pair_le(#[trigger] t[i], #[trigger] t[j]) by {
        assert(<BuildDependency as Ordered>::key_le(t[i], t[j]));
    }
    assert forall|i: int| 0 <= i < t.len() implies exists|j: int|
        0 <= j < resolved.len() && (#[trigger] t[i]) == (resolved[j].name@, resolved[j].version@) by {
        assert(t.contains(t[i]));
        assert(t.to_multiset().count(t[i]) > 0);
        assert(s.contains(t[i]));
        let k = choose|k: int| 0 <= k < s.len() && s[k] == t[i];
        assert(exists|j: int| 0 <= j < resolved.len() && s[k] == (resolved[j].name@, resolved[j].version@));
    }
}

/// Each dependency of a planned crate, of every kind, is a package that Cargo's resolve pins
/// for that crate, and each kind's dependencies come sorted by name, then version.
pub proof fn lemma_planned_dependencies_resolved(
    c: CrateContext,
    planner: BuildPlanner,
    plan: ResolvedPlan,
    id: (Seq<char>, Seq<char>, Seq<char>),
    root_deps: Seq<PackageId>,
)
    requires
        planned_as(c, planner, plan, id, root_deps),
    ensures
        forall|i: int| 0 <= i < c.dependencies@.len() ==> pins(
            resolve_deps(plan.resolve, id),
            (#[trigger] c.dependencies@[i]).name@,
            c.dependencies@[i].version@,
        ),
        forall|i: int| 0 <= i < c.build_dependencies@.len() ==> pins(
            resolve_deps(plan.resolve, id),
            (#[trigger] c.build_dependencies@[i]).name@,
            c.build_dependencies@[i].version@,
        ),
        forall|i: int| 0 <= i < c.dev_dependencies@.len() ==> pins(
            resolve_deps(plan.resolve, id),
            (#[trigger] c.dev_dependencies@[i]).name@,
            c.dev_dependencies@[i].version@,
        ),
        is_sorted::<BuildDependency>(keys(c.dependencies@)),
        is_sorted::<BuildDependency>(keys(c.build_dependencies@)),
        is_sorted::<BuildDependency>(keys(c.dev_dependencies@)),
{
    let pkg = plan.packages.packages@[package_index(plan.packages.packages@, id)->0];
    let resolved = resolve_deps(plan.resolve, id);
    let applies = applicability(pkg.dependencies@, planner.platform_triple@, planner.platform_attrs@);
    lemma_planned_of_kind_resolved(resolved, pkg.dependencies@, applies, DependencyKind::Normal);
    lemma_planned_of_kind_resolved(resolved, pkg.dependencies@, applies, DependencyKind::Build);
    lemma_planned_of_kind_resolved(resolved, pkg.dependencies@, applies, DependencyKind::Development);
    lemma_sorted_deps(planned_of_kind(resolved, pkg.dependencies@, applies, DependencyKind::Normal), resolved);
    lemma_sorted_deps(planned_of_kind(resolved, pkg.dependencies@, applies, DependencyKind::Build), resolved);
    lemma_sorted_deps(planned_of_kind(resolved, pkg.dependencies@, applies, DependencyKind::Development), resolved);
    lemma_deps_from_keys(c.dependencies@, resolved);
    lemma_deps_from_keys(c.build_dependencies@, resolved);
    lemma_deps_from_keys(c.dev_dependencies@, resolved);
}

proof fn lemma_deps_from_keys(v: Seq<BuildDependency>, resolved: Seq<PackageId>)
    requires
        forall|i: int| 0 <= i < keys(v).len() ==> exists|j: int|
            0 <= j < resolved.len() && (#[trigger] keys(v)[i]) == (resolved[j].name@, resolved[j].version@),
        forall|i: int, j: int| 0 <= i < j < keys(v).len() ==> pair_le(#[trigger] keys(v)[i], #[trigger] keys(v)[j]),
    ensures
        forall|i: int| 0 <= i < v.len() ==> pins(resolved, (#[trigger] v[i]).name@, v[i].version@),
        is_sorted::<BuildDependency>(keys(v)),
{
    assert forall|i: int| 0 <= i < v.len() implies pins(resolved, (#[trigger] v[i]).name@, v[i].version@) by {
        assert(keys(v)[i] == (v[i].name@, v[i].version@));
        assert(0 <= i < keys(v).len());
        let j = choose|j: int| 0 <= j < resolved.len() && keys(v)[i] == (resolved[j].name@, resolved[j].version@);
        assert(0 <= j < resolved.len() && v[i].name@ == resolved[j].name@ && v[i].version@ == resolved[j].version@);
    }
    assert forall|i: int, j: int| 0 <= i < j < keys(v).len() implies #[trigger] <BuildDependency as Ordered>::key_le(keys(v)[i], keys(v)[j]) by {
        assert(pair_le(keys(v)[i], keys(v)[j]));
    }
}

/// A planned crate's features come in lexicographic order.
pub proof fn lemma_planned_features_sorted(
    c: CrateContext,
    planner: BuildPlanner,
    plan: ResolvedPlan,
    id: (Seq<char>, Seq<char>, Seq<char>),
    root_deps: Seq<PackageId>,
)
    requires
        planned_as(c, planner, plan, id, root_deps),
    ensures
        forall|i: int, j: int| 0 <= i < j < c.features@.len() ==> str_le(#[trigger] c.features@[i]@, #[trigger] c.features@[j]@),
{
    let f = views(c.features@);
    lemma_sorted_keys_is_sorted::<String>(crate::resolve::resolve_features(plan.resolve, id));
    assert forall|i: int, j: int| 0 <= i < j < c.features@.len() implies str_le(#[trigger] c.features@[i]@, #[trigger] c.features@[j]@) by {
        assert(f[i] == c.features@[i]@);
        assert(f[j] == c.features@[j]@);
        assert(<String as Ordered>::key_le(f[i], f[j]));
    }
}

/// The crate contexts of a successful plan come in name order.
pub proof fn lemma_contexts_by_name(
    contexts: Seq<CrateContext>,
    planner: BuildPlanner,
    plan: ResolvedPlan,
    default_registry: Seq<char>,
    root_deps: Seq<PackageId>,
)
    requires
        contexts.len() == planned_ids(planner, plan, default_registry).len(),
        forall|i: int| 0 <= i < contexts.len() ==> planned_as(
            #[trigger] contexts[i],
            planner,
            plan,
            id_view(planned_ids(planner, plan, default_registry)[i]),
            root_deps,
        ),
    ensures
        forall|i: int, j: int| 0 <= i < j < contexts.len()
            ==> str_le(#[trigger] contexts[i].pkg_name@, #[trigger] contexts[j].pkg_name@),
{
    let ids = planned_ids(planner, plan, default_registry);
    lemma_planned_ids_by_name(planner, plan, default_registry);
    assert forall|i: int, j: int| 0 <= i < j < contexts.len()
        implies str_le(#[trigger] contexts[i].pkg_name@, #[trigger] contexts[j].pkg_name@) by {
        assert(planned_as(contexts[i], planner, plan, id_view(ids[i]), root_deps));
        assert(planned_as(contexts[j], planner, plan, id_view(ids[j]), root_deps));
        assert(str_le(ids[i].name@, ids[j].name@));
    }
}

proof fn lemma_kinded_names_skip(deps: Seq<Dependency>, applies: Seq<bool>, k: int, x: Dependency, kind: DependencyKind)
    requires
        0 <= k <= deps.len(),
        applies.len() == deps.len(),
    ensures
        kinded_names(deps.insert(k, x), applies.insert(k, false), kind) == kinded_names(deps, applies, kind),
    decreases deps.len(),
{
    let d2 = deps.insert(k, x);
    let a2 = applies.insert(k, false);
    if k == deps.len() {
        assert(d2.drop_last() =~= deps);
        assert(a2.drop_last() =~= applies);
    } else {
        assert(d2.drop_last() =~= deps.drop_last().insert(k, x));
        assert(a2.drop_last() =~= applies.drop_last().insert(k, false));
        lemma_kinded_names_skip(deps.drop_last(), applies.drop_last(), k, x, kind);
        assert(d2.last() == deps.last());
        assert(a2.last() == applies.last());
    }
}

proof fn lemma_planned_of_kind_names(
    resolved: Seq<PackageId>,
    d1: Seq<Dependency>,
    a1: Seq<bool>,
    d2: Seq<Dependency>,
    a2: Seq<bool>,
    kind: DependencyKind,
)
    requires
        kinded_names(d1, a1, kind) == kinded_names(d2, a2, kind),
    ensures
        planned_of_kind(resolved, d1, a1, kind) == planned_of_kind(resolved, d2, a2, kind),
    decreases resolved.len(),
{
    if resolved.len() > 0 {
        lemma_planned_of_kind_names(resolved.drop_last(), d1, a1, d2, a2, kind);
    }
}

/// A declared dependency whose platform does not match the target changes nothing of what is
/// planned: with it added anywhere among a package's dependencies, the planned dependencies of
/// every kind are the same as without it.
pub proof fn lemma_unmatched_dependency_ignored(
    resolved: Seq<PackageId>,
    deps: Seq<Dependency>,
    k: int,
    x: Dependency,
    triple: Seq<char>,
    cfgs: Seq<Cfg>,
)
    requires
        0 <= k <= deps.len(),
        x.platform is Some,
        !platform_applies(x.platform->0, triple, cfgs),
    ensures
        forall|pd: PlannedDeps|
            #[trigger] planned_deps_are(pd, resolved, deps.insert(k, x), applicability(deps.insert(k, x), triple, cfgs))
                == planned_deps_are(pd, resolved, deps, applicability(deps, triple, cfgs)),
{
    let d2 = deps.insert(k, x);
    let a1 = applicability(deps, triple, cfgs);
    let a2 = applicability(d2, triple, cfgs);
    assert(a2 =~= a1.insert(k, false));
    lemma_kinded_names_skip(deps, a1, k, x, DependencyKind::Normal);
    lemma_kinded_names_skip(deps, a1, k, x, DependencyKind::Build);
    lemma_kinded_names_skip(deps, a1, k, x, DependencyKind::Development);
    lemma_planned_of_kind_names(resolved, d2, a2, deps, a1, DependencyKind::Normal);
    lemma_planned_of_kind_names(resolved, d2, a2, deps, a1, DependencyKind::Build);
    lemma_planned_of_kind_names(resolved, d2, a2, deps, a1, DependencyKind::Development);
}

/// How many resolved packages come from `registry`.
pub open spec fn count_from(nodes: Seq<ResolveNode>, registry: Seq<char>) -> nat
    decreases nodes.len(),
{
    if nodes.len() == 0 {
        0
    } else {
        count_from(nodes.drop_last(), registry) + if nodes.last().id.source_id@ == registry {
            1nat
        } else {
            0nat
        }
    }
}

/// Every resolved package from a registry is among the registry's packages, each version of a
/// crate included, and there are exactly as many as the resolve holds from it.
pub proof fn lemma_registry_ids_complete(nodes: Seq<ResolveNode>, registry: Seq<char>)
    ensures
        forall|k: int|
            0 <= k < nodes.len() && (#[trigger] nodes[k]).id.source_id@ == registry ==> registry_ids(
                nodes,
                registry,
            ).contains(nodes[k].id),
        registry_ids(nodes, registry).len() == count_from(nodes, registry),
    decreases nodes.len(),
{
    if nodes.len() > 0 {
        let d = nodes.drop_last();
        lemma_registry_ids_complete(d, registry);
        let rest = registry_ids(d, registry);
        let all = registry_ids(nodes, registry);
        assert forall|k: int|
            0 <= k < nodes.len() && (#[trigger] nodes[k]).id.source_id@ == registry implies all.contains(nodes[k].id) by {
            if k < nodes.len() - 1 {
                assert(d[k] == nodes[k]);
                let m = choose|m: int| 0 <= m < rest.len() && rest[m] == nodes[k].id;
                assert(all[m] == rest[m]);
            } else {
                assert(all.last() == nodes[k].id);
            }
        }
    }
}

/// Every resolved package of the chosen registry is planned, whatever its name or version.
pub proof fn lemma_every_registry_package_planned(planner: BuildPlanner, plan: ResolvedPlan, default_registry: Seq<char>)
    ensures
        forall|k: int|
            0 <= k < plan.resolve.nodes@.len() && (#[trigger] plan.resolve.nodes@[k]).id.source_id@ == chosen_registry(
                planner,
                default_registry,
            ) ==> planned_ids(planner, plan, default_registry).contains(plan.resolve.nodes@[k].id),
        planned_ids(planner, plan, default_registry).len() == count_from(
            plan.resolve.nodes@,
            chosen_registry(planner, default_registry),
        ),
{
    broadcast use vstd::seq_lib::group_to_multiset_ensures;

    let reg = chosen_registry(planner, default_registry);
    let nodes = plan.resolve.nodes@;
    lemma_registry_ids_complete(nodes, reg);
    lemma_planned_ids_by_name(planner, plan, default_registry);
    let s = registry_ids(nodes, reg);
    let p = planned_ids(planner, plan, default_registry);
    assert(p.to_multiset().len() == s.to_multiset().len());
    assert forall|k: int|
        0 <= k < nodes.len() && (#[trigger] nodes[k]).id.source_id@ == reg implies p.contains(nodes[k].id) by {
        assert(s.contains(nodes[k].id));
        assert(s.to_multiset().count(nodes[k].id) > 0);
    }
}

/// Some declared dependency of kind `kind` that applies to the platform is named `name`.
pub open spec fn declares(deps: Seq<Dependency>, applies: Seq<bool>, kind: DependencyKind, name: Seq<char>) -> bool {
    exists|i: int| 0 <= i < deps.len() && applies[i] && deps[i].kind == kind && deps[i].name@ == name
}

/// A declared dependency that applies to the platform and is of kind `kind` has its name among
/// the names taken for `kind`, and every name taken is that of such a dependency.
pub proof fn lemma_kinded_names_members(deps: Seq<Dependency>, applies: Seq<bool>, kind: DependencyKind)
    requires
        applies.len() == deps.len(),
    ensures
        forall|i: int|
            0 <= i < deps.len() && applies[i] && (#[trigger] deps[i]).kind == kind ==> kinded_names(
                deps,
                applies,
                kind,
            ).contains(deps[i].name@),
        forall|m: int|
            0 <= m < kinded_names(deps, applies, kind).len() ==> declares(
                deps,
                applies,
                kind,
                #[trigger] kinded_names(deps, applies, kind)[m],
            ),
    decreases deps.len(),
{
    if deps.len() > 0 {
        let d = deps.drop_last();
        let a = applies.drop_last();
        lemma_kinded_names_members(d, a, kind);
        let rest = kinded_names(d, a, kind);
        let all = kinded_names(deps, applies, kind);
        assert forall|i: int|
            0 <= i < deps.len() && applies[i] && (#[trigger] deps[i]).kind == kind implies all.contains(deps[i].name@) by {
            if i < deps.len() - 1 {
                assert(d[i] == deps[i] && a[i] == applies[i]);
                let m = choose|m: int| 0 <= m < rest.len() && rest[m] == deps[i].name@;
                assert(all[m] == rest[m]);
            } else {
                assert(all.last() == deps[i].name@);
            }
        }
        assert forall|m: int| 0 <= m < all.len() implies declares(deps, applies, kind, #[trigger] all[m]) by {
            if m < rest.len() {
                assert(all[m] == rest[m]);
                assert(declares(d, a, kind, rest[m]));
                let i = choose|i: int| 0 <= i < d.len() && a[i] && d[i].kind == kind && d[i].name@ == rest[m];
                assert(deps[i] == d[i] && applies[i] == a[i]);
                assert(0 <= i < deps.len() && applies[i] && deps[i].kind == kind && deps[i].name@ == all[m]);
            } else {
                let i = deps.len() - 1;
                assert(all[m] == deps[i].name@);
                assert(0 <= i < deps.len() && applies[i] && deps[i].kind == kind && deps[i].name@ == all[m]);
            }
        }
    }
}

proof fn lemma_kinded_names_same_names(d1: Seq<Dependency>, d2: Seq<Dependency>, applies: Seq<bool>, kind: DependencyKind)
    requires
        d1.len() == d2.len(),
        forall|i: int| 0 <= i < d1.len() ==> (#[trigger] d1[i]).name@ == d2[i].name@ && d1[i].kind == d2[i].kind,
    ensures
        kinded_names(d1, applies, kind) == kinded_names(d2, applies, kind),
    decreases d1.len(),
{
    if d1.len() > 0 {
        assert forall|i: int| 0 <= i < d1.drop_last().len() implies (#[trigger] d1.drop_last()[i]).name@
            == d2.drop_last()[i].name@ && d1.drop_last()[i].kind == d2.drop_last()[i].kind by {
            assert(d1.drop_last()[i] == d1[i] && d2.drop_last()[i] == d2[i]);
        }
        lemma_kinded_names_same_names(d1.drop_last(), d2.drop_last(), applies.drop_last(), kind);
        assert(d1.last() == d1[d1.len() - 1]);
    }
}

/// A declared dependency whose platform matches the target is planned exactly as if it had no
/// platform: dropping its platform changes none of the planned dependencies.
pub proof fn lemma_matched_dependency_as_unrestricted(
    resolved: Seq<PackageId>,
    deps: Seq<Dependency>,
    k: int,
    triple: Seq<char>,
    cfgs: Seq<Cfg>,
)
    requires
        0 <= k < deps.len(),
        deps[k].platform is Some,
        platform_applies(deps[k].platform->0, triple, cfgs),
    ensures
        ({
            let free = deps.update(
                k,
                Dependency {
                    name: deps[k].name,
                    version_req: deps[k].version_req,
                    kind: deps[k].kind,
                    platform: None,
                },
            );
            forall|pd: PlannedDeps|
                #[trigger] planned_deps_are(pd, resolved, deps, applicability(deps, triple, cfgs))
                    == planned_deps_are(pd, resolved, free, applicability(free, triple, cfgs))
        }),
{
    let free = deps.update(
        k,
        Dependency { name: deps[k].name, version_req: deps[k].version_req, kind: deps[k].kind, platform: None },
    );
    let a1 = applicability(deps, triple, cfgs);
    let a2 = applicability(free, triple, cfgs);
    assert(a1 =~= a2);
    assert forall|i: int| 0 <= i < deps.len() implies (#[trigger] deps[i]).name@ == free[i].name@ && deps[i].kind
        == free[i].kind by {}
    lemma_kinded_names_same_names(deps, free, a1, DependencyKind::Normal);
    lemma_kinded_names_same_names(deps, free, a1, DependencyKind::Build);
    lemma_kinded_names_same_names(deps, free, a1, DependencyKind::Development);
    lemma_planned_of_kind_names(resolved, deps, a1, free, a2, DependencyKind::Normal);
    lemma_planned_of_kind_names(resolved, deps, a1, free, a2, DependencyKind::Build);
    lemma_planned_of_kind_names(resolved, deps, a1, free, a2, DependencyKind::Development);
}

} // verus!
