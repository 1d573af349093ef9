use cargo_platform::{Cfg, Platform};
use cargo_raze::planning::{
    find_all_package_ids, identify_targets, kind_to_kinds, platform_applicability,
    take_kinded_dep_names, BuildPlanner, PlannedDeps, RazeError, ResolvedPlan,
};
use cargo_raze::resolve::{
    CargoPackage, CargoTarget, Dependency, DependencyKind, PackageId, PackageSet, Resolve,
    ResolveNode, TargetKind,
};

const REGISTRY: &str = "registry+https://github.com/rust-lang/crates.io-index";
const TRIPLE: &str = "x86_64-unknown-linux-gnu";

fn id(name: &str, version: &str, source: &str) -> PackageId {
    PackageId { name: name.to_string(), version: version.to_string(), source_id: source.to_string() }
}

fn reg_id(name: &str, version: &str) -> PackageId {
    id(name, version, REGISTRY)
}

fn root_id() -> PackageId {
    id("compile_with_bazel", "0.1.0", "path+file:///ws")
}

fn lib_target(name: &str, src_path: &str) -> CargoTarget {
    CargoTarget { name: name.to_string(), kind: TargetKind::Lib(vec!["lib".to_string()]), src_path: src_path.to_string() }
}

fn dep(name: &str, kind: DependencyKind, platform: Option<Platform>) -> Dependency {
    Dependency { name: name.to_string(), version_req: "*".to_string(), kind, platform }
}

fn vendored_package(name: &str, version: &str, dependencies: Vec<Dependency>) -> CargoPackage {
    CargoPackage {
        id: reg_id(name, version),
        dependencies,
        targets: vec![lib_target(name, &format!("/ws/vendor/{}-{}/src/lib.rs", name, version))],
    }
}

fn node(id: PackageId, features: &[&str], deps: Vec<PackageId>) -> ResolveNode {
    ResolveNode { id, features: features.iter().map(|f| f.to_string()).collect(), deps }
}

fn unix_attrs() -> Vec<Cfg> {
    vec!["unix".parse::<Cfg>().unwrap(), "target_os = \"linux\"".parse::<Cfg>().unwrap()]
}

/// The root crate depends on `zeta` and `alpha`; `zeta` depends on `alpha`.
fn two_crate_plan() -> ResolvedPlan {
    let alpha = vendored_package("alpha", "1.0.0", Vec::new());
    let zeta = vendored_package("zeta", "2.0.0", vec![dep("alpha", DependencyKind::Normal, None)]);
    ResolvedPlan {
        root_name: "compile_with_bazel".to_string(),
        packages: PackageSet { packages: vec![zeta, alpha] },
        resolve: Resolve {
            nodes: vec![
                node(root_id(), &[], vec![reg_id("zeta", "2.0.0")]),
                node(reg_id("zeta", "2.0.0"), &["use_std", "default"], vec![reg_id("alpha", "1.0.0")]),
                node(reg_id("alpha", "1.0.0"), &[], Vec::new()),
            ],
        },
    }
}

fn vendored_both() -> Vec<String> {
    vec!["./vendor/alpha-1.0.0/".to_string(), "./vendor/zeta-2.0.0/".to_string()]
}

fn planner() -> BuildPlanner {
    BuildPlanner::new("//cargo".to_string(), TRIPLE.to_string(), unix_attrs())
}

#[test]
fn plan_lists_crates_by_name() {
    let planned = planner().plan_build(&two_crate_plan(), REGISTRY, true, &vendored_both()).unwrap();
    let names: Vec<&str> = planned.crate_contexts.iter().map(|c| c.pkg_name.as_str()).collect();
    assert_eq!(names, vec!["alpha", "zeta"]);
    assert_eq!(planned.workspace_context.workspace_prefix, "//cargo");
    assert_eq!(planned.workspace_context.platform_triple, TRIPLE);
    assert!(planned.workspace_context.crates.is_empty());
}

#[test]
fn planned_crate_carries_its_resolve() {
    let planned = planner().plan_build(&two_crate_plan(), REGISTRY, true, &vendored_both()).unwrap();
    let zeta = &planned.crate_contexts[1];
    assert_eq!(zeta.pkg_version, "2.0.0");
    assert_eq!(zeta.features, vec!["default".to_string(), "use_std".to_string()]);
    assert_eq!(zeta.dependencies.len(), 1);
    assert_eq!(zeta.dependencies[0].name, "alpha");
    assert_eq!(zeta.dependencies[0].version, "1.0.0");
    assert!(zeta.build_dependencies.is_empty());
    assert!(zeta.dev_dependencies.is_empty());
    assert!(zeta.is_root_dependency);
    assert_eq!(zeta.path, "./vendor/zeta-2.0.0/");
    assert_eq!(zeta.platform_triple, TRIPLE);
    assert_eq!(zeta.targets.len(), 1);
    assert_eq!(zeta.targets[0].name, "zeta");
    assert_eq!(zeta.targets[0].kind, "lib");
    assert_eq!(zeta.targets[0].path, "src/lib.rs");
    assert!(zeta.build_script_target.is_none());
    let alpha = &planned.crate_contexts[0];
    assert!(!alpha.is_root_dependency);
}

#[test]
fn plan_fails_without_the_root_crate() {
    let mut plan = two_crate_plan();
    plan.root_name = "not_here".to_string();
    let r = planner().plan_build(&plan, REGISTRY, true, &vendored_both());
    assert!(matches!(r, Err(RazeError::RootCrateNotInResolve)));
}

#[test]
fn plan_fails_without_a_lockfile() {
    let r = planner().plan_build(&two_crate_plan(), REGISTRY, false, &vendored_both());
    assert!(matches!(r, Err(RazeError::MissingLockfile)));
}

#[test]
fn plan_fails_for_a_crate_not_vendored() {
    let r = planner().plan_build(&two_crate_plan(), REGISTRY, true, &vec!["./vendor/alpha-1.0.0/".to_string()]);
    match r {
        Err(RazeError::MissingVendorDirectory { path }) => assert_eq!(path, "./vendor/zeta-2.0.0/"),
        other => panic!("unexpected {:?}", other.err()),
    }
}

#[test]
fn plan_fails_for_a_target_outside_the_vendor_directory() {
    let mut plan = two_crate_plan();
    plan.packages.packages[1].targets = vec![lib_target("alpha", "/elsewhere/src/lib.rs")];
    let r = planner().plan_build(&plan, REGISTRY, true, &vendored_both());
    match r {
        Err(RazeError::TargetOutsideVendor { full_name, target_name }) => {
            assert_eq!(full_name, "alpha-1.0.0");
            assert_eq!(target_name, "alpha");
        },
        other => panic!("unexpected {:?}", other.err()),
    }
}

#[test]
fn plan_of_another_registry_skips_crates_io() {
    let mut p = planner();
    p.set_registry_from_url("https://example.com".to_string()).unwrap();
    let planned = p.plan_build(&two_crate_plan(), REGISTRY, true, &Vec::new()).unwrap();
    assert!(planned.crate_contexts.is_empty());
}

#[test]
fn build_scripts_are_kept_apart() {
    let mut plan = two_crate_plan();
    plan.packages.packages[1].targets.push(CargoTarget {
        name: "build-script-build".to_string(),
        kind: TargetKind::CustomBuild,
        src_path: "/ws/vendor/alpha-1.0.0/build.rs".to_string(),
    });
    let planned = planner().plan_build(&plan, REGISTRY, true, &vendored_both()).unwrap();
    let alpha = &planned.crate_contexts[0];
    assert_eq!(alpha.targets.len(), 1);
    assert_eq!(alpha.targets[0].kind, "lib");
    let script = alpha.build_script_target.as_ref().unwrap();
    assert_eq!(script.name, "build-script-build");
    assert_eq!(script.kind, "custom-build");
    assert_eq!(script.path, "build.rs");
}

#[test]
fn registry_urls_are_parsed() {
    let mut p = planner();
    assert!(p.set_registry_from_url("https://example.com".to_string()).is_ok());
    assert_eq!(p.registry, Some("registry+https://example.com/".to_string()));
    match p.set_registry_from_url("not a url".to_string()) {
        Err(e @ RazeError::InvalidRegistryUrl { .. }) => {
            assert_eq!(e.message(), "invalid url `not a url`: relative URL without a base");
            if let RazeError::InvalidRegistryUrl { host, reason } = e {
                assert_eq!(host, "not a url");
                assert_eq!(reason, "relative URL without a base");
            }
        },
        other => panic!("unexpected {:?}", other),
    }
    assert_eq!(p.registry, Some("registry+https://example.com/".to_string()));
    assert_eq!(p.workspace_prefix, "//cargo");
}

#[test]
fn new_planner_uses_crates_io() {
    let p = planner();
    assert!(p.registry.is_none());
    assert_eq!(p.platform_triple, TRIPLE);
    assert_eq!(p.platform_attrs.len(), 2);
}

#[test]
fn package_ids_come_sorted_from_the_registry() {
    let plan = two_crate_plan();
    let ids = find_all_package_ids(REGISTRY, &plan.resolve, true).unwrap();
    let names: Vec<&str> = ids.iter().map(|i| i.name.as_str()).collect();
    assert_eq!(names, vec!["alpha", "zeta"]);
    assert!(ids.iter().all(|i| i.source_id == REGISTRY));
    assert!(matches!(find_all_package_ids(REGISTRY, &plan.resolve, false), Err(RazeError::MissingLockfile)));
    assert!(find_all_package_ids("registry+https://example.com/", &plan.resolve, true).unwrap().is_empty());
}

#[test]
fn targets_are_relative_to_the_vendored_crate() {
    let pkg = CargoPackage {
        id: reg_id("log", "0.3.9"),
        dependencies: Vec::new(),
        targets: vec![
            CargoTarget {
                name: "log".to_string(),
                kind: TargetKind::Lib(vec!["lib".to_string(), "rlib".to_string()]),
                src_path: "/ws/vendor/log-0.3.9/src/lib.rs".to_string(),
            },
            CargoTarget { name: "tool".to_string(), kind: TargetKind::Bin, src_path: "/ws/vendor/log-0.3.9/src/main.rs".to_string() },
        ],
    };
    let targets = identify_targets("log-0.3.9", &pkg).unwrap();
    let keys: Vec<(&str, &str, &str)> =
        targets.iter().map(|t| (t.name.as_str(), t.kind.as_str(), t.path.as_str())).collect();
    assert_eq!(
        keys,
        vec![("log", "lib", "src/lib.rs"), ("log", "rlib", "src/lib.rs"), ("tool", "bin", "src/main.rs")]
    );
    match identify_targets("log-0.4.0", &pkg) {
        Err(RazeError::TargetOutsideVendor { full_name, target_name }) => {
            assert_eq!(full_name, "log-0.4.0");
            assert_eq!(target_name, "log");
        },
        other => panic!("unexpected {:?}", other.err()),
    }
}

#[test]
fn target_kinds_are_named() {
    assert_eq!(kind_to_kinds(&TargetKind::Lib(vec!["lib".to_string(), "dylib".to_string()])), vec!["lib", "dylib"]);
    assert_eq!(kind_to_kinds(&TargetKind::Bin), vec!["bin"]);
    assert_eq!(kind_to_kinds(&TargetKind::Test), vec!["test"]);
    assert_eq!(kind_to_kinds(&TargetKind::Bench), vec!["bench"]);
    assert_eq!(kind_to_kinds(&TargetKind::ExampleLib(vec!["lib".to_string()])), vec!["example"]);
    assert_eq!(kind_to_kinds(&TargetKind::ExampleBin), vec!["example"]);
    assert_eq!(kind_to_kinds(&TargetKind::CustomBuild), vec!["custom-build"]);
}

#[test]
fn dependency_names_are_taken_by_kind() {
    let deps = vec![
        dep("a", DependencyKind::Normal, None),
        dep("b", DependencyKind::Build, None),
        dep("c", DependencyKind::Normal, None),
        dep("d", DependencyKind::Development, None),
    ];
    let applies = vec![true, true, false, true];
    assert_eq!(take_kinded_dep_names(&deps, &applies, DependencyKind::Normal), vec!["a"]);
    assert_eq!(take_kinded_dep_names(&deps, &applies, DependencyKind::Build), vec!["b"]);
    assert_eq!(take_kinded_dep_names(&deps, &applies, DependencyKind::Development), vec!["d"]);
}

#[test]
fn platform_specific_dependencies_follow_the_platform() {
    let deps = vec![
        dep("libc", DependencyKind::Normal, Some("cfg(unix)".parse::<Platform>().unwrap())),
        dep("winapi", DependencyKind::Normal, Some("cfg(windows)".parse::<Platform>().unwrap())),
        dep("log", DependencyKind::Normal, None),
        dep("exact", DependencyKind::Normal, Some(TRIPLE.parse::<Platform>().unwrap())),
    ];
    assert_eq!(platform_applicability(&deps, TRIPLE, &unix_attrs()), vec![true, false, true, true]);
}

#[test]
fn planned_deps_split_the_resolve_by_kind() {
    let pkg = vendored_package(
        "zeta",
        "2.0.0",
        vec![
            dep("alpha", DependencyKind::Normal, None),
            dep("cc", DependencyKind::Build, None),
            dep("winapi", DependencyKind::Normal, Some("cfg(windows)".parse::<Platform>().unwrap())),
            dep("quickcheck", DependencyKind::Development, None),
        ],
    );
    let resolve = Resolve {
        nodes: vec![node(
            reg_id("zeta", "2.0.0"),
            &[],
            vec![reg_id("winapi", "0.2.8"), reg_id("cc", "1.0.0"), reg_id("alpha", "1.0.0"), reg_id("quickcheck", "0.4.1")],
        )],
    };
    let planned = PlannedDeps::find_all_deps(&reg_id("zeta", "2.0.0"), &pkg, &resolve, TRIPLE, &unix_attrs());
    let names = |v: &Vec<cargo_raze::context::BuildDependency>| -> Vec<(String, String)> {
        v.iter().map(|d| (d.name.clone(), d.version.clone())).collect()
    };
    assert_eq!(names(&planned.normal_deps), vec![("alpha".to_string(), "1.0.0".to_string())]);
    assert_eq!(names(&planned.build_deps), vec![("cc".to_string(), "1.0.0".to_string())]);
    assert_eq!(names(&planned.dev_deps), vec![("quickcheck".to_string(), "0.4.1".to_string())]);
    let absent = PlannedDeps::find_all_deps(&reg_id("other", "1.0.0"), &pkg, &resolve, TRIPLE, &unix_attrs());
    assert!(absent.normal_deps.is_empty());
}

#[test]
fn selected_deps_keep_resolve_order() {
    let deps = vec![dep("b", DependencyKind::Normal, None), dep("a", DependencyKind::Normal, None)];
    let applies = vec![true, true];
    let resolved = vec![reg_id("a", "1.0.0"), reg_id("x", "1.0.0"), reg_id("b", "2.0.0")];
    let planned = PlannedDeps::select(&deps, &applies, &resolved);
    let names: Vec<&str> = planned.normal_deps.iter().map(|d| d.name.as_str()).collect();
    assert_eq!(names, vec!["a", "b"]);
}

#[test]
fn errors_explain_themselves() {
    assert_eq!(RazeError::RootCrateNotInResolve.message(), "root crate should be in cargo resolve");
    assert_eq!(
        RazeError::MissingLockfile.message(),
        "failed to find Cargo.lock. Please run `cargo generate-lockfile` first."
    );
    assert_eq!(
        RazeError::MissingVendorDirectory { path: "./vendor/log-0.3.9/".to_string() }.message(),
        "failed to find ./vendor/log-0.3.9/. Please run `cargo vendor -x` first."
    );
    assert_eq!(
        RazeError::TargetOutsideVendor { full_name: "log-0.3.9".to_string(), target_name: "log".to_string() }.message(),
        "path for log-0.3.9's target log should have been in vendor directory"
    );
}

#[test]
fn plan_of_another_registry_takes_its_crates() {
    let source = "registry+https://example.com/";
    let mut plan = two_crate_plan();
    plan.resolve.nodes[2].id.source_id = source.to_string();
    plan.packages.packages[1].id.source_id = source.to_string();
    plan.resolve.nodes[1].deps[0].source_id = source.to_string();
    let mut p = planner();
    p.set_registry_from_url("https://example.com".to_string()).unwrap();
    let planned = p.plan_build(&plan, REGISTRY, true, &vendored_both()).unwrap();
    let names: Vec<&str> = planned.crate_contexts.iter().map(|c| c.pkg_name.as_str()).collect();
    assert_eq!(names, vec!["alpha"]);
}

#[test]
fn unmatched_platform_dependencies_change_nothing() {
    let base = vec![dep("alpha", DependencyKind::Normal, None), dep("cc", DependencyKind::Build, None)];
    let mut extended = base.clone();
    extended.insert(1, dep("winapi", DependencyKind::Normal, Some("cfg(windows)".parse::<Platform>().unwrap())));
    let resolve = Resolve {
        nodes: vec![node(
            reg_id("zeta", "2.0.0"),
            &[],
            vec![reg_id("winapi", "0.2.8"), reg_id("cc", "1.0.0"), reg_id("alpha", "1.0.0")],
        )],
    };
    let names = |v: &Vec<cargo_raze::context::BuildDependency>| -> Vec<String> { v.iter().map(|d| d.name.clone()).collect() };
    let a = PlannedDeps::find_all_deps(&reg_id("zeta", "2.0.0"), &vendored_package("zeta", "2.0.0", base), &resolve, TRIPLE, &unix_attrs());
    let b = PlannedDeps::find_all_deps(&reg_id("zeta", "2.0.0"), &vendored_package("zeta", "2.0.0", extended), &resolve, TRIPLE, &unix_attrs());
    assert_eq!(names(&a.normal_deps), names(&b.normal_deps));
    assert_eq!(names(&a.build_deps), names(&b.build_deps));
    assert_eq!(names(&a.dev_deps), names(&b.dev_deps));
    assert_eq!(names(&b.normal_deps), vec!["alpha".to_string()]);
}
