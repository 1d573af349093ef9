use cargo_raze::bazel::{Package, Target};
use cargo_raze::context::BuildDependency;
use cargo_raze::files::{
    crate_bzl_file_contents, generate_crate_build_file, override_bzl_file_contents,
    vendor_build_file_contents, workspace_bzl_file_contents, BExpr, BzlMap, BzlSet, Named, ToBExpr,
};
use cargo_raze::resolve::PackageId;

const TRIPLE: &str = "x86_64-unknown-linux-gnu";

fn target(name: &str, kinds: &[&str], path: &str) -> Target {
    Target {
        name: name.to_string(),
        kinds: kinds.iter().map(|k| k.to_string()).collect(),
        path: path.to_string(),
    }
}

fn package(name: &str, version: &str, targets: Vec<Target>, is_root: bool) -> Package {
    Package {
        id: PackageId {
            name: name.to_string(),
            version: version.to_string(),
            source_id: "registry+https://github.com/rust-lang/crates.io-index".to_string(),
        },
        full_name: format!("{}-{}", name, version),
        path: format!("./vendor/{}-{}/", name, version),
        targets,
        features: vec!["use_std".to_string(), "default".to_string()],
        dependencies: vec![BuildDependency { name: "log".to_string(), version: "0.3.9".to_string() }],
        build_dependencies: vec![BuildDependency { name: "cc".to_string(), version: "1.0.0".to_string() }],
        is_root_dependency: is_root,
    }
}

fn library_crate() -> Package {
    package("test-library", "1.1.1", vec![target("test-library", &["lib"], "src/lib.rs")], true)
}

#[test]
fn scalars_print_as_starlark() {
    assert_eq!(BExpr::Bool(true).pretty_print(), "True");
    assert_eq!(BExpr::Bool(false).pretty_print(), "False");
    assert_eq!(BExpr::Optional(None).pretty_print(), "None");
    assert_eq!(BExpr::Str("x".to_string()).pretty_print(), "\"x\"");
    assert_eq!(BExpr::Optional(Some(Box::new(BExpr::Str("y".to_string())))).pretty_print(), "\"y\"");
}

#[test]
fn empty_collections_print_on_one_line() {
    assert_eq!(BExpr::Tuple(Vec::new()).pretty_print(), "()");
    assert_eq!(BExpr::Array(Vec::new()).pretty_print(), "[]");
    assert_eq!(BExpr::Struct(Vec::new()).pretty_print(), "struct()");
}

#[test]
fn nested_struct_prints_indented() {
    let e = BExpr::Struct(vec![
        ("name".to_string(), BExpr::Str("x".to_string())),
        (
            "deps".to_string(),
            BExpr::Array(vec![BExpr::Str("a".to_string()), BExpr::Str("b".to_string())]),
        ),
    ]);
    assert_eq!(
        e.pretty_print(),
        "struct(\n    name = \"x\",\n    deps = [\n        \"a\",\n        \"b\",\n    ],\n)"
    );
}

#[test]
fn spaced_printing_uses_the_given_indent() {
    let e = BExpr::Tuple(vec![BExpr::Bool(true), BExpr::Optional(None)]);
    assert_eq!(e.pretty_print(), "(\n    True,\n    None,\n)");
    assert_eq!(e.pretty_print_spaced(6), "(\n      True,\n      None,\n  )");
}

#[test]
fn values_convert_to_expressions() {
    assert_eq!(true.to_expr().pretty_print(), "True");
    assert_eq!("s".to_string().to_expr().pretty_print(), "\"s\"");
    let none: Option<String> = None;
    assert_eq!(none.to_expr().pretty_print(), "None");
    assert_eq!(Some(false).to_expr().pretty_print(), "False");
    assert_eq!(("k".to_string(), true).to_expr().pretty_print(), "(\n    \"k\",\n    True,\n)");
}

#[test]
fn string_lists_convert_sorted() {
    let v = vec!["b".to_string(), "a".to_string()];
    assert_eq!(v.to_expr().pretty_print(), "[\n    \"a\",\n    \"b\",\n]");
}

#[test]
fn libraries_get_a_rust_library_rule() {
    let file = generate_crate_build_file(&library_crate(), TRIPLE, "//cargo");
    assert_eq!(file.path, "./vendor/test-library-1.1.1/BUILD");
    assert_eq!(
        file.prelude,
        "\"\"\"\ncargo-raze crate build file.\n\nDO NOT EDIT! Replaced on runs of cargo-raze\n\"\"\"\npackage(default_visibility = [\"//cargo:__subpackages__\"])\n"
    );
    assert_eq!(
        file.load_statements,
        vec!["load(\"@io_bazel_rules_rust//rust:rust.bzl\", \"rust_binary\", \"rust_library\")".to_string()]
    );
    assert_eq!(file.build_rules.len(), 1);
    assert_eq!(
        file.build_rules[0],
        "rust_library(\n    name = \"test_library_x86_64_unknown_linux_gnu\",\n    crate_root = \"src/lib.rs\",\n    srcs = glob([\"lib.rs\", \"src/**/*.rs\"]),\n    deps = [\"//cargo/vendor/log-0.3.9:log_x86_64_unknown_linux_gnu\"],\n    rustc_flags = [\n        \"--cap-lints allow\",\n        \"--target=x86_64-unknown-linux-gnu\"\n    ],\n    out_dir_tar = None,\n    crate_features = [\"default\", \"use_std\"],\n)"
    );
}

#[test]
fn differently_named_libraries_get_an_alias() {
    let pkg = package("test-library", "1.1.1", vec![target("test_lib_core", &["lib"], "src/lib.rs")], true);
    let file = generate_crate_build_file(&pkg, TRIPLE, "//cargo");
    assert_eq!(file.build_rules.len(), 2);
    assert_eq!(
        file.build_rules[0],
        "alias(\n    name = \"test_library_x86_64_unknown_linux_gnu\",\n    actual = \":test_lib_core_x86_64_unknown_linux_gnu\",\n)"
    );
    assert!(file.build_rules[1].starts_with("rust_library(\n    name = \"test_lib_core_x86_64_unknown_linux_gnu\","));
}

#[test]
fn build_scripts_get_a_binary_and_a_runner() {
    let pkg = package(
        "test-library",
        "1.1.1",
        vec![target("build-script-build", &["custom-build"], "build.rs"), target("test-library", &["lib"], "src/lib.rs")],
        true,
    );
    let file = generate_crate_build_file(&pkg, TRIPLE, "//cargo");
    assert_eq!(file.build_rules.len(), 3);
    assert_eq!(
        file.build_rules[0],
        "rust_binary(\n    name = test_library_x86_64_unknown_linux_gnu_build_script\n    srcs = glob([\"*\", \"src/**/*.rs\"]),\n    crate_root = \"build.rs\",\n    deps = [\"//cargo/vendor/cc-1.0.0:cc_x86_64_unknown_linux_gnu\", \"//cargo/vendor/log-0.3.9:log_x86_64_unknown_linux_gnu\"],\n    rustc_flags = [\n        \"--cap-lints allow\",\n        \"--target=x86_64-unknown-linux-gnu\"\n    ],\n    crate_features = [\"default\", \"use_std\"],\n)"
    );
    assert!(file.build_rules[1].starts_with("genrule(\n    name = test_library_x86_64_unknown_linux_gnu_build_script_executor\n"));
    assert!(file.build_rules[1].contains("export CARGO_MANIFEST_DIR=\\\"$$PWD/cargo/vendor/test-library-1.1.1\\\";"));
    assert!(file.build_rules[1].contains("export TARGET='x86_64-unknown-linux-gnu';"));
    assert!(file.build_rules[2].contains("out_dir_tar = \":test_library_x86_64_unknown_linux_gnu_build_script_executor\","));
}

#[test]
fn binaries_alone_get_no_library_rule() {
    let pkg = package("test-binary", "1.1.1", vec![target("test-binary", &["bin"], "src/main.rs")], true);
    let file = generate_crate_build_file(&pkg, TRIPLE, "//cargo");
    assert!(file.build_rules.is_empty());
    assert_eq!(file.path, "./vendor/test-binary-1.1.1/BUILD");
}

#[test]
fn root_crates_get_vendor_aliases() {
    let contents = vendor_build_file_contents(&vec![library_crate()], "//cargo");
    assert!(contents.contains(
        "\nalias(\n    name = \"test-library\",\n    actual = \"//cargo/vendor/test-library-1.1.1:test_library\",\n)\n"
    ));
    assert!(contents.starts_with("\"\"\"\ncargo-raze direct Cargo.toml dependencies."));
    assert!(contents.ends_with(")\n\n"));
}

#[test]
fn non_root_crates_get_no_vendor_alias() {
    let mut pkg = library_crate();
    pkg.is_root_dependency = false;
    let contents = vendor_build_file_contents(&vec![pkg], "//cargo");
    assert!(!contents.contains("alias("));
    assert_eq!(contents, vendor_build_file_contents(&Vec::new(), "//cargo"));
    assert!(contents.ends_with("package(default_visibility = [\"//visibility:public\"])\n\n"));
}

#[test]
fn bzl_files_hold_their_expression() {
    let e = BExpr::Struct(vec![("gen_buildrs".to_string(), BExpr::Bool(false))]);
    assert_eq!(
        crate_bzl_file_contents("log-0.3.9", &e),
        "\"\"\"\ncargo-raze generated details for log-0.3.9.\n\nDO NOT MODIFY! Instead, update CargoOverrides.bzl.\n\"\"\"\ndescription = struct(\n    gen_buildrs = False,\n)\n"
    );
    assert!(override_bzl_file_contents(&e).ends_with("\"\"\"\noverride_cfg = struct(\n    gen_buildrs = False,\n)\n"));
    assert_eq!(
        workspace_bzl_file_contents(&BExpr::Array(Vec::new())),
        "\"\"\"\ncargo-raze vendor-wide workspace file\n\nDO NOT EDIT! Replaced on runs of cargo-raze\n\"\"\"\n\nworkspace = []\n"
    );
}

#[test]
fn maps_print_as_structs_in_name_order() {
    let m = BzlMap::from_entries(vec![
        Named { name: "zeta".to_string(), value: true },
        Named { name: "alpha".to_string(), value: false },
    ])
    .unwrap();
    assert_eq!(m.to_expr().pretty_print(), "struct(\n    alpha = False,\n    zeta = True,\n)");
    let empty: BzlMap<bool> = BzlMap::from_entries(Vec::new()).unwrap();
    assert_eq!(empty.to_expr().pretty_print(), "struct()");
}

#[test]
fn maps_refuse_a_repeated_name() {
    let m = BzlMap::from_entries(vec![
        Named { name: "a".to_string(), value: true },
        Named { name: "b".to_string(), value: true },
        Named { name: "a".to_string(), value: false },
    ]);
    assert!(m.is_none());
}

#[test]
fn sets_print_as_sorted_arrays() {
    let s = BzlSet::from_items(vec!["b".to_string(), "c".to_string(), "a".to_string()]).unwrap();
    assert_eq!(s.to_expr().pretty_print(), "[\n    \"a\",\n    \"b\",\n    \"c\",\n]");
    assert!(BzlSet::from_items(vec!["x".to_string(), "x".to_string()]).is_none());
}

#[test]
fn pairs_sort_by_name_then_value() {
    let v = vec![
        ("b".to_string(), "2".to_string()),
        ("a".to_string(), "9".to_string()),
        ("b".to_string(), "1".to_string()),
    ];
    assert_eq!(
        v.to_expr().pretty_print(),
        "[\n    (\n        \"a\",\n        \"9\",\n    ),\n    (\n        \"b\",\n        \"1\",\n    ),\n    (\n        \"b\",\n        \"2\",\n    ),\n]"
    );
}

#[test]
fn nested_members_indent_four_more() {
    let e = BExpr::Array(vec![BExpr::Tuple(vec![BExpr::Str("x".to_string())])]);
    assert_eq!(e.pretty_print(), "[\n    (\n        \"x\",\n    ),\n]");
    assert_eq!(e.pretty_print(), e.pretty_print_spaced(4));
}

#[test]
fn build_rules_ignore_the_order_of_dependencies_and_features() {
    let pkg = package(
        "test-library",
        "1.1.1",
        vec![target("build-script-build", &["custom-build"], "build.rs"), target("test-library", &["lib"], "src/lib.rs")],
        true,
    );
    let mut shuffled = pkg.clone();
    shuffled.dependencies.push(BuildDependency { name: "aho".to_string(), version: "0.6.0".to_string() });
    shuffled.dependencies.reverse();
    let mut with_aho = pkg.clone();
    with_aho.dependencies.push(BuildDependency { name: "aho".to_string(), version: "0.6.0".to_string() });
    shuffled.features.reverse();
    shuffled.build_dependencies.insert(0, BuildDependency { name: "bindgen".to_string(), version: "0.30.0".to_string() });
    with_aho.build_dependencies.push(BuildDependency { name: "bindgen".to_string(), version: "0.30.0".to_string() });
    let a = generate_crate_build_file(&with_aho, TRIPLE, "//cargo");
    let b = generate_crate_build_file(&shuffled, TRIPLE, "//cargo");
    assert_eq!(a.build_rules, b.build_rules);
    assert!(a.build_rules[2].contains("deps = [\"//cargo/vendor/aho-0.6.0:aho_x86_64_unknown_linux_gnu\", \"//cargo/vendor/log-0.3.9:log_x86_64_unknown_linux_gnu\"]"));
}
