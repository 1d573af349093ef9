use cargo_raze::context::{BuildTarget, CrateContext, WorkspaceContext};
use cargo_raze::planning::PlannedBuild;
use cargo_raze::rendering::{planned_build_file_paths, RenderDetails};

fn dummy_render_details() -> RenderDetails {
    RenderDetails { path_prefix: "./some_render_prefix".to_owned() }
}

fn dummy_planned_build(crate_contexts: Vec<CrateContext>) -> PlannedBuild {
    PlannedBuild {
        workspace_context: WorkspaceContext {
            crates: Vec::new(),
            workspace_prefix: "//workspace/prefix".to_owned(),
            platform_triple: "irrelevant".to_owned(),
        },
        crate_contexts,
    }
}

fn dummy_library_crate() -> CrateContext {
    CrateContext {
        pkg_name: "test-library".to_owned(),
        pkg_version: "1.1.1".to_owned(),
        features: vec!["feature1".to_owned(), "feature2".to_owned()],
        path: "vendor/test-library-1.1.1/".to_owned(),
        dependencies: Vec::new(),
        build_dependencies: Vec::new(),
        dev_dependencies: Vec::new(),
        is_root_dependency: true,
        platform_triple: "irrelevant".to_owned(),
        targets: vec![BuildTarget { name: "some_library".to_owned(), kind: "lib".to_owned(), path: "path/lib.rs".to_owned() }],
        build_script_target: None,
    }
}

fn sorted(mut v: Vec<String>) -> Vec<String> {
    v.sort();
    v
}

#[test]
fn all_plans_contain_root_build_file() {
    let file_names = planned_build_file_paths(&dummy_render_details(), &dummy_planned_build(Vec::new()));
    assert_eq!(file_names, vec!["./some_render_prefix/vendor/BUILD".to_string()]);
}

#[test]
fn crates_generate_build_files() {
    let file_names = planned_build_file_paths(&dummy_render_details(), &dummy_planned_build(vec![dummy_library_crate()]));
    assert_eq!(
        sorted(file_names),
        sorted(vec![
            "./some_render_prefix/vendor/BUILD".to_string(),
            "./some_render_prefix/vendor/test-library-1.1.1/BUILD".to_string()
        ])
    );
}

#[test]
fn crate_build_files_come_first_in_plan_order() {
    let mut other = dummy_library_crate();
    other.path = "vendor/other-2.0.0/".to_owned();
    let file_names = planned_build_file_paths(&dummy_render_details(), &dummy_planned_build(vec![dummy_library_crate(), other]));
    assert_eq!(
        file_names,
        vec![
            "./some_render_prefix/vendor/test-library-1.1.1/BUILD".to_string(),
            "./some_render_prefix/vendor/other-2.0.0/BUILD".to_string(),
            "./some_render_prefix/vendor/BUILD".to_string(),
        ]
    );
}
