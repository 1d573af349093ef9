use cargo_raze::workspace::{parse_toml, parse_workspace_files};

const MANIFEST: &str = "[package]\nname = \"compile_with_bazel\"\nversion = \"0.1.0\"\n\n[dependencies]\nlog = \"0.3.6\"\n";

#[test]
fn workspace_documents_come_from_the_manifest() {
    let (manifest, lock) = parse_workspace_files(MANIFEST).unwrap();
    assert_eq!(manifest["package"]["name"].as_str(), Some("compile_with_bazel"));
    assert_eq!(manifest["dependencies"]["log"].as_str(), Some("0.3.6"));
    assert_eq!(lock, manifest);
    assert_eq!(manifest, parse_toml(MANIFEST).unwrap());
}

#[test]
fn manifests_that_are_not_toml_are_refused() {
    assert!(parse_workspace_files("[package").is_err());
    assert!(parse_workspace_files("name = ").is_err());
    assert!(parse_toml("a = 1").is_ok());
}
