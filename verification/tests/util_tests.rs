use cargo_raze::platform::{parse_cfg, platform_matches, split_lines};
use cargo_raze::resolve::{PackageId, PackageSet, Resolve, ResolveNode};
use cargo_raze::resolver::CargoDependencyResolver;
use cargo_raze::planning::RazeError;
use cargo_raze::settings::{default_gen_buildrs, default_gen_workspace_prefix, default_genmode, default_target, GenMode};
use cargo_raze::util::{parse_platform_attrs, try_parse_platform_attrs, LogLevel, OkButLog};

const RUSTC_CFG: &str = "debug_assertions\ntarget_arch=\"x86_64\"\ntarget_os=\"linux\"\ntarget_family=\"unix\"\nunix\n";

#[test]
fn lines_are_split_like_str_lines() {
    assert_eq!(split_lines("a\r\nb\n\nc"), vec!["a", "b", "", "c"]);
    assert_eq!(split_lines("one\n"), vec!["one"]);
    assert!(split_lines("").is_empty());
    assert_eq!(split_lines("\n"), vec![""]);
}

#[test]
fn rustc_cfg_output_parses() {
    let attrs = parse_platform_attrs(RUSTC_CFG);
    assert_eq!(attrs.len(), 5);
    assert_eq!(attrs[4], "unix".parse().unwrap());
    assert_eq!(attrs[2], "target_os = \"linux\"".parse().unwrap());
    let tried = try_parse_platform_attrs(RUSTC_CFG).unwrap();
    assert_eq!(tried, attrs);
}

#[test]
fn bad_cfg_output_is_refused() {
    assert!(try_parse_platform_attrs("unix\nnot valid!!\n").is_none());
    assert!(parse_cfg("not valid!!").is_err());
    assert!(parse_cfg("unix").is_ok());
}

#[test]
fn platforms_match_their_cfgs() {
    let attrs = parse_platform_attrs(RUSTC_CFG);
    let unix: cargo_platform::Platform = "cfg(unix)".parse().unwrap();
    let windows: cargo_platform::Platform = "cfg(windows)".parse().unwrap();
    assert!(platform_matches(&unix, "x86_64-unknown-linux-gnu", &attrs));
    assert!(!platform_matches(&windows, "x86_64-unknown-linux-gnu", &attrs));
}

#[test]
fn ok_but_log_keeps_successes() {
    let ok: Result<u32, String> = Ok(3);
    let err: Result<u32, String> = Err("boom".to_string());
    assert_eq!(ok.clone().ok_but_error(), Some(3));
    assert_eq!(ok.clone().ok_but_warn(), Some(3));
    assert_eq!(ok.clone().ok_but_info(), Some(3));
    assert_eq!(ok.clone().ok_but_debug(), Some(3));
    assert_eq!(ok.clone().ok_but(LogLevel::Trace), Some(3));
    assert_eq!(ok.ok_but_trace(), Some(3));
    assert_eq!(err.clone().ok_but_error(), None);
    assert_eq!(err.ok_but_warn(), None);
}

#[test]
fn settings_defaults() {
    assert_eq!(default_target(), "x86_64-unknown-linux-gnu");
    assert_eq!(default_gen_workspace_prefix(), "raze");
    assert_eq!(default_genmode(), GenMode::Vendored);
    assert!(!default_gen_buildrs());
}

fn id(name: &str) -> PackageId {
    PackageId { name: name.to_string(), version: "1.0.0".to_string(), source_id: "src".to_string() }
}

#[test]
fn direct_resolution_needs_the_root_crate() {
    let resolve = Resolve {
        nodes: vec![ResolveNode { id: id("root"), features: Vec::new(), deps: Vec::new() }],
    };
    let packages = PackageSet { packages: Vec::new() };
    let resolver = CargoDependencyResolver;
    let r = resolver.resolve_directly("x86_64-unknown-linux-gnu", &Vec::new(), "missing", &packages, &resolve);
    assert!(matches!(r, Err(RazeError::RootCrateNotInResolve)));
    let w = resolver.resolve_directly("x86_64-unknown-linux-gnu", &Vec::new(), "root", &packages, &resolve).unwrap();
    assert!(w.crates.is_empty());
    let names = vec!["root".to_string()];
    let w = resolver.resolve_using_network("x86_64-unknown-linux-gnu", &Vec::new(), &names, &packages, &resolve).unwrap();
    assert!(w.crates.is_empty());
}
