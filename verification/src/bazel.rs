//! The crate description that BUILD files are written from, and the BUILD file itself.
use vstd::prelude::*;
use crate::context::BuildDependency;
use crate::resolve::PackageId;

verus! {

/// A target of a vendored crate, with every kind it is built as.
#[derive(Clone, Debug)]
pub struct Target {
    pub name: String,
    pub kinds: Vec<String>,
    pub path: String,
}

/// A vendored crate as the BUILD file writer sees it.
#[derive(Clone, Debug)]
pub struct Package {
    pub id: PackageId,
    /// `{name}-{version}`.
    pub full_name: String,
    /// The crate's directory, ending in `/`.
    pub path: String,
    pub targets: Vec<Target>,
    pub features: Vec<String>,
    pub dependencies: Vec<BuildDependency>,
    pub build_dependencies: Vec<BuildDependency>,
    pub is_root_dependency: bool,
}

/// A BUILD file: where it goes, its header, its `load` statements and its rules.
#[derive(Clone, Debug)]
pub struct BuildFile {
    pub path: String,
    pub prelude: String,
    /// Distinct `load` statements.
    pub load_statements: Vec<String>,
    pub build_rules: Vec<String>,
}

impl BuildFile {
    /// Assembles a BUILD file from its parts.
    pub fn new(path: String, prelude: String, load_statements: Vec<String>, build_rules: Vec<String>) -> (r: BuildFile)
        ensures
            r.path == path,
            r.prelude == prelude,
            r.load_statements == load_statements,
            r.build_rules == build_rules,
    {
        BuildFile { path, prelude, load_statements, build_rules }
    }
}

} // verus!
