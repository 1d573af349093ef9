//! The `[raze]` section of `Cargo.toml`: where the workspace is, what to build for, and
//! per-crate adjustments.
use vstd::prelude::*;
use std::collections::HashMap;
use crate::text::owned;

verus! {

/// How dependencies are brought into the Bazel workspace.
#[derive(PartialEq, Eq, Structural, Clone, Copy, Debug)]
pub enum GenMode {
    /// Crates are vendored into `vendor/` and BUILD files are written next to them.
    Vendored,
    /// Crates are not vendored; a workspace-level function fetches them.
    Remote,
}

/// The part of `Cargo.toml` that raze reads.
#[derive(Clone, Debug)]
pub struct CargoToml {
    pub raze: RazeSettings,
}

/// The raze settings.
#[derive(Clone, Debug)]
pub struct RazeSettings {
    /// The path to the Cargo.toml working directory.
    pub workspace_path: String,
    /// The target to generate BUILD rules for.
    pub target: String,
    /// Crate-specific configuration, by crate name, then by version.
    pub crates: HashMap<String, HashMap<String, CrateSettings>>,
    /// Prefix for generated Bazel workspaces (remote mode only).
    pub gen_workspace_prefix: String,
    /// How to generate the dependencies.
    pub genmode: GenMode,
}

/// Adjustments of one crate's build.
#[derive(Clone, Debug)]
pub struct CrateSettings {
    /// Dependencies to be added to the crate.
    pub additional_deps: Vec<String>,
    /// Dependencies to be removed from the crate.
    pub skipped_deps: Vec<String>,
    /// Library targets to alias in the root BUILD file.
    pub extra_aliased_targets: Vec<String>,
    /// Flags added to the crate's compilation.
    pub additional_flags: Vec<String>,
    /// Whether to build the crate's build script.
    pub gen_buildrs: bool,
}

/// The target built for when none is set.
pub fn default_target() -> (r: String)
    ensures
        r@ == "x86_64-unknown-linux-gnu"@,
{
    owned("x86_64-unknown-linux-gnu")
}

/// The workspace prefix used when none is set.
pub fn default_gen_workspace_prefix() -> (r: String)
    ensures
        r@ == "raze"@,
{
    owned("raze")
}

/// Crates are vendored unless the settings say otherwise.
pub fn default_genmode() -> (r: GenMode)
    ensures
        r == GenMode::Vendored,
{
    GenMode::Vendored
}

/// Build scripts are not built unless the settings say so.
pub fn default_gen_buildrs() -> (r: bool)
    ensures
        r == false,
{
    false
}

} // verus!
