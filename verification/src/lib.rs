//! Plans and writes Bazel BUILD files for the vendored dependencies of a Cargo workspace.
pub mod text;
pub mod sort;
pub mod files;
pub mod context;
pub mod resolve;
pub mod bazel;
pub mod platform;
pub mod util;
pub mod planning;
pub mod plan_laws;
pub mod resolver;
pub mod settings;
pub mod rendering;
pub mod workspace;
