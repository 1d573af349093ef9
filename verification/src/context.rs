//! What the planner knows of each crate, handed to the BUILD file writers.
use vstd::prelude::*;
use crate::sort::Ordered;
use crate::text::{str_le, str_lt, str_less, str_equal, lemma_str_lt_trichotomy, lemma_str_lt_transitive};

verus! {

/// A dependency edge: the crate depended upon, by name and version.
#[derive(Clone, Debug)]
pub struct BuildDependency {
    pub name: String,
    pub version: String,
}

/// A buildable target of a crate.
#[derive(Clone, Debug)]
pub struct BuildTarget {
    pub name: String,
    pub kind: String,
    pub path: String,
}

/// Everything needed to write the BUILD file of one crate.
#[derive(Clone, Debug)]
pub struct CrateContext {
    pub pkg_name: String,
    pub pkg_version: String,
    pub features: Vec<String>,
    pub dependencies: Vec<BuildDependency>,
    pub build_dependencies: Vec<BuildDependency>,
    pub dev_dependencies: Vec<BuildDependency>,
    pub is_root_dependency: bool,
    pub targets: Vec<BuildTarget>,
    pub build_script_target: Option<BuildTarget>,
    /// Where the crate's sources live, as `./vendor/{name}-{version}/`.
    pub path: String,
    /// The platform the crate is built for.
    pub platform_triple: String,
}

/// Workspace-wide details.
#[derive(Clone, Debug)]
pub struct WorkspaceContext {
    pub crates: Vec<CrateContext>,
    /// The Bazel label of the directory holding `Cargo.toml`.
    pub workspace_prefix: String,
    pub platform_triple: String,
}

/// Lexicographic order on pairs of character sequences.
pub open spec fn pair_le(a: (Seq<char>, Seq<char>), b: (Seq<char>, Seq<char>)) -> bool {
    str_lt(a.0, b.0) || (a.0 == b.0 && str_le(a.1, b.1))
}

/// Lexicographic order on triples of character sequences.
pub open spec fn triple_le(
    a: (Seq<char>, Seq<char>, Seq<char>),
    b: (Seq<char>, Seq<char>, Seq<char>),
) -> bool {
    str_lt(a.0, b.0) || (a.0 == b.0 && pair_le((a.1, a.2), (b.1, b.2)))
}

proof fn lemma_pair_le_total(a: (Seq<char>, Seq<char>), b: (Seq<char>, Seq<char>), c: (Seq<char>, Seq<char>))
    ensures
        pair_le(a, a),
        pair_le(a, b) || pair_le(b, a),
        pair_le(a, b) && pair_le(b, c) ==> pair_le(a, c),
{
    lemma_str_lt_trichotomy(a.0, b.0);
    lemma_str_lt_trichotomy(a.1, b.1);
    lemma_str_lt_trichotomy(a.0, c.0);
    lemma_str_lt_trichotomy(b.0, c.0);
    if str_lt(a.0, b.0) && str_lt(b.0, c.0) {
        lemma_str_lt_transitive(a.0, b.0, c.0);
    }
    if str_lt(a.1, b.1) && str_lt(b.1, c.1) {
        lemma_str_lt_transitive(a.1, b.1, c.1);
    }
}

proof fn lemma_triple_le_total(
    a: (Seq<char>, Seq<char>, Seq<char>),
    b: (Seq<char>, Seq<char>, Seq<char>),
    c: (Seq<char>, Seq<char>, Seq<char>),
)
    ensures
        triple_le(a, a),
        triple_le(a, b) || triple_le(b, a),
        triple_le(a, b) && triple_le(b, c) ==> triple_le(a, c),
{
    lemma_str_lt_trichotomy(a.0, b.0);
    lemma_str_lt_trichotomy(a.0, c.0);
    lemma_str_lt_trichotomy(b.0, c.0);
    if str_lt(a.0, b.0) && str_lt(b.0, c.0) {
        lemma_str_lt_transitive(a.0, b.0, c.0);
    }
    lemma_pair_le_total((a.1, a.2), (b.1, b.2), (c.1, c.2));
}

/// Tests `pair_le` on two pairs of strings.
pub fn pair_le_exec(a0: &str, a1: &str, b0: &str, b1: &str) -> (r: bool)
    ensures
        r == pair_le((a0@, a1@), (b0@, b1@)),
{
    proof {
        lemma_str_lt_trichotomy(a1@, b1@);
    }
    if str_less(a0, b0) {
        true
    } else if str_equal(a0, b0) {
        !str_less(b1, a1)
    } else {
        false
    }
}

/// Dependencies are ordered by name, then version.
impl Ordered for BuildDependency {
    type Key = (Seq<char>, Seq<char>);

    open spec fn key(&self) -> (Seq<char>, Seq<char>) {
        (self.name@, self.version@)
    }

    open spec fn key_le(a: (Seq<char>, Seq<char>), b: (Seq<char>, Seq<char>)) -> bool {
        pair_le(a, b)
    }

    fn le_exec(&self, other: &Self) -> (r: bool) {
        pair_le_exec(self.name.as_str(), self.version.as_str(), other.name.as_str(), other.version.as_str())
    }

    proof fn lemma_total_preorder(a: (Seq<char>, Seq<char>), b: (Seq<char>, Seq<char>), c: (Seq<char>, Seq<char>)) {
        lemma_pair_le_total(a, b, c);
    }
}

/// Targets are ordered by name, then kind, then path.
impl Ordered for BuildTarget {
    type Key = (Seq<char>, Seq<char>, Seq<char>);

    open spec fn key(&self) -> (Seq<char>, Seq<char>, Seq<char>) {
        (self.name@, self.kind@, self.path@)
    }

    open spec fn key_le(a: (Seq<char>, Seq<char>, Seq<char>), b: (Seq<char>, Seq<char>, Seq<char>)) -> bool {
        triple_le(a, b)
    }

    fn le_exec(&self, other: &Self) -> (r: bool) {
        if str_less(self.name.as_str(), other.name.as_str()) {
            true
        } else if str_equal(self.name.as_str(), other.name.as_str()) {
            pair_le_exec(self.kind.as_str(), self.path.as_str(), other.kind.as_str(), other.path.as_str())
        } else {
            false
        }
    }

    proof fn lemma_total_preorder(
        a: (Seq<char>, Seq<char>, Seq<char>),
        b: (Seq<char>, Seq<char>, Seq<char>),
        c: (Seq<char>, Seq<char>, Seq<char>),
    ) {
        lemma_triple_le_total(a, b, c);
    }
}

} // verus!
