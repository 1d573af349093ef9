//! Cargo's view of the workspace, as plain values: package ids, the packages' declared
//! dependencies and targets, and the resolved dependency graph.
use vstd::prelude::*;
use cargo_platform::Platform;
use crate::sort::Ordered;
use crate::text::{str_le, str_less, lemma_str_lt_trichotomy};

verus! {

/// Identifies one package of the resolve.
#[derive(Clone, Debug)]
pub struct PackageId {
    pub name: String,
    pub version: String,
    /// The source the package comes from, as its kind and URL, such as
    /// `registry+https://github.com/rust-lang/crates.io-index`.
    pub source_id: String,
}

/// A package id as plain values: name, version and source.
pub open spec fn id_view(id: PackageId) -> (Seq<char>, Seq<char>, Seq<char>) {
    (id.name@, id.version@, id.source_id@)
}

/// The same package: same name, version and source.
pub open spec fn same_id(a: PackageId, b: PackageId) -> bool {
    id_view(a) == id_view(b)
}

/// Package ids are ordered by name alone (`sort_by_key(|id| id.name())`).
impl Ordered for PackageId {
    type Key = Seq<char>;

    open spec fn key(&self) -> Seq<char> {
        self.name@
    }

    open spec fn key_le(a: Seq<char>, b: Seq<char>) -> bool {
        str_le(a, b)
    }

    fn le_exec(&self, other: &Self) -> (r: bool) {
        proof {
            lemma_str_lt_trichotomy(self.name@, other.name@);
        }
        !str_less(other.name.as_str(), self.name.as_str())
    }

    proof fn lemma_total_preorder(a: Seq<char>, b: Seq<char>, c: Seq<char>) {
        <String as Ordered>::lemma_total_preorder(a, b, c);
    }
}

/// The three kinds of Cargo dependencies.
#[derive(PartialEq, Eq, Structural, Clone, Copy, Debug)]
pub enum DependencyKind {
    Normal,
    Development,
    Build,
}

/// A dependency as a package's manifest declares it.
#[derive(Clone, Debug)]
pub struct Dependency {
    pub name: String,
    /// The version requirement, as written.
    pub version_req: String,
    pub kind: DependencyKind,
    /// The platform the dependency is restricted to, if any.
    pub platform: Option<Platform>,
}

/// The kinds of Cargo targets; a library lists the crate types it is built as.
#[derive(Clone, Debug)]
pub enum TargetKind {
    Lib(Vec<String>),
    Bin,
    Test,
    Bench,
    ExampleLib(Vec<String>),
    ExampleBin,
    CustomBuild,
}

/// A target of a package.
#[derive(Clone, Debug)]
pub struct CargoTarget {
    pub name: String,
    pub kind: TargetKind,
    /// The path of the target's root source file.
    pub src_path: String,
}

/// A package with its declared dependencies and its targets.
#[derive(Clone, Debug)]
pub struct CargoPackage {
    pub id: PackageId,
    pub dependencies: Vec<Dependency>,
    pub targets: Vec<CargoTarget>,
}

/// The packages of a resolve.
#[derive(Clone, Debug)]
pub struct PackageSet {
    pub packages: Vec<CargoPackage>,
}

/// One package of the resolved graph, with its enabled features and the packages it uses.
#[derive(Clone, Debug)]
pub struct ResolveNode {
    pub id: PackageId,
    pub features: Vec<String>,
    pub deps: Vec<PackageId>,
}

/// The resolved dependency graph, in Cargo's order of iteration.
#[derive(Clone, Debug)]
pub struct Resolve {
    pub nodes: Vec<ResolveNode>,
}

impl PackageId {
    /// A copy of this id.
    pub fn copied(&self) -> (r: PackageId)
        ensures
            same_id(r, *self),
    {
        PackageId { name: self.name.clone(), version: self.version.clone(), source_id: self.source_id.clone() }
    }

    /// Whether `self` and `other` identify the same package.
    pub fn is_same(&self, other: &PackageId) -> (r: bool)
        ensures
            r == same_id(*self, *other),
    {
        crate::text::str_equal(self.name.as_str(), other.name.as_str())
            && crate::text::str_equal(self.version.as_str(), other.version.as_str())
            && crate::text::str_equal(self.source_id.as_str(), other.source_id.as_str())
    }
}

/// Index of the first node of `nodes` for the package `id` identifies.
pub open spec fn node_index(nodes: Seq<ResolveNode>, id: (Seq<char>, Seq<char>, Seq<char>)) -> Option<int>
    decreases nodes.len(),
{
    if nodes.len() == 0 {
        None
    } else {
        match node_index(nodes.drop_last(), id) {
            Some(i) => Some(i),
            None => if id_view(nodes.last().id) == id {
                Some(nodes.len() - 1)
            } else {
                None
            },
        }
    }
}

/// The packages that `id` uses in the resolve (none when `id` is not in it).
pub open spec fn resolve_deps(r: Resolve, id: (Seq<char>, Seq<char>, Seq<char>)) -> Seq<PackageId> {
    match node_index(r.nodes@, id) {
        Some(i) => r.nodes@[i].deps@,
        None => Seq::empty(),
    }
}

/// The features enabled for `id` in the resolve (none when `id` is not in it).
pub open spec fn resolve_features(r: Resolve, id: (Seq<char>, Seq<char>, Seq<char>)) -> Seq<Seq<char>> {
    match node_index(r.nodes@, id) {
        Some(i) => crate::text::views(r.nodes@[i].features@),
        None => Seq::empty(),
    }
}

proof fn lemma_node_index_step(nodes: Seq<ResolveNode>, id: (Seq<char>, Seq<char>, Seq<char>), i: int)
    requires
        0 <= i < nodes.len(),
        node_index(nodes.take(i), id) is None,
    ensures
        node_index(nodes.take(i + 1), id) == (if id_view(nodes[i].id) == id {
            Some(i)
        } else {
            None::<int>
        }),
{
    assert(nodes.take(i + 1).drop_last() =~= nodes.take(i));
}

proof fn lemma_node_index_found(nodes: Seq<ResolveNode>, id: (Seq<char>, Seq<char>, Seq<char>), i: int)
    requires
        0 <= i <= nodes.len(),
        node_index(nodes.take(i), id) is Some,
    ensures
        node_index(nodes, id) == node_index(nodes.take(i), id),
    decreases nodes.len() - i,
{
    if i < nodes.len() {
        assert(nodes.take(i + 1).drop_last() =~= nodes.take(i));
        lemma_node_index_found(nodes, id, i + 1);
    } else {
        assert(nodes.take(i) =~= nodes);
    }
}

impl Resolve {
    /// The position of the node of `id`, if it is in the resolve.
    pub fn find_node(&self, id: &PackageId) -> (r: Option<usize>)
        ensures
            match r {
                Some(i) => node_index(self.nodes@, id_view(*id)) == Some(i as int) && i < self.nodes@.len(),
                None => node_index(self.nodes@, id_view(*id)) is None,
            },
    {
        let mut i: usize = 0;
        assert(self.nodes@.take(0) =~= Seq::<ResolveNode>::empty());
        while i < self.nodes.len()
            invariant
                i <= self.nodes.len(),
                node_index(self.nodes@.take(i as int), id_view(*id)) is None,
            decreases self.nodes.len() - i,
        {
            proof {
                lemma_node_index_step(self.nodes@, id_view(*id), i as int);
            }
            if self.nodes[i].id.is_same(id) {
                proof {
                    lemma_node_index_found(self.nodes@, id_view(*id), i + 1);
                }
                return Some(i);
            }
            i = i + 1;
        }
        assert(self.nodes@.take(i as int) =~= self.nodes@);
        None
    }
}

} // verus!
