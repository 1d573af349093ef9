//! Starlark (`.bzl`) expressions and the text of generated BUILD and `.bzl` files.
use vstd::prelude::*;
use vstd::string::StringExecFns;
use crate::text::{lemma_map_same_multiset, lemma_str_lt_trichotomy, lemma_str_lt_transitive, str_le, str_lt, str_less, lemma_sorted_strs_order_free, owned, sort_strings, sorted_strs, views, dashes_to_underscores, replace_dashes, join, join_strings, str_equal, chars_of, string_from_chars};
use crate::bazel::{BuildFile, Package, Target};
use crate::context::BuildDependency;
use crate::sort::{Borrowed, Ordered, sort_stable, sorted_seq, lemma_sorted_borrowed};

verus! {

/// A basic expression of a `.bzl` file.
#[derive(Debug)]
pub enum BExpr {
    Bool(bool),
    Optional(Option<Box<BExpr>>),
    Str(String),
    Tuple(Vec<BExpr>),
    Array(Vec<BExpr>),
    Struct(Vec<(String, BExpr)>),
}

/// `n` spaces.
pub open spec fn spaces(n: nat) -> Seq<char> {
    Seq::new(n, |i: int| ' ')
}

/// How deeply tuples, arrays and structs nest inside `e`.
pub open spec fn nesting(e: BExpr) -> nat
    decreases e,
{
    match e {
        BExpr::Bool(_) => 0,
        BExpr::Str(_) => 0,
        BExpr::Optional(o) => match o {
            None => 0,
            Some(a) => nesting(*a),
        },
        BExpr::Tuple(a) => 1 + nesting_items(a@),
        BExpr::Array(a) => 1 + nesting_items(a@),
        BExpr::Struct(s) => 1 + nesting_fields(s@),
    }
}

/// The deepest nesting among `items`.
pub open spec fn nesting_items(items: Seq<BExpr>) -> nat
    decreases items,
{
    if items.len() == 0 {
        0
    } else {
        let a = nesting_items(items.drop_last());
        let b = nesting(items.last());
        if a < b {
            b
        } else {
            a
        }
    }
}

/// The deepest nesting among the values of `fields`.
pub open spec fn nesting_fields(fields: Seq<(String, BExpr)>) -> nat
    decreases fields,
{
    if fields.len() == 0 {
        0
    } else {
        let a = nesting_fields(fields.drop_last());
        let b = nesting(fields.last().1);
        if a < b {
            b
        } else {
            a
        }
    }
}

/// The text of `e` printed with its members indented by `n` spaces.
pub open spec fn pretty(e: BExpr, n: nat) -> Seq<char>
    decreases e,
{
    match e {
        BExpr::Bool(b) => if b {
            "True"@
        } else {
            "False"@
        },
        BExpr::Optional(o) => match o {
            None => "None"@,
            Some(a) => pretty(*a, n),
        },
        BExpr::Str(s) => "\""@ + s@ + "\""@,
        BExpr::Tuple(a) => if a@.len() == 0 {
            "()"@
        } else {
            "(\n"@ + pretty_items(a@, n) + spaces((n - 4) as nat) + ")"@
        },
        BExpr::Array(a) => if a@.len() == 0 {
            "[]"@
        } else {
            "[\n"@ + pretty_items(a@, n) + spaces((n - 4) as nat) + "]"@
        },
        BExpr::Struct(s) => if s@.len() == 0 {
            "struct()"@
        } else {
            "struct(\n"@ + pretty_fields(s@, n) + spaces((n - 4) as nat) + ")"@
        },
    }
}

/// One line per item: indentation, the item, and a comma.
pub open spec fn pretty_items(items: Seq<BExpr>, n: nat) -> Seq<char>
    decreases items,
{
    if items.len() == 0 {
        Seq::empty()
    } else {
        pretty_items(items.drop_last(), n) + spaces(n) + pretty(items.last(), n + 4) + ",\n"@
    }
}

/// One line per field: indentation, `key = value`, and a comma.
pub open spec fn pretty_fields(fields: Seq<(String, BExpr)>, n: nat) -> Seq<char>
    decreases fields,
{
    if fields.len() == 0 {
        Seq::empty()
    } else {
        pretty_fields(fields.drop_last(), n) + spaces(n) + fields.last().0@ + " = "@ + pretty(
            fields.last().1,
            n + 4,
        ) + ",\n"@
    }
}

fn make_spaces(n: usize) -> (r: String)
    ensures
        r@ == spaces(n as nat),
{
    let mut r = String::new();
    let mut i: usize = 0;
    while i < n
        invariant
            i <= n,
            r@ == spaces(i as nat),
        decreases n - i,
    {
        r.push(' ');
        assert(spaces(i as nat).push(' ') =~= spaces((i + 1) as nat));
        i = i + 1;
    }
    r
}

proof fn lemma_nesting_items(items: Seq<BExpr>, i: int)
    requires
        0 <= i < items.len(),
    ensures
        nesting(items[i]) <= nesting_items(items),
    decreases items.len(),
{
    if i < items.len() - 1 {
        lemma_nesting_items(items.drop_last(), i);
    }
}

proof fn lemma_nesting_fields(fields: Seq<(String, BExpr)>, i: int)
    requires
        0 <= i < fields.len(),
    ensures
        nesting(fields[i].1) <= nesting_fields(fields),
    decreases fields.len(),
{
    if i < fields.len() - 1 {
        lemma_nesting_fields(fields.drop_last(), i);
    }
}

impl BExpr {
    /// The expression as `.bzl` text, members indented by four spaces per level.
    pub fn pretty_print(&self) -> (r: String)
        requires
            4 + 4 * nesting(*self) <= usize::MAX,
        ensures
            r@ == pretty(*self, 4),
    {
        self.pretty_print_spaced(4)
    }

    /// The expression as `.bzl` text, members indented by `space_count` spaces.
    pub fn pretty_print_spaced(&self, space_count: usize) -> (r: String)
        requires
            space_count >= 4,
            space_count + 4 * nesting(*self) <= usize::MAX,
        ensures
            r@ == pretty(*self, space_count as nat),
        decreases self,
    {
        match self {
            BExpr::Bool(b) => {
                if *b {
                    owned("True")
                } else {
                    owned("False")
                }
            },
            BExpr::Optional(o) => {
                match o {
                    None => owned("None"),
                    Some(a) => a.pretty_print_spaced(space_count),
                }
            },
            BExpr::Str(s) => {
                let mut r = owned("\"");
                r.append(s.as_str());
                r.append("\"");
                r
            },
            BExpr::Tuple(a) => {
                if a.len() == 0 {
                    owned("()")
                } else {
                    let mut r = owned("(\n");
                    let body = Self::pretty_print_items(a, space_count);
                    r.append(body.as_str());
                    let less = make_spaces(space_count - 4);
                    r.append(less.as_str());
                    r.append(")");
                    r
                }
            },
            BExpr::Array(a) => {
                if a.len() == 0 {
                    owned("[]")
                } else {
                    let mut r = owned("[\n");
                    let body = Self::pretty_print_items(a, space_count);
                    r.append(body.as_str());
                    let less = make_spaces(space_count - 4);
                    r.append(less.as_str());
                    r.append("]");
                    r
                }
            },
            BExpr::Struct(s) => {
                if s.len() == 0 {
                    owned("struct()")
                } else {
                    let mut r = owned("struct(\n");
                    let body = Self::pretty_print_fields(s, space_count);
                    r.append(body.as_str());
                    let less = make_spaces(space_count - 4);
                    r.append(less.as_str());
                    r.append(")");
                    r
                }
            },
        }
    }

    fn pretty_print_items(items: &Vec<BExpr>, space_count: usize) -> (r: String)
        requires
            space_count >= 4,
            space_count + 4 + 4 * nesting_items(items@) <= usize::MAX,
        ensures
            r@ == pretty_items(items@, space_count as nat),
        decreases items@,
    {
        let spaces_str = make_spaces(space_count);
        let mut r = String::new();
        let mut i: usize = 0;
        while i < items.len()
            invariant
                i <= items.len(),
                space_count >= 4,
                space_count + 4 + 4 * nesting_items(items@) <= usize::MAX,
                spaces_str@ == spaces(space_count as nat),
                r@ == pretty_items(items@.take(i as int), space_count as nat),
            decreases items.len() - i,
        {
            proof {
                lemma_nesting_items(items@, i as int);
                assert(decreases_to!(items@ => items@[i as int]));
            }
            let item = items[i].pretty_print_spaced(space_count + 4);
            r.append(spaces_str.as_str());
            r.append(item.as_str());
            r.append(",\n");
            assert(items@.take(i as int + 1).drop_last() =~= items@.take(i as int));
            i = i + 1;
        }
        assert(items@.take(i as int) =~= items@);
        r
    }

    fn pretty_print_fields(fields: &Vec<(String, BExpr)>, space_count: usize) -> (r: String)
        requires
            space_count >= 4,
            space_count + 4 + 4 * nesting_fields(fields@) <= usize::MAX,
        ensures
            r@ == pretty_fields(fields@, space_count as nat),
        decreases fields@,
    {
        let spaces_str = make_spaces(space_count);
        let mut r = String::new();
        let mut i: usize = 0;
        while i < fields.len()
            invariant
                i <= fields.len(),
                space_count >= 4,
                space_count + 4 + 4 * nesting_fields(fields@) <= usize::MAX,
                spaces_str@ == spaces(space_count as nat),
                r@ == pretty_fields(fields@.take(i as int), space_count as nat),
            decreases fields.len() - i,
        {
            proof {
                lemma_nesting_fields(fields@, i as int);
            }
            let (k, v) = &fields[i];
            let item = v.pretty_print_spaced(space_count + 4);
            r.append(spaces_str.as_str());
            r.append(k.as_str());
            r.append(" = ");
            r.append(item.as_str());
            r.append(",\n");
            assert(fields@.take(i as int + 1).drop_last() =~= fields@.take(i as int));
            i = i + 1;
        }
        assert(fields@.take(i as int) =~= fields@);
        r
    }
}

/// Values that have a `.bzl` expression.
pub trait ToBExpr {
    /// `e` is the expression of `self`.
    spec fn is_expr_of(&self, e: BExpr) -> bool;

    /// The expression of `self`.
    fn to_expr(&self) -> (e: BExpr)
        ensures
            self.is_expr_of(e),
    ;
}

impl ToBExpr for bool {
    open spec fn is_expr_of(&self, e: BExpr) -> bool {
        e == BExpr::Bool(*self)
    }

    fn to_expr(&self) -> (e: BExpr) {
        BExpr::Bool(*self)
    }
}

impl ToBExpr for String {
    open spec fn is_expr_of(&self, e: BExpr) -> bool {
        e matches BExpr::Str(s) && s@ == self@
    }

    fn to_expr(&self) -> (e: BExpr) {
        BExpr::Str(self.clone())
    }
}

impl<T: ToBExpr> ToBExpr for Option<T> {
    open spec fn is_expr_of(&self, e: BExpr) -> bool {
        match self {
            None => e == BExpr::Optional(None),
            Some(v) => e matches BExpr::Optional(Some(b)) && v.is_expr_of(*b),
        }
    }

    fn to_expr(&self) -> (e: BExpr) {
        match self {
            None => BExpr::Optional(None),
            Some(v) => BExpr::Optional(Some(Box::new(v.to_expr()))),
        }
    }
}

impl<T: ToBExpr, U: ToBExpr> ToBExpr for (T, U) {
    open spec fn is_expr_of(&self, e: BExpr) -> bool {
        e matches BExpr::Tuple(items) && items@.len() == 2 && self.0.is_expr_of(items@[0])
            && self.1.is_expr_of(items@[1])
    }

    fn to_expr(&self) -> (e: BExpr) {
        let mut items: Vec<BExpr> = Vec::new();
        items.push(self.0.to_expr());
        items.push(self.1.to_expr());
        BExpr::Tuple(items)
    }
}

/// A list is an array of its items' expressions, the items taken in sorted order.
impl<T: ToBExpr + Ordered> ToBExpr for Vec<T> {
    open spec fn is_expr_of(&self, e: BExpr) -> bool {
        e matches BExpr::Array(items) && items@.len() == self@.len() && forall|i: int|
            0 <= i < items@.len() ==> sorted_seq(self@)[i].is_expr_of(#[trigger] items@[i])
    }

    fn to_expr(&self) -> (e: BExpr) {
        let mut refs: Vec<Borrowed<T>> = Vec::new();
        let mut i: usize = 0;
        while i < self.len()
            invariant
                i <= self.len(),
                refs@.len() == i,
                forall|j: int| 0 <= j < i ==> *(#[trigger] refs@[j]).item == self@[j],
            decreases self.len() - i,
        {
            refs.push(Borrowed { item: &self[i] });
            i = i + 1;
        }
        let ghost unsorted = refs@;
        let sorted = sort_stable(refs);
        proof {
            lemma_sorted_borrowed(unsorted, self@);
        }
        let mut items: Vec<BExpr> = Vec::new();
        let mut k: usize = 0;
        while k < sorted.len()
            invariant
                k <= sorted.len(),
                sorted@.len() == self@.len(),
                forall|j: int| 0 <= j < sorted@.len() ==> *(#[trigger] sorted@[j]).item == sorted_seq(self@)[j],
                items@.len() == k,
                forall|j: int| 0 <= j < k ==> sorted_seq(self@)[j].is_expr_of(#[trigger] items@[j]),
            decreases sorted.len() - k,
        {
            let x = sorted[k].item.to_expr();
            assert(*sorted@[k as int].item == sorted_seq(self@)[k as int]);
            items.push(x);
            k = k + 1;
        }
        BExpr::Array(items)
    }
}

/// Pairs order by their name, then by their value, as tuples do.
impl<T: Ordered> Ordered for (String, T) {
    type Key = (Seq<char>, T::Key);

    open spec fn key(&self) -> (Seq<char>, T::Key) {
        (self.0@, self.1.key())
    }

    open spec fn key_le(a: (Seq<char>, T::Key), b: (Seq<char>, T::Key)) -> bool {
        str_lt(a.0, b.0) || (a.0 == b.0 && T::key_le(a.1, b.1))
    }

    fn le_exec(&self, other: &Self) -> (r: bool) {
        if str_less(self.0.as_str(), other.0.as_str()) {
            true
        } else if str_equal(self.0.as_str(), other.0.as_str()) {
            self.1.le_exec(&other.1)
        } else {
            false
        }
    }

    proof fn lemma_total_preorder(a: (Seq<char>, T::Key), b: (Seq<char>, T::Key), c: (Seq<char>, T::Key)) {
        lemma_str_lt_trichotomy(a.0, b.0);
        lemma_str_lt_trichotomy(a.0, c.0);
        lemma_str_lt_trichotomy(b.0, c.0);
        if str_lt(a.0, b.0) && str_lt(b.0, c.0) {
            lemma_str_lt_transitive(a.0, b.0, c.0);
        }
        T::lemma_total_preorder(a.1, b.1, c.1);
    }
}

/// A value under a name: one field of a `.bzl` struct.
pub struct Named<T> {
    pub name: String,
    pub value: T,
}

/// Named values order by name alone.
impl<T> Ordered for Named<T> {
    type Key = Seq<char>;

    open spec fn key(&self) -> Seq<char> {
        self.name@
    }

    open spec fn key_le(a: Seq<char>, b: Seq<char>) -> bool {
        str_le(a, b)
    }

    fn le_exec(&self, other: &Self) -> (r: bool) {
        proof {
            lemma_str_lt_trichotomy(self.name@, other.name@);
        }
        !str_less(other.name.as_str(), self.name.as_str())
    }

    proof fn lemma_total_preorder(a: Seq<char>, b: Seq<char>, c: Seq<char>) {
        <String as Ordered>::lemma_total_preorder(a, b, c);
    }
}

/// No name occurs twice among `entries`.
pub open spec fn names_distinct<T>(entries: Seq<Named<T>>) -> bool {
    forall|i: int, j: int| 0 <= i < j < entries.len() ==> (#[trigger] entries[i]).name@ != (#[trigger] entries[j]).name@
}

/// Values by name, each name once (what a map from names holds): printed as a struct whose
/// fields come in name order.
pub struct BzlMap<T> {
    entries: Vec<Named<T>>,
}

impl<T> BzlMap<T> {
    #[verifier::type_invariant]
    spec fn names_unique(&self) -> bool {
        names_distinct(self.entries@)
    }

    /// The named values of the map.
    pub closed spec fn entries(&self) -> Seq<Named<T>> {
        self.entries@
    }

    /// A map of `entries`, or nothing when a name occurs twice among them.
    pub fn from_entries(entries: Vec<Named<T>>) -> (r: Option<BzlMap<T>>)
        ensures
            r is Some <==> names_distinct(entries@),
            r matches Some(m) ==> m.entries() == entries@,
    {
        let mut i: usize = 0;
        while i < entries.len()
            invariant
                i <= entries.len(),
                forall|a: int, b: int| 0 <= a < b < entries@.len() && a < i ==> (#[trigger] entries@[a]).name@
                    != (#[trigger] entries@[b]).name@,
            decreases entries.len() - i,
        {
            let mut j: usize = i + 1;
            while j < entries.len()
                invariant
                    i < entries.len(),
                    i < j <= entries.len(),
                    forall|a: int, b: int| 0 <= a < b < entries@.len() && a < i ==> (#[trigger] entries@[a]).name@
                        != (#[trigger] entries@[b]).name@,
                    forall|b: int| i < b < j ==> entries@[i as int].name@ != (#[trigger] entries@[b]).name@,
                decreases entries.len() - j,
            {
                if str_equal(entries[i].name.as_str(), entries[j].name.as_str()) {
                    assert(!names_distinct(entries@)) by {
                        assert(entries@[i as int].name@ == entries@[j as int].name@);
                    }
                    return None;
                }
                j = j + 1;
            }
            i = i + 1;
        }
        Some(BzlMap { entries })
    }
}

impl<T: ToBExpr> ToBExpr for BzlMap<T> {
    open spec fn is_expr_of(&self, e: BExpr) -> bool {
        e matches BExpr::Struct(fields) && fields@.len() == self.entries().len() && forall|i: int|
            0 <= i < fields@.len() ==> (#[trigger] fields@[i]).0@ == sorted_seq(self.entries())[i].name@
                && sorted_seq(self.entries())[i].value.is_expr_of(fields@[i].1)
    }

    fn to_expr(&self) -> (e: BExpr) {
        let mut refs: Vec<Borrowed<Named<T>>> = Vec::new();
        let mut i: usize = 0;
        while i < self.entries.len()
            invariant
                i <= self.entries.len(),
                refs@.len() == i,
                forall|j: int| 0 <= j < i ==> *(#[trigger] refs@[j]).item == self.entries@[j],
            decreases self.entries.len() - i,
        {
            refs.push(Borrowed { item: &self.entries[i] });
            i = i + 1;
        }
        let ghost unsorted = refs@;
        let sorted = sort_stable(refs);
        proof {
            lemma_sorted_borrowed(unsorted, self.entries@);
        }
        let mut fields: Vec<(String, BExpr)> = Vec::new();
        let mut k: usize = 0;
        while k < sorted.len()
            invariant
                k <= sorted.len(),
                sorted@.len() == self.entries@.len(),
                forall|j: int| 0 <= j < sorted@.len() ==> *(#[trigger] sorted@[j]).item == sorted_seq(self.entries@)[j],
                fields@.len() == k,
                forall|j: int|
                    0 <= j < k ==> (#[trigger] fields@[j]).0@ == sorted_seq(self.entries@)[j].name@
                        && sorted_seq(self.entries@)[j].value.is_expr_of(fields@[j].1),
            decreases sorted.len() - k,
        {
            let entry = sorted[k].item;
            assert(*sorted@[k as int].item == sorted_seq(self.entries@)[k as int]);
            let name = entry.name.clone();
            let value = entry.value.to_expr();
            fields.push((name, value));
            k = k + 1;
        }
        BExpr::Struct(fields)
    }
}

/// No two of `items` are ordered alike (for strings: no string occurs twice).
pub open spec fn keys_distinct<T: Ordered>(items: Seq<T>) -> bool {
    forall|i: int, j: int|
        0 <= i < j < items.len() ==> !(T::key_le((#[trigger] items[i]).key(), (#[trigger] items[j]).key())
            && T::key_le(items[j].key(), items[i].key()))
}

/// Distinct values (what a set holds): printed as an array in sorted order.
pub struct BzlSet<T: Ordered> {
    items: Vec<T>,
}

impl<T: Ordered> BzlSet<T> {
    #[verifier::type_invariant]
    spec fn items_unique(&self) -> bool {
        keys_distinct(self.items@)
    }

    /// The values of the set.
    pub closed spec fn items(&self) -> Seq<T> {
        self.items@
    }

    /// A set of `items`, or nothing when two of them are ordered alike.
    pub fn from_items(items: Vec<T>) -> (r: Option<BzlSet<T>>)
        ensures
            r is Some <==> keys_distinct(items@),
            r matches Some(s) ==> s.items() == items@,
    {
        let mut i: usize = 0;
        while i < items.len()
            invariant
                i <= items.len(),
                forall|a: int, b: int| 0 <= a < b < items@.len() && a < i ==> !(T::key_le(
                    (#[trigger] items@[a]).key(),
                    (#[trigger] items@[b]).key(),
                ) && T::key_le(items@[b].key(), items@[a].key())),
            decreases items.len() - i,
        {
            let mut j: usize = i + 1;
            while j < items.len()
                invariant
                    i < items.len(),
                    i < j <= items.len(),
                    forall|a: int, b: int| 0 <= a < b < items@.len() && a < i ==> !(T::key_le(
                        (#[trigger] items@[a]).key(),
                        (#[trigger] items@[b]).key(),
                    ) && T::key_le(items@[b].key(), items@[a].key())),
                    forall|b: int| i < b < j ==> !(T::key_le(items@[i as int].key(), (#[trigger] items@[b]).key())
                        && T::key_le(items@[b].key(), items@[i as int].key())),
                decreases items.len() - j,
            {
                if items[i].le_exec(&items[j]) && items[j].le_exec(&items[i]) {
                    return None;
                }
                j = j + 1;
            }
            i = i + 1;
        }
        Some(BzlSet { items })
    }
}

impl<T: ToBExpr + Ordered> ToBExpr for BzlSet<T> {
    open spec fn is_expr_of(&self, e: BExpr) -> bool {
        e matches BExpr::Array(a) && a@.len() == self.items().len() && forall|i: int|
            0 <= i < a@.len() ==> sorted_seq(self.items())[i].is_expr_of(#[trigger] a@[i])
    }

    fn to_expr(&self) -> (e: BExpr) {
        self.items.to_expr()
    }
}

/// `s` in double quotes.
pub open spec fn quoted(s: Seq<char>) -> Seq<char> {
    "\""@ + s + "\""@
}

/// The header of a crate's BUILD file.
pub open spec fn crate_build_prelude(workspace_prefix: Seq<char>) -> Seq<char> {
    "\"\"\"\ncargo-raze crate build file.\n\nDO NOT EDIT! Replaced on runs of cargo-raze\n\"\"\"\npackage(default_visibility = [\""@
        + workspace_prefix + ":__subpackages__\"])\n"@
}

/// The `load` statement every crate BUILD file carries.
pub open spec fn rust_rules_load() -> Seq<char> {
    "load(\"@io_bazel_rules_rust//rust:rust.bzl\", \"rust_binary\", \"rust_library\")"@
}

/// The quoted label of the library rule of a vendored dependency.
pub open spec fn dep_label(prefix: Seq<char>, dep: BuildDependency, pts: Seq<char>) -> Seq<char> {
    "\""@ + prefix + "/vendor/"@ + dep.name@ + "-"@ + dep.version@ + ":"@ + dashes_to_underscores(
        dep.name@,
    ) + "_"@ + pts + "\""@
}

/// The labels of a list of dependencies, in order.
pub open spec fn dep_labels(prefix: Seq<char>, deps: Seq<BuildDependency>, pts: Seq<char>) -> Seq<Seq<char>> {
    deps.map_values(|d: BuildDependency| dep_label(prefix, d, pts))
}

/// `t` is built as kind `k`.
pub open spec fn has_kind(t: Target, k: Seq<char>) -> bool {
    exists|i: int| 0 <= i < t.kinds@.len() && #[trigger] t.kinds@[i]@ == k
}

/// At most one of `targets` is built as kind `k`.
pub open spec fn at_most_one_of_kind(targets: Seq<Target>, k: Seq<char>) -> bool {
    forall|i: int, j: int|
        0 <= i < targets.len() && 0 <= j < targets.len() && has_kind(#[trigger] targets[i], k)
            && has_kind(#[trigger] targets[j], k) ==> i == j
}

/// The target built as kind `k`, if there is one.
pub open spec fn target_of_kind(targets: Seq<Target>, k: Seq<char>) -> Option<Target> {
    if exists|i: int| 0 <= i < targets.len() && has_kind(#[trigger] targets[i], k) {
        Some(targets[choose|i: int| 0 <= i < targets.len() && has_kind(#[trigger] targets[i], k)])
    } else {
        None
    }
}

/// The rule that builds a crate's build script.
pub open spec fn build_script_binary_rule(
    cp: Seq<char>,
    root: Seq<char>,
    deps: Seq<char>,
    triple: Seq<char>,
    features: Seq<char>,
) -> Seq<char> {
    "rust_binary(\n    name = "@ + cp + "_build_script\n    srcs = glob([\"*\", \"src/**/*.rs\"]),\n    crate_root = \""@
        + root + "\",\n    deps = ["@ + deps
        + "],\n    rustc_flags = [\n        \"--cap-lints allow\",\n        \"--target="@ + triple
        + "\"\n    ],\n    crate_features = ["@ + features + "],\n)"@
}

/// The rule that runs a crate's build script and packs what it writes.
pub open spec fn build_script_genrule(
    cp: Seq<char>,
    prefix_sans_slashes: Seq<char>,
    name: Seq<char>,
    version: Seq<char>,
    triple: Seq<char>,
) -> Seq<char> {
    "genrule(\n    name = "@ + cp + "_build_script_executor\n    srcs = glob([\"*\", \"src/**/*.rs\"]),\n    outs = [\""@
        + cp + "_out_dir_outputs.tar.gz\"],\n    tools = [\":"@ + cp
        + "_build_script\"],\n    cmd = \"mkdir "@ + cp
        + "_out_dir_outputs/;\"\n        + \" (export CARGO_MANIFEST_DIR=\\\"$$PWD/"@
        + prefix_sans_slashes + "/vendor/"@ + name + "-"@ + version
        + "\\\";\"\n        + \" export TARGET='"@ + triple
        + "';\"\n        + \" export RUST_BACKTRACE=1;\"\n        + \" export OUT_DIR=$$PWD/"@ + cp
        + "_out_dir_outputs;\"\n        + \" export BINARY_PATH=\\\"$$PWD/$(location :"@ + cp
        + "_build_script)\\\";\"\n        + \" export OUT_TAR=$$PWD/$@;\"\n        + \" cd $$(dirname $(location :Cargo.toml)) && $$BINARY_PATH && tar -czf $$OUT_TAR -C $$OUT_DIR .)\"\n)"@
}

/// The alias from the crate's name to its library target's name.
pub open spec fn crate_alias_rule(cp: Seq<char>, tp: Seq<char>) -> Seq<char> {
    "alias(\n    name = \""@ + cp + "\",\n    actual = \":"@ + tp + "\",\n)"@
}

/// The rule that builds a crate's library.
pub open spec fn library_rule(
    tp: Seq<char>,
    root: Seq<char>,
    deps: Seq<char>,
    triple: Seq<char>,
    out_dir_tar: Seq<char>,
    features: Seq<char>,
) -> Seq<char> {
    "rust_library(\n    name = \""@ + tp + "\",\n    crate_root = \""@ + root
        + "\",\n    srcs = glob([\"lib.rs\", \"src/**/*.rs\"]),\n    deps = ["@ + deps
        + "],\n    rustc_flags = [\n        \"--cap-lints allow\",\n        \"--target="@ + triple
        + "\"\n    ],\n    out_dir_tar = "@ + out_dir_tar + ",\n    crate_features = ["@ + features
        + "],\n)"@
}

/// `prefix` without its first two characters (the leading `//` of a label).
pub open spec fn sans_initial_slashes(prefix: Seq<char>) -> Seq<char> {
    if prefix.len() >= 2 {
        prefix.skip(2)
    } else {
        Seq::empty()
    }
}

/// The rules of a crate's BUILD file: the build script's binary and runner when the crate
/// has a build script, then, when it has a library, an alias from the crate's name when the
/// library is named otherwise, and the library itself.
pub open spec fn crate_build_rules(pkg: Package, triple: Seq<char>, prefix: Seq<char>) -> Seq<Seq<char>> {
    let cns = dashes_to_underscores(pkg.id.name@);
    let pts = dashes_to_underscores(triple);
    let cp = cns + "_"@ + pts;
    let features = join(sorted_strs(pkg.features@.map_values(|f: String| quoted(f@))), ", "@);
    let normal = dep_labels(prefix, pkg.dependencies@, pts);
    let build = dep_labels(prefix, pkg.build_dependencies@, pts);
    let script = target_of_kind(pkg.targets@, "custom-build"@);
    let script_rules = match script {
        Some(t) => seq![
            build_script_binary_rule(cp, t.path@, join(sorted_strs(build + normal), ", "@), triple, features),
            build_script_genrule(cp, sans_initial_slashes(prefix), pkg.id.name@, pkg.id.version@, triple),
        ],
        None => Seq::empty(),
    };
    let lib_rules = match target_of_kind(pkg.targets@, "lib"@) {
        Some(t) => {
            let tp = dashes_to_underscores(t.name@) + "_"@ + pts;
            let out_dir_tar = if script is Some {
                "\":"@ + cp + "_build_script_executor\""@
            } else {
                "None"@
            };
            let alias = if dashes_to_underscores(t.name@) != cns {
                seq![crate_alias_rule(cp, tp)]
            } else {
                Seq::empty()
            };
            alias.push(library_rule(tp, t.path@, join(sorted_strs(normal), ", "@), triple, out_dir_tar, features))
        },
        None => Seq::empty(),
    };
    script_rules + lib_rules
}

fn concat3(a: &str, b: &str, c: &str) -> (r: String)
    ensures
        r@ == a@ + b@ + c@,
{
    let mut r = owned(a);
    r.append(b);
    r.append(c);
    r
}

fn make_dep_labels(prefix: &str, deps: &Vec<BuildDependency>, pts: &str) -> (r: Vec<String>)
    ensures
        views(r@) == dep_labels(prefix@, deps@, pts@),
{
    let mut out: Vec<String> = Vec::new();
    let mut i: usize = 0;
    while i < deps.len()
        invariant
            i <= deps.len(),
            views(out@) == dep_labels(prefix@, deps@.take(i as int), pts@),
        decreases deps.len() - i,
    {
        let dep = &deps[i];
        let sanitized = replace_dashes(dep.name.as_str());
        let mut label = owned("\"");
        label.append(prefix);
        label.append("/vendor/");
        label.append(dep.name.as_str());
        label.append("-");
        label.append(dep.version.as_str());
        label.append(":");
        label.append(sanitized.as_str());
        label.append("_");
        label.append(pts);
        label.append("\"");
        let ghost before = out@;
        out.push(label);
        assert(deps@.take(i as int + 1) =~= deps@.take(i as int).push(deps@[i as int]));
        assert(views(out@) =~= views(before).push(dep_label(prefix@, deps@[i as int], pts@)));
        i = i + 1;
    }
    assert(deps@.take(i as int) =~= deps@);
    out
}

fn target_has_kind(t: &Target, k: &str) -> (r: bool)
    ensures
        r == has_kind(*t, k@),
{
    let mut i: usize = 0;
    while i < t.kinds.len()
        invariant
            i <= t.kinds.len(),
            forall|j: int| 0 <= j < i ==> t.kinds@[j]@ != k@,
        decreases t.kinds.len() - i,
    {
        if str_equal(t.kinds[i].as_str(), k) {
            return true;
        }
        i = i + 1;
    }
    false
}

fn find_target_of_kind(targets: &Vec<Target>, k: &str) -> (r: Option<usize>)
    requires
        at_most_one_of_kind(targets@, k@),
    ensures
        match r {
            Some(i) => i < targets@.len() && target_of_kind(targets@, k@) == Some(targets@[i as int]),
            None => target_of_kind(targets@, k@) is None,
        },
{
    let mut i: usize = 0;
    while i < targets.len()
        invariant
            i <= targets.len(),
            at_most_one_of_kind(targets@, k@),
            forall|j: int| 0 <= j < i ==> !has_kind(#[trigger] targets@[j], k@),
        decreases targets.len() - i,
    {
        if target_has_kind(&targets[i], k) {
            proof {
                assert(has_kind(targets@[i as int], k@));
                let c = choose|c: int| 0 <= c < targets@.len() && has_kind(#[trigger] targets@[c], k@);
                assert(0 <= c < targets@.len() && has_kind(targets@[c], k@));
                assert(c == i);
            }
            return Some(i);
        }
        i = i + 1;
    }
    None
}

fn quote_all(items: &Vec<String>) -> (r: Vec<String>)
    ensures
        views(r@) == items@.map_values(|f: String| quoted(f@)),
{
    let mut out: Vec<String> = Vec::new();
    let mut i: usize = 0;
    while i < items.len()
        invariant
            i <= items.len(),
            views(out@) == items@.take(i as int).map_values(|f: String| quoted(f@)),
        decreases items.len() - i,
    {
        let q = concat3("\"", items[i].as_str(), "\"");
        let ghost before = out@;
        out.push(q);
        assert(items@.take(i as int + 1) =~= items@.take(i as int).push(items@[i as int]));
        assert(views(out@) =~= views(before).push(quoted(items@[i as int]@)));
        i = i + 1;
    }
    assert(items@.take(i as int) =~= items@);
    out
}

fn append_all(a: &Vec<String>, b: &Vec<String>) -> (r: Vec<String>)
    ensures
        views(r@) == views(a@) + views(b@),
{
    let mut out: Vec<String> = Vec::new();
    let mut i: usize = 0;
    while i < a.len()
        invariant
            i <= a.len(),
            views(out@) == views(a@).take(i as int),
        decreases a.len() - i,
    {
        let x = a[i].clone();
        let ghost before = out@;
        out.push(x);
        assert(views(out@) =~= views(before).push(a@[i as int]@));
        assert(views(a@).take(i as int + 1) =~= views(a@).take(i as int).push(a@[i as int]@));
        i = i + 1;
    }
    let mut j: usize = 0;
    while j < b.len()
        invariant
            i == a.len(),
            j <= b.len(),
            views(out@) == views(a@) + views(b@).take(j as int),
        decreases b.len() - j,
    {
        let x = b[j].clone();
        let ghost before = out@;
        out.push(x);
        assert(views(out@) =~= views(before).push(b@[j as int]@));
        assert(views(b@).take(j as int + 1) =~= views(b@).take(j as int).push(b@[j as int]@));
        j = j + 1;
    }
    assert(views(a@).take(i as int) =~= views(a@));
    assert(views(b@).take(j as int) =~= views(b@));
    out
}

fn make_build_script_binary_rule(cp: &str, root: &str, deps: &str, triple: &str, features: &str) -> (r: String)
    ensures
        r@ == build_script_binary_rule(cp@, root@, deps@, triple@, features@),
{
    let mut r = owned("rust_binary(\n    name = ");
    r.append(cp);
    r.append("_build_script\n    srcs = glob([\"*\", \"src/**/*.rs\"]),\n    crate_root = \"");
    r.append(root);
    r.append("\",\n    deps = [");
    r.append(deps);
    r.append("],\n    rustc_flags = [\n        \"--cap-lints allow\",\n        \"--target=");
    r.append(triple);
    r.append("\"\n    ],\n    crate_features = [");
    r.append(features);
    r.append("],\n)");
    r
}

fn make_build_script_genrule(cp: &str, sans: &str, name: &str, version: &str, triple: &str) -> (r: String)
    ensures
        r@ == build_script_genrule(cp@, sans@, name@, version@, triple@),
{
    let mut r = owned("genrule(\n    name = ");
    r.append(cp);
    r.append("_build_script_executor\n    srcs = glob([\"*\", \"src/**/*.rs\"]),\n    outs = [\"");
    r.append(cp);
    r.append("_out_dir_outputs.tar.gz\"],\n    tools = [\":");
    r.append(cp);
    r.append("_build_script\"],\n    cmd = \"mkdir ");
    r.append(cp);
    r.append("_out_dir_outputs/;\"\n        + \" (export CARGO_MANIFEST_DIR=\\\"$$PWD/");
    r.append(sans);
    r.append("/vendor/");
    r.append(name);
    r.append("-");
    r.append(version);
    r.append("\\\";\"\n        + \" export TARGET='");
    r.append(triple);
    r.append("';\"\n        + \" export RUST_BACKTRACE=1;\"\n        + \" export OUT_DIR=$$PWD/");
    r.append(cp);
    r.append("_out_dir_outputs;\"\n        + \" export BINARY_PATH=\\\"$$PWD/$(location :");
    r.append(cp);
    r.append("_build_script)\\\";\"\n        + \" export OUT_TAR=$$PWD/$@;\"\n        + \" cd $$(dirname $(location :Cargo.toml)) && $$BINARY_PATH && tar -czf $$OUT_TAR -C $$OUT_DIR .)\"\n)");
    r
}

fn make_library_rule(tp: &str, root: &str, deps: &str, triple: &str, out_dir_tar: &str, features: &str) -> (r: String)
    ensures
        r@ == library_rule(tp@, root@, deps@, triple@, out_dir_tar@, features@),
{
    let mut r = owned("rust_library(\n    name = \"");
    r.append(tp);
    r.append("\",\n    crate_root = \"");
    r.append(root);
    r.append("\",\n    srcs = glob([\"lib.rs\", \"src/**/*.rs\"]),\n    deps = [");
    r.append(deps);
    r.append("],\n    rustc_flags = [\n        \"--cap-lints allow\",\n        \"--target=");
    r.append(triple);
    r.append("\"\n    ],\n    out_dir_tar = ");
    r.append(out_dir_tar);
    r.append(",\n    crate_features = [");
    r.append(features);
    r.append("],\n)");
    r
}

fn make_sans_initial_slashes(prefix: &str) -> (r: String)
    ensures
        r@ == sans_initial_slashes(prefix@),
{
    let cs = chars_of(prefix);
    if cs.len() >= 2 {
        string_from_chars(&cs, 2)
    } else {
        String::new()
    }
}

/// Writes the BUILD file of a vendored crate for one platform.
pub fn generate_crate_build_file(pkg: &Package, platform_triple: &str, workspace_prefix: &str) -> (r: BuildFile)
    requires
        at_most_one_of_kind(pkg.targets@, "lib"@),
        at_most_one_of_kind(pkg.targets@, "custom-build"@),
    ensures
        r.path@ == pkg.path@ + "BUILD"@,
        r.prelude@ == crate_build_prelude(workspace_prefix@),
        views(r.load_statements@) == seq![rust_rules_load()],
        views(r.build_rules@) == crate_build_rules(*pkg, platform_triple@, workspace_prefix@),
{
    let mut path = owned(pkg.path.as_str());
    path.append("BUILD");
    let prelude = concat3(
        "\"\"\"\ncargo-raze crate build file.\n\nDO NOT EDIT! Replaced on runs of cargo-raze\n\"\"\"\npackage(default_visibility = [\"",
        workspace_prefix,
        ":__subpackages__\"])\n",
    );
    let mut load_statements: Vec<String> = Vec::new();
    load_statements.push(owned("load(\"@io_bazel_rules_rust//rust:rust.bzl\", \"rust_binary\", \"rust_library\")"));
    assert(views(load_statements@) =~= seq![rust_rules_load()]);

    let crate_name_sanitized = replace_dashes(pkg.id.name.as_str());
    let lib_index = find_target_of_kind(&pkg.targets, "lib");
    let script_index = find_target_of_kind(&pkg.targets, "custom-build");

    let platform_triple_sanitized = replace_dashes(platform_triple);
    let cp = concat3(crate_name_sanitized.as_str(), "_", platform_triple_sanitized.as_str());
    let quoted_features = quote_all(&pkg.features);
    let features_sorted = sort_strings(quoted_features);
    let features_joined = join_strings(&features_sorted, ", ");
    let normal_deps = make_dep_labels(workspace_prefix, &pkg.dependencies, platform_triple_sanitized.as_str());
    let build_deps = make_dep_labels(workspace_prefix, &pkg.build_dependencies, platform_triple_sanitized.as_str());

    let mut build_rules: Vec<String> = Vec::new();
    match script_index {
        Some(si) => {
            let script = &pkg.targets[si];
            let complete = sort_strings(append_all(&build_deps, &normal_deps));
            let deps_joined = join_strings(&complete, ", ");
            let binary_rule = make_build_script_binary_rule(
                cp.as_str(),
                script.path.as_str(),
                deps_joined.as_str(),
                platform_triple,
                features_joined.as_str(),
            );
            let sans = make_sans_initial_slashes(workspace_prefix);
            let genrule_rule = make_build_script_genrule(
                cp.as_str(),
                sans.as_str(),
                pkg.id.name.as_str(),
                pkg.id.version.as_str(),
                platform_triple,
            );
            build_rules.push(binary_rule);
            build_rules.push(genrule_rule);
        },
        None => {},
    }
    let ghost script_rules = views(build_rules@);

    match lib_index {
        Some(li) => {
            let lib = &pkg.targets[li];
            let target_name_sanitized = replace_dashes(lib.name.as_str());
            let tp = concat3(target_name_sanitized.as_str(), "_", platform_triple_sanitized.as_str());
            if !str_equal(target_name_sanitized.as_str(), crate_name_sanitized.as_str()) {
                build_rules.push(make_crate_alias_rule(cp.as_str(), tp.as_str()));
            }
            let out_dir_tar = if script_index.is_some() {
                concat3("\":", cp.as_str(), "_build_script_executor\"")
            } else {
                owned("None")
            };
            let deps_sorted = sort_strings(normal_deps);
            let deps_joined = join_strings(&deps_sorted, ", ");
            build_rules.push(make_library_rule(
                tp.as_str(),
                lib.path.as_str(),
                deps_joined.as_str(),
                platform_triple,
                out_dir_tar.as_str(),
                features_joined.as_str(),
            ));
        },
        None => {},
    }
    assert(views(build_rules@) =~= crate_build_rules(*pkg, platform_triple@, workspace_prefix@));
    BuildFile::new(path, prelude, load_statements, build_rules)
}

fn make_crate_alias_rule(cp: &str, tp: &str) -> (r: String)
    ensures
        r@ == crate_alias_rule(cp@, tp@),
{
    let mut r = owned("alias(\n    name = \"");
    r.append(cp);
    r.append("\",\n    actual = \":");
    r.append(tp);
    r.append("\",\n)");
    r
}

/// The alias that exposes a root dependency in the vendor directory's BUILD file.
pub open spec fn vendor_alias(pkg: Package, prefix: Seq<char>) -> Seq<char> {
    "\nalias(\n    name = \""@ + pkg.id.name@ + "\",\n    actual = \""@ + prefix + "/vendor/"@ + pkg.full_name@
        + ":"@ + dashes_to_underscores(pkg.id.name@) + "\",\n)\n"@
}

/// The aliases of the root dependencies among `pkgs`, in order.
pub open spec fn vendor_aliases(pkgs: Seq<Package>, prefix: Seq<char>) -> Seq<char>
    decreases pkgs.len(),
{
    if pkgs.len() == 0 {
        Seq::empty()
    } else if pkgs.last().is_root_dependency {
        vendor_aliases(pkgs.drop_last(), prefix) + vendor_alias(pkgs.last(), prefix)
    } else {
        vendor_aliases(pkgs.drop_last(), prefix)
    }
}

/// The header of the vendor directory's BUILD file.
pub open spec fn vendor_build_header() -> Seq<char> {
    "\"\"\"\ncargo-raze direct Cargo.toml dependencies.\n\nThis BUILD file provides aliases to explicit cargo dependencies and is\nthe only way to access vendored dependencies.\nIf a dependency is missing, add it as an explicit root dependency in\nCargo.toml and rerun raze.\nThis file is overridden on runs of raze; do not add anything to it.\nIf that is causing you pain, please drop a line in acmcarther/cargo-raze.\n\"\"\"\npackage(default_visibility = [\"//visibility:public\"])\n"@
}

/// The text of `./vendor/BUILD`: an alias for each root dependency, and nothing else.
pub fn vendor_build_file_contents(raze_packages: &Vec<Package>, workspace_prefix: &str) -> (r: String)
    ensures
        r@ == vendor_build_header() + vendor_aliases(raze_packages@, workspace_prefix@) + "\n"@,
{
    let mut aliases = String::new();
    let mut i: usize = 0;
    while i < raze_packages.len()
        invariant
            i <= raze_packages.len(),
            aliases@ == vendor_aliases(raze_packages@.take(i as int), workspace_prefix@),
        decreases raze_packages.len() - i,
    {
        assert(raze_packages@.take(i as int + 1).drop_last() =~= raze_packages@.take(i as int));
        let pkg = &raze_packages[i];
        if pkg.is_root_dependency {
            let sanitized = replace_dashes(pkg.id.name.as_str());
            aliases.append("\nalias(\n    name = \"");
            aliases.append(pkg.id.name.as_str());
            aliases.append("\",\n    actual = \"");
            aliases.append(workspace_prefix);
            aliases.append("/vendor/");
            aliases.append(pkg.full_name.as_str());
            aliases.append(":");
            aliases.append(sanitized.as_str());
            aliases.append("\",\n)\n");
        }
        i = i + 1;
    }
    assert(raze_packages@.take(i as int) =~= raze_packages@);
    let mut r = owned(
        "\"\"\"\ncargo-raze direct Cargo.toml dependencies.\n\nThis BUILD file provides aliases to explicit cargo dependencies and is\nthe only way to access vendored dependencies.\nIf a dependency is missing, add it as an explicit root dependency in\nCargo.toml and rerun raze.\nThis file is overridden on runs of raze; do not add anything to it.\nIf that is causing you pain, please drop a line in acmcarther/cargo-raze.\n\"\"\"\npackage(default_visibility = [\"//visibility:public\"])\n",
    );
    r.append(aliases.as_str());
    r.append("\n");
    r
}

/// The text of a crate's `Crate.bzl`: its description expression under a header naming it.
pub fn crate_bzl_file_contents(full_name: &str, description: &BExpr) -> (r: String)
    requires
        4 + 4 * nesting(*description) <= usize::MAX,
    ensures
        r@ == "\"\"\"\ncargo-raze generated details for "@ + full_name@
            + ".\n\nDO NOT MODIFY! Instead, update CargoOverrides.bzl.\n\"\"\"\ndescription = "@
            + pretty(*description, 4) + "\n"@,
{
    let expr = description.pretty_print();
    let mut r = owned("\"\"\"\ncargo-raze generated details for ");
    r.append(full_name);
    r.append(".\n\nDO NOT MODIFY! Instead, update CargoOverrides.bzl.\n\"\"\"\ndescription = ");
    r.append(expr.as_str());
    r.append("\n");
    r
}

/// The text of `CargoOverrides.bzl`: the override settings expression under a header
/// explaining how overrides work.
pub fn override_bzl_file_contents(override_cfg: &BExpr) -> (r: String)
    requires
        4 + 4 * nesting(*override_cfg) <= usize::MAX,
    ensures
        r@ == "\"\"\"\ncargo-raze vendor-wide override file\n\nMake your changes here. Bazel automatically integrates overrides from this\nfile and will not overwrite it on a rerun of cargo-raze.\n\nProperties defined here will take priority over generated properties.\n\nReruns of cargo-raze may change the versions of your dependencies. Fear not!\ncargo-raze will warn you if it detects an override for different version of a\ndependency, to prompt you to update the specified override version.\n\"\"\"\noverride_cfg = "@
            + pretty(*override_cfg, 4) + "\n"@,
{
    let expr = override_cfg.pretty_print();
    let mut r = owned(
        "\"\"\"\ncargo-raze vendor-wide override file\n\nMake your changes here. Bazel automatically integrates overrides from this\nfile and will not overwrite it on a rerun of cargo-raze.\n\nProperties defined here will take priority over generated properties.\n\nReruns of cargo-raze may change the versions of your dependencies. Fear not!\ncargo-raze will warn you if it detects an override for different version of a\ndependency, to prompt you to update the specified override version.\n\"\"\"\noverride_cfg = ",
    );
    r.append(expr.as_str());
    r.append("\n");
    r
}

/// The text of `Cargo.bzl`: the workspace expression under a do-not-edit header.
pub fn workspace_bzl_file_contents(workspace: &BExpr) -> (r: String)
    requires
        4 + 4 * nesting(*workspace) <= usize::MAX,
    ensures
        r@ == "\"\"\"\ncargo-raze vendor-wide workspace file\n\nDO NOT EDIT! Replaced on runs of cargo-raze\n\"\"\"\n\nworkspace = "@
            + pretty(*workspace, 4) + "\n"@,
{
    let expr = workspace.pretty_print();
    let mut r = owned(
        "\"\"\"\ncargo-raze vendor-wide workspace file\n\nDO NOT EDIT! Replaced on runs of cargo-raze\n\"\"\"\n\nworkspace = ",
    );
    r.append(expr.as_str());
    r.append("\n");
    r
}

/// A crate's BUILD file has two rules for its build script when it has one, and for its
/// library one rule, plus an alias when the library is named otherwise than the crate;
/// nothing else. The library rule, when there is one, comes last.
pub proof fn lemma_crate_build_rules_shape(pkg: Package, triple: Seq<char>, prefix: Seq<char>)
    ensures
        crate_build_rules(pkg, triple, prefix).len() == (if target_of_kind(pkg.targets@, "custom-build"@) is Some {
            2int
        } else {
            0int
        }) + match target_of_kind(pkg.targets@, "lib"@) {
            Some(t) => if dashes_to_underscores(t.name@) != dashes_to_underscores(pkg.id.name@) {
                2int
            } else {
                1int
            },
            None => 0int,
        },
        target_of_kind(pkg.targets@, "lib"@) matches Some(t) ==> crate_build_rules(pkg, triple, prefix).last()
            == library_rule(
            dashes_to_underscores(t.name@) + "_"@ + dashes_to_underscores(triple),
            t.path@,
            join(sorted_strs(dep_labels(prefix, pkg.dependencies@, dashes_to_underscores(triple))), ", "@),
            triple,
            if target_of_kind(pkg.targets@, "custom-build"@) is Some {
                "\":"@ + dashes_to_underscores(pkg.id.name@) + "_"@ + dashes_to_underscores(triple) + "_build_script_executor\""@
            } else {
                "None"@
            },
            join(sorted_strs(pkg.features@.map_values(|f: String| quoted(f@))), ", "@),
        ),
{
}

/// Only root dependencies get an alias in the vendor directory's BUILD file: without root
/// dependencies it has none.
pub proof fn lemma_vendor_aliases_only_roots(pkgs: Seq<Package>, prefix: Seq<char>)
    requires
        forall|i: int| 0 <= i < pkgs.len() ==> !(#[trigger] pkgs[i]).is_root_dependency,
    ensures
        vendor_aliases(pkgs, prefix) == Seq::<char>::empty(),
    decreases pkgs.len(),
{
    if pkgs.len() > 0 {
        assert(!pkgs[pkgs.len() - 1].is_root_dependency);
        lemma_vendor_aliases_only_roots(pkgs.drop_last(), prefix);
    }
}

/// A root dependency added after others adds its alias at the end of the aliases.
pub proof fn lemma_vendor_aliases_root_added(pkgs: Seq<Package>, pkg: Package, prefix: Seq<char>)
    requires
        pkg.is_root_dependency,
    ensures
        vendor_aliases(pkgs.push(pkg), prefix) == vendor_aliases(pkgs, prefix) + vendor_alias(pkg, prefix),
{
    assert(pkgs.push(pkg).drop_last() =~= pkgs);
}

/// A crate's BUILD rules do not depend on the order its dependencies, build dependencies and
/// features come in: the same ones, as many times each, in any order, give the same rules.
pub proof fn lemma_crate_build_rules_order_free(pkg: Package, other: Package, triple: Seq<char>, prefix: Seq<char>)
    requires
        other.id.name@ == pkg.id.name@,
        other.id.version@ == pkg.id.version@,
        other.targets@ == pkg.targets@,
        other.dependencies@.to_multiset() == pkg.dependencies@.to_multiset(),
        other.build_dependencies@.to_multiset() == pkg.build_dependencies@.to_multiset(),
        other.features@.to_multiset() == pkg.features@.to_multiset(),
    ensures
        crate_build_rules(other, triple, prefix) == crate_build_rules(pkg, triple, prefix),
{
    let pts = dashes_to_underscores(triple);
    let fq = |f: String| quoted(f@);
    let dl = |d: BuildDependency| dep_label(prefix, d, pts);
    lemma_map_same_multiset(other.features@, pkg.features@, fq);
    lemma_map_same_multiset(other.dependencies@, pkg.dependencies@, dl);
    lemma_map_same_multiset(other.build_dependencies@, pkg.build_dependencies@, dl);
    assert(other.features@.map_values(|f: String| quoted(f@)) =~= other.features@.map_values(fq));
    assert(pkg.features@.map_values(|f: String| quoted(f@)) =~= pkg.features@.map_values(fq));
    let no = dep_labels(prefix, other.dependencies@, pts);
    let np = dep_labels(prefix, pkg.dependencies@, pts);
    let bo = dep_labels(prefix, other.build_dependencies@, pts);
    let bp = dep_labels(prefix, pkg.build_dependencies@, pts);
    assert(no =~= other.dependencies@.map_values(dl));
    assert(np =~= pkg.dependencies@.map_values(dl));
    assert(bo =~= other.build_dependencies@.map_values(dl));
    assert(bp =~= pkg.build_dependencies@.map_values(dl));
    lemma_sorted_strs_order_free(other.features@.map_values(fq), pkg.features@.map_values(fq));
    lemma_sorted_strs_order_free(no, np);
    vstd::seq_lib::lemma_multiset_commutative(bo, no);
    vstd::seq_lib::lemma_multiset_commutative(bp, np);
    lemma_sorted_strs_order_free(bo + no, bp + np);
}

/// The line an item of a tuple or array takes when members are indented by `n` spaces.
pub open spec fn item_line(e: BExpr, n: nat) -> Seq<char> {
    spaces(n) + pretty(e, n + 4) + ",\n"@
}

/// The lines of the items of a tuple or array.
pub open spec fn item_lines(items: Seq<BExpr>, n: nat) -> Seq<Seq<char>> {
    items.map_values(|e: BExpr| item_line(e, n))
}

/// The line a field of a struct takes when members are indented by `n` spaces.
pub open spec fn field_line(f: (String, BExpr), n: nat) -> Seq<char> {
    spaces(n) + f.0@ + " = "@ + pretty(f.1, n + 4) + ",\n"@
}

/// The lines of the fields of a struct.
pub open spec fn field_lines(fields: Seq<(String, BExpr)>, n: nat) -> Seq<Seq<char>> {
    fields.map_values(|f: (String, BExpr)| field_line(f, n))
}

proof fn lemma_pretty_items_lines(items: Seq<BExpr>, n: nat)
    ensures
        pretty_items(items, n) == join(item_lines(items, n), ""@),
    decreases items.len(),
{
    if items.len() > 0 {
        lemma_pretty_items_lines(items.drop_last(), n);
        let m = item_lines(items, n);
        assert(item_lines(items.drop_last(), n) =~= m.drop_last());
        assert(m.last() == item_line(items.last(), n));
        if items.len() == 1 {
            assert(pretty_items(items.drop_last(), n) =~= Seq::<char>::empty());
            assert(pretty_items(items, n) =~= item_line(items[0], n));
        } else {
            reveal_strlit("");
            assert(join(m, ""@) == join(m.drop_last(), ""@) + ""@ + m.last());
            assert(pretty_items(items, n) =~= join(m, ""@));
        }
    }
}

proof fn lemma_pretty_fields_lines(fields: Seq<(String, BExpr)>, n: nat)
    ensures
        pretty_fields(fields, n) == join(field_lines(fields, n), ""@),
    decreases fields.len(),
{
    if fields.len() > 0 {
        lemma_pretty_fields_lines(fields.drop_last(), n);
        let m = field_lines(fields, n);
        assert(field_lines(fields.drop_last(), n) =~= m.drop_last());
        assert(m.last() == field_line(fields.last(), n));
        if fields.len() == 1 {
            assert(pretty_fields(fields.drop_last(), n) =~= Seq::<char>::empty());
            assert(pretty_fields(fields, n) =~= field_line(fields[0], n));
        } else {
            reveal_strlit("");
            assert(join(m, ""@) == join(m.drop_last(), ""@) + ""@ + m.last());
            assert(pretty_fields(fields, n) =~= join(m, ""@));
        }
    }
}

/// How an expression prints with members indented by `n` spaces: a present optional value
/// prints as the value and an absent one as `None`; a non-empty tuple, array or struct opens
/// its bracket, puts each member on a line of its own indented by `n` spaces, printed itself
/// with `n + 4`, and closes its bracket indented by `n - 4`.
pub proof fn lemma_pretty_layout(e: BExpr, n: nat)
    requires
        n >= 4,
    ensures
        e matches BExpr::Optional(Some(a)) ==> pretty(e, n) == pretty(*a, n),
        e matches BExpr::Optional(None) ==> pretty(e, n) == "None"@,
        e matches BExpr::Tuple(a) ==> a@.len() > 0 ==> pretty(e, n) == "(\n"@ + join(item_lines(a@, n), ""@) + spaces((n - 4) as nat) + ")"@,
        e matches BExpr::Array(a) ==> a@.len() > 0 ==> pretty(e, n) == "[\n"@ + join(item_lines(a@, n), ""@) + spaces((n - 4) as nat) + "]"@,
        e matches BExpr::Struct(s) ==> s@.len() > 0 ==> pretty(e, n) == "struct(\n"@ + join(field_lines(s@, n), ""@) + spaces((n - 4) as nat) + ")"@,
{
    match e {
        BExpr::Tuple(a) => lemma_pretty_items_lines(a@, n),
        BExpr::Array(a) => lemma_pretty_items_lines(a@, n),
        BExpr::Struct(s) => lemma_pretty_fields_lines(s@, n),
        _ => {},
    }
}

/// A dependency's label names the target its own BUILD file defines: after the crate's
/// vendored directory `{prefix}/vendor/{name}-{version}` and a `:`, the crate's name with
/// dashes turned into underscores, `_`, and the sanitized triple, in quotes. The target part
/// holds no dash.
pub proof fn lemma_dep_label_names_crate_rule(prefix: Seq<char>, d: BuildDependency, triple: Seq<char>)
    ensures
        ({
            let label = dep_label(prefix, d, dashes_to_underscores(triple));
            let dir = "\""@ + prefix + "/vendor/"@ + d.name@ + "-"@ + d.version@;
            let target = dashes_to_underscores(d.name@) + "_"@ + dashes_to_underscores(triple);
            &&& label == dir + ":"@ + target + "\""@
            &&& label.len() == dir.len() + 1 + target.len() + 1
            &&& label.skip(dir.len() + 1int).take(target.len() as int) == target
            &&& forall|i: int| 0 <= i < target.len() ==> #[trigger] target[i] != '-'
        }),
{
    reveal_strlit("_");
    reveal_strlit(":");
    reveal_strlit("\"");
    let label = dep_label(prefix, d, dashes_to_underscores(triple));
    let dir = "\""@ + prefix + "/vendor/"@ + d.name@ + "-"@ + d.version@;
    let n = dashes_to_underscores(d.name@);
    let t = dashes_to_underscores(triple);
    let target = n + "_"@ + t;
    assert(label =~= dir + ":"@ + target + "\""@);
    assert(label.skip(dir.len() + 1int).take(target.len() as int) =~= target);
    assert forall|i: int| 0 <= i < target.len() implies #[trigger] target[i] != '-' by {
        if i < n.len() {
            assert(target[i] == n[i]);
        } else if i == n.len() {
            assert(target[i] == '_');
        } else {
            assert(target[i] == t[i - n.len() - 1]);
        }
    }
}

/// A crate that is not a root dependency adds no alias to the vendor directory's BUILD file,
/// wherever it comes: the aliases with it added last are those without it.
pub proof fn lemma_vendor_aliases_non_root_added(pkgs: Seq<Package>, pkg: Package, prefix: Seq<char>)
    requires
        !pkg.is_root_dependency,
    ensures
        vendor_aliases(pkgs.push(pkg), prefix) == vendor_aliases(pkgs, prefix),
{
    assert(pkgs.push(pkg).drop_last() =~= pkgs);
}

/// The aliases of two lists of crates, one after the other, are the aliases of the first
/// followed by those of the second: every root dependency keeps its alias, whatever comes
/// before or after it.
pub proof fn lemma_vendor_aliases_append(a: Seq<Package>, b: Seq<Package>, prefix: Seq<char>)
    ensures
        vendor_aliases(a + b, prefix) == vendor_aliases(a, prefix) + vendor_aliases(b, prefix),
    decreases b.len(),
{
    if b.len() == 0 {
        assert(a + b =~= a);
        assert(vendor_aliases(a, prefix) + vendor_aliases(b, prefix) =~= vendor_aliases(a, prefix));
    } else {
        lemma_vendor_aliases_append(a, b.drop_last(), prefix);
        assert((a + b).drop_last() =~= a + b.drop_last());
        assert((a + b).last() == b.last());
    }
}

/// Every root dependency has its alias among the vendor directory's aliases: the aliases are
/// those before it, its own, then those after it.
pub proof fn lemma_vendor_alias_of_each_root(pkgs: Seq<Package>, i: int, prefix: Seq<char>)
    requires
        0 <= i < pkgs.len(),
        pkgs[i].is_root_dependency,
    ensures
        vendor_aliases(pkgs, prefix) == vendor_aliases(pkgs.take(i), prefix) + vendor_alias(pkgs[i], prefix)
            + vendor_aliases(pkgs.skip(i + 1), prefix),
{
    assert(pkgs =~= pkgs.take(i + 1) + pkgs.skip(i + 1));
    lemma_vendor_aliases_append(pkgs.take(i + 1), pkgs.skip(i + 1), prefix);
    assert(pkgs.take(i + 1) =~= pkgs.take(i).push(pkgs[i]));
    lemma_vendor_aliases_root_added(pkgs.take(i), pkgs[i], prefix);
}

/// A string prints as exactly its characters between double quotes, at any indentation.
pub proof fn lemma_string_prints_verbatim(s: String, n: nat)
    ensures
        pretty(BExpr::Str(s), n).len() == s@.len() + 2,
        pretty(BExpr::Str(s), n)[0] == '"',
        pretty(BExpr::Str(s), n)[s@.len() + 1int] == '"',
        pretty(BExpr::Str(s), n).subrange(1, s@.len() + 1int) == s@,
{
    reveal_strlit("\"");
    let p = pretty(BExpr::Str(s), n);
    assert(p =~= "\""@ + s@ + "\""@);
    assert(p.subrange(1, s@.len() + 1int) =~= s@);
}

/// `rule` is a rule of a BUILD file named `name`: an alias or a library.
pub open spec fn rule_named(rule: Seq<char>, name: Seq<char>) -> bool {
    ||| ("alias(\n    name = \""@ + name + "\","@).is_prefix_of(rule)
    ||| ("rust_library(\n    name = \""@ + name + "\","@).is_prefix_of(rule)
}

/// A dependency's label points at a rule that the dependency's own BUILD file defines: for a
/// vendored crate of the same name with a library, the label is the crate's directory, `:`,
/// and the name of one of that crate's rules, for the same triple and prefix.
pub proof fn lemma_dep_label_target_defined(prefix: Seq<char>, d: BuildDependency, q: Package, triple: Seq<char>)
    requires
        q.id.name@ == d.name@,
        target_of_kind(q.targets@, "lib"@) is Some,
    ensures
        exists|target: Seq<char>|
            dep_label(prefix, d, dashes_to_underscores(triple)) == "\""@ + prefix + "/vendor/"@ + d.name@ + "-"@
                + d.version@ + ":"@ + target + "\""@ && exists|j: int|
                0 <= j < crate_build_rules(q, triple, prefix).len() && rule_named(
                    #[trigger] crate_build_rules(q, triple, prefix)[j],
                    target,
                ),
{
    lemma_dep_label_names_crate_rule(prefix, d, triple);
    reveal_strlit("\",");
    reveal_strlit("\",\n    actual = \":");
    reveal_strlit("\",\n    crate_root = \"");
    let pts = dashes_to_underscores(triple);
    let cns = dashes_to_underscores(q.id.name@);
    let cp = cns + "_"@ + pts;
    let rules = crate_build_rules(q, triple, prefix);
    let t = target_of_kind(q.targets@, "lib"@)->0;
    let tp = dashes_to_underscores(t.name@) + "_"@ + pts;
    let n_script: int = if target_of_kind(q.targets@, "custom-build"@) is Some { 2 } else { 0 };
    let pa = "alias(\n    name = \""@ + cp + "\","@;
    let pl = "rust_library(\n    name = \""@ + cp + "\","@;
    if dashes_to_underscores(t.name@) != cns {
        let r = rules[n_script];
        assert(r == crate_alias_rule(cp, tp));
        assert(pa.is_prefix_of(r)) by {
            assert(r.subrange(0, pa.len() as int) =~= pa);
        }
        assert(rule_named(rules[n_script], cp));
    } else {
        assert(tp == cp);
        let j = rules.len() - 1;
        let r = rules[j];
        assert(r == library_rule(
            tp,
            t.path@,
            join(sorted_strs(dep_labels(prefix, q.dependencies@, pts)), ", "@),
            triple,
            if target_of_kind(q.targets@, "custom-build"@) is Some {
                "\":"@ + cp + "_build_script_executor\""@
            } else {
                "None"@
            },
            join(sorted_strs(q.features@.map_values(|f: String| quoted(f@))), ", "@),
        ));
        assert(pl.is_prefix_of(r)) by {
            assert(r.subrange(0, pl.len() as int) =~= pl);
        }
        assert(rule_named(rules[j], cp));
    }
}

} // verus!
