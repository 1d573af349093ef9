//! Character-level string helpers shared by the planners and the BUILD file writers:
//! building strings, replacing dashes, lexicographic order, joining and line splitting.
use vstd::prelude::*;
use vstd::string::StringExecFns;
use crate::sort::{Ordered, sorted_keys, keys, sort_stable, is_sorted};

verus! {

/// `String::push` appends one character at the end of the string.
pub assume_specification[ String::push ](s: &mut String, ch: char)
    ensures
        final(s)@ == old(s)@.push(ch),
;

/// The characters of a string slice, collected into a vector.
pub fn chars_of(s: &str) -> (v: Vec<char>)
    ensures
        v@ == s@,
{
    let mut v: Vec<char> = Vec::new();
    for c in it: s.chars()
        invariant
            v@ == it.seq().take(it.index() as int),
    {
        v.push(c);
    }
    v
}

/// A fresh string holding a copy of `s`.
pub fn owned(s: &str) -> (r: String)
    ensures
        r@ == s@,
{
    let mut r = String::new();
    r.append(s);
    r
}

/// `s` with every `-` replaced by `_` (what `s.replace("-", "_")` computes).
pub open spec fn dashes_to_underscores(s: Seq<char>) -> Seq<char> {
    Seq::new(s.len(), |i: int| if s[i] == '-' { '_' } else { s[i] })
}

/// Replaces every `-` of `s` by `_`, the way Bazel-friendly names are derived from crate names.
pub fn replace_dashes(s: &str) -> (r: String)
    ensures
        r@ == dashes_to_underscores(s@),
{
    let cs = chars_of(s);
    let mut r = String::new();
    let mut i: usize = 0;
    while i < cs.len()
        invariant
            cs@ == s@,
            i <= cs.len(),
            r@ == dashes_to_underscores(s@).take(i as int),
        decreases cs.len() - i,
    {
        let c = cs[i];
        if c == '-' {
            r.push('_');
        } else {
            r.push(c);
        }
        assert(dashes_to_underscores(s@).take(i as int + 1) =~= dashes_to_underscores(s@).take(
            i as int,
        ).push(if c == '-' { '_' } else { c }));
        i = i + 1;
    }
    assert(dashes_to_underscores(s@).take(i as int) =~= dashes_to_underscores(s@));
    r
}

/// Strict lexicographic order on character sequences, characters compared by code point.
/// This is the order of `<` on Rust strings: UTF-8 preserves code point order bytewise.
pub open spec fn str_lt(a: Seq<char>, b: Seq<char>) -> bool
    decreases a.len(),
{
    if a.len() == 0 {
        b.len() > 0
    } else if b.len() == 0 {
        false
    } else if (a[0] as u32) < (b[0] as u32) {
        true
    } else if (a[0] as u32) > (b[0] as u32) {
        false
    } else {
        str_lt(a.drop_first(), b.drop_first())
    }
}

/// Non-strict lexicographic order on character sequences.
pub open spec fn str_le(a: Seq<char>, b: Seq<char>) -> bool {
    a == b || str_lt(a, b)
}

proof fn lemma_char_eq(c: char, d: char)
    requires
        c as u32 == d as u32,
    ensures
        c == d,
{
}

/// `str_lt` is irreflexive and asymmetric, and any two distinct sequences are ordered.
pub proof fn lemma_str_lt_trichotomy(a: Seq<char>, b: Seq<char>)
    ensures
        !str_lt(a, a),
        str_lt(a, b) ==> !str_lt(b, a),
        a != b ==> str_lt(a, b) || str_lt(b, a),
    decreases a.len(),
{
    if a.len() > 0 && b.len() > 0 {
        lemma_str_lt_trichotomy(a.drop_first(), b.drop_first());
        lemma_str_lt_trichotomy(a.drop_first(), a.drop_first());
        if a != b && a[0] as u32 == b[0] as u32 {
            lemma_char_eq(a[0], b[0]);
            assert(a =~= seq![a[0]] + a.drop_first());
            assert(b =~= seq![b[0]] + b.drop_first());
        }
    } else if a.len() > 0 {
        lemma_str_lt_trichotomy(a.drop_first(), a.drop_first());
    } else if b.len() == 0 {
        assert(a =~= b);
    }
}

/// `str_lt` is transitive.
pub proof fn lemma_str_lt_transitive(a: Seq<char>, b: Seq<char>, c: Seq<char>)
    requires
        str_lt(a, b),
        str_lt(b, c),
    ensures
        str_lt(a, c),
    decreases a.len(),
{
    if a.len() > 0 && b.len() > 0 && c.len() > 0 {
        if a[0] as u32 == b[0] as u32 && b[0] as u32 == c[0] as u32 {
            lemma_str_lt_transitive(a.drop_first(), b.drop_first(), c.drop_first());
        }
    }
}

/// `str_le` is a total order.
pub proof fn lemma_str_le_total_order()
    ensures
        vstd::relations::total_ordering(|a: Seq<char>, b: Seq<char>| str_le(a, b)),
{
    assert forall|a: Seq<char>, b: Seq<char>| str_le(a, b) && str_le(b, a) implies a == b by {
        lemma_str_lt_trichotomy(a, b);
    }
    assert forall|a: Seq<char>, b: Seq<char>, c: Seq<char>|
        str_le(a, b) && str_le(b, c) implies str_le(a, c) by {
        if str_lt(a, b) && str_lt(b, c) {
            lemma_str_lt_transitive(a, b, c);
        }
    }
    assert forall|a: Seq<char>, b: Seq<char>| str_le(a, b) || str_le(b, a) by {
        lemma_str_lt_trichotomy(a, b);
    }
}

proof fn lemma_str_lt_skip(a: Seq<char>, b: Seq<char>, i: int)
    requires
        0 <= i < a.len(),
        i < b.len(),
        a[i] == b[i],
    ensures
        str_lt(a.skip(i), b.skip(i)) == str_lt(a.skip(i + 1), b.skip(i + 1)),
{
    assert(a.skip(i).drop_first() =~= a.skip(i + 1));
    assert(b.skip(i).drop_first() =~= b.skip(i + 1));
}

/// Compares two character sequences held in vectors.
pub fn chars_lt(a: &Vec<char>, b: &Vec<char>) -> (r: bool)
    ensures
        r == str_lt(a@, b@),
{
    let mut i: usize = 0;
    assert(a@.skip(0) =~= a@);
    assert(b@.skip(0) =~= b@);
    while i < a.len() && i < b.len()
        invariant
            i <= a.len(),
            i <= b.len(),
            str_lt(a@, b@) == str_lt(a@.skip(i as int), b@.skip(i as int)),
        decreases a.len() - i,
    {
        let x = a[i];
        let y = b[i];
        if (x as u32) < (y as u32) {
            return true;
        } else if (x as u32) > (y as u32) {
            return false;
        }
        proof {
            lemma_char_eq(x, y);
            lemma_str_lt_skip(a@, b@, i as int);
        }
        i = i + 1;
    }
    i < b.len()
}

/// Strict lexicographic comparison of two strings: `a < b` for Rust strings.
pub fn str_less(a: &str, b: &str) -> (r: bool)
    ensures
        r == str_lt(a@, b@),
{
    let av = chars_of(a);
    let bv = chars_of(b);
    chars_lt(&av, &bv)
}

/// Whether two strings hold the same characters.
pub fn str_equal(a: &str, b: &str) -> (r: bool)
    ensures
        r == (a@ == b@),
{
    let av = chars_of(a);
    let bv = chars_of(b);
    if av.len() != bv.len() {
        return false;
    }
    let mut i: usize = 0;
    while i < av.len()
        invariant
            av@ == a@,
            bv@ == b@,
            av.len() == bv.len(),
            i <= av.len(),
            forall|j: int| 0 <= j < i ==> av@[j] == bv@[j],
        decreases av.len() - i,
    {
        if av[i] != bv[i] {
            return false;
        }
        i = i + 1;
    }
    assert(av@ =~= bv@);
    true
}

/// The elements of `items` separated by `sep`.
pub open spec fn join(items: Seq<Seq<char>>, sep: Seq<char>) -> Seq<char>
    decreases items.len(),
{
    if items.len() == 0 {
        Seq::empty()
    } else if items.len() == 1 {
        items[0]
    } else {
        join(items.drop_last(), sep) + sep + items.last()
    }
}

/// The views of a vector of strings.
pub open spec fn views(v: Seq<String>) -> Seq<Seq<char>> {
    v.map_values(|s: String| s@)
}

/// Joins strings with a separator (what `items.join(sep)` computes).
pub fn join_strings(items: &Vec<String>, sep: &str) -> (r: String)
    ensures
        r@ == join(views(items@), sep@),
{
    let mut r = String::new();
    let mut i: usize = 0;
    while i < items.len()
        invariant
            i <= items.len(),
            r@ == join(views(items@).take(i as int), sep@),
        decreases items.len() - i,
    {
        if i > 0 {
            r.append(sep);
        }
        r.append(items[i].as_str());
        assert(views(items@).take(i as int + 1).drop_last() =~= views(items@).take(i as int));
        i = i + 1;
    }
    assert(views(items@).take(i as int) =~= views(items@));
    r
}

/// Index of the first occurrence of `needle` in `hay`, if there is one.
pub open spec fn first_occurrence(hay: Seq<char>, needle: Seq<char>) -> Option<int> {
    if exists|i: int|
        0 <= i && i + needle.len() <= hay.len() && #[trigger] hay.subrange(i, i + needle.len())
            == needle {
        Some(
            choose|i: int|
                0 <= i && i + needle.len() <= hay.len() && #[trigger] hay.subrange(
                    i,
                    i + needle.len(),
                ) == needle && forall|j: int|
                    0 <= j < i ==> #[trigger] hay.subrange(j, j + needle.len()) != needle,
        )
    } else {
        None
    }
}

proof fn lemma_first_occurrence(hay: Seq<char>, needle: Seq<char>, i: int)
    requires
        0 <= i && i + needle.len() <= hay.len(),
        hay.subrange(i, i + needle.len()) == needle,
        forall|j: int| 0 <= j < i ==> #[trigger] hay.subrange(j, j + needle.len()) != needle,
    ensures
        first_occurrence(hay, needle) == Some(i),
{
    let k = choose|k: int|
        0 <= k && k + needle.len() <= hay.len() && #[trigger] hay.subrange(k, k + needle.len())
            == needle && forall|j: int|
            0 <= j < k ==> #[trigger] hay.subrange(j, j + needle.len()) != needle;
    assert(0 <= k && k + needle.len() <= hay.len() && hay.subrange(k, k + needle.len()) == needle
        && forall|j: int| 0 <= j < k ==> #[trigger] hay.subrange(j, j + needle.len()) != needle);
    if k < i {
    } else if k > i {
    }
}

fn matches_at(hay: &Vec<char>, needle: &Vec<char>, i: usize) -> (r: bool)
    requires
        i + needle.len() <= hay.len(),
    ensures
        r == (hay@.subrange(i as int, i + needle.len()) == needle@),
{
    let mut k: usize = 0;
    while k < needle.len()
        invariant
            i + needle.len() <= hay.len(),
            k <= needle.len(),
            forall|j: int| 0 <= j < k ==> hay@[i + j] == needle@[j],
        decreases needle.len() - k,
    {
        if hay[i + k] != needle[k] {
            assert(hay@.subrange(i as int, i + needle.len())[k as int] != needle@[k as int]);
            return false;
        }
        k = k + 1;
    }
    assert(hay@.subrange(i as int, i + needle.len()) =~= needle@);
    true
}

/// The first position at which `needle` occurs in `hay`, counted in characters
/// (`str::find`, which counts bytes, finds the same occurrence).
pub fn find_chars(hay: &Vec<char>, needle: &Vec<char>) -> (r: Option<usize>)
    ensures
        match r {
            Some(i) => first_occurrence(hay@, needle@) == Some(i as int) && i + needle@.len()
                <= hay@.len(),
            None => first_occurrence(hay@, needle@) is None,
        },
{
    if needle.len() > hay.len() {
        return None;
    }
    if needle.len() == 0 {
        assert(hay@.subrange(0, 0) =~= needle@);
        proof {
            lemma_first_occurrence(hay@, needle@, 0);
        }
        return Some(0);
    }
    let last = hay.len() - needle.len();
    let mut i: usize = 0;
    while i <= last
        invariant
            needle.len() <= hay.len(),
            needle.len() > 0,
            last == hay.len() - needle.len(),
            i <= last + 1,
            forall|j: int| 0 <= j < i ==> #[trigger] hay@.subrange(j, j + needle@.len()) != needle@,
        decreases last + 1 - i,
    {
        if matches_at(hay, needle, i) {
            proof {
                lemma_first_occurrence(hay@, needle@, i as int);
            }
            return Some(i);
        }
        i = i + 1;
    }
    assert forall|j: int|
        0 <= j && j + needle@.len() <= hay@.len() implies #[trigger] hay@.subrange(
        j,
        j + needle@.len(),
    ) != needle@ by {
        assert(j < i);
    }
    None
}

/// A string made of the characters `cs[from..]`.
pub fn string_from_chars(cs: &Vec<char>, from: usize) -> (r: String)
    requires
        from <= cs.len(),
    ensures
        r@ == cs@.skip(from as int),
{
    let mut r = String::new();
    let mut i: usize = from;
    while i < cs.len()
        invariant
            from <= i <= cs.len(),
            r@ == cs@.subrange(from as int, i as int),
        decreases cs.len() - i,
    {
        r.push(cs[i]);
        assert(cs@.subrange(from as int, i + 1) =~= cs@.subrange(from as int, i as int).push(
            cs@[i as int],
        ));
        i = i + 1;
    }
    assert(cs@.subrange(from as int, i as int) =~= cs@.skip(from as int));
    r
}

/// Strings are ordered lexicographically by character.
impl Ordered for String {
    type Key = Seq<char>;

    open spec fn key(&self) -> Seq<char> {
        self@
    }

    open spec fn key_le(a: Seq<char>, b: Seq<char>) -> bool {
        str_le(a, b)
    }

    fn le_exec(&self, other: &Self) -> (r: bool) {
        proof {
            lemma_str_lt_trichotomy(self@, other@);
        }
        !str_less(other.as_str(), self.as_str())
    }

    proof fn lemma_total_preorder(a: Seq<char>, b: Seq<char>, c: Seq<char>) {
        lemma_str_lt_trichotomy(a, b);
        lemma_str_lt_trichotomy(a, c);
        if str_lt(a, b) && str_lt(b, c) {
            lemma_str_lt_transitive(a, b, c);
        }
    }
}

/// Character sequences in lexicographic order (`sort` on the strings they are the views of).
pub open spec fn sorted_strs(s: Seq<Seq<char>>) -> Seq<Seq<char>> {
    sorted_keys::<String>(s)
}

/// Sorts strings lexicographically.
pub fn sort_strings(v: Vec<String>) -> (r: Vec<String>)
    ensures
        views(r@) == sorted_strs(views(v@)),
{
    let ghost before = v@;
    let r = sort_stable(v);
    assert(keys(before) =~= views(before));
    assert(keys(r@) =~= views(r@));
    r
}

/// A copy of a vector of strings.
pub fn copy_strings(v: &Vec<String>) -> (r: Vec<String>)
    ensures
        views(r@) == views(v@),
{
    let mut out: Vec<String> = Vec::new();
    let mut i: usize = 0;
    while i < v.len()
        invariant
            i <= v.len(),
            views(out@) == views(v@).take(i as int),
        decreases v.len() - i,
    {
        let s = v[i].clone();
        let ghost before = out@;
        out.push(s);
        assert(views(out@) =~= views(before).push(v@[i as int]@));
        assert(views(v@).take(i as int + 1) =~= views(v@).take(i as int).push(v@[i as int]@));
        i = i + 1;
    }
    assert(views(v@).take(i as int) =~= views(v@));
    out
}

/// Replacing dashes keeps the length, leaves no dash, changes nothing but dashes, and
/// replacing again changes nothing.
pub proof fn lemma_dashes_to_underscores(s: Seq<char>)
    ensures
        dashes_to_underscores(s).len() == s.len(),
        forall|i: int| 0 <= i < s.len() ==> #[trigger] dashes_to_underscores(s)[i] != '-',
        forall|i: int| 0 <= i < s.len() && s[i] != '-' ==> #[trigger] dashes_to_underscores(s)[i] == s[i],
        dashes_to_underscores(dashes_to_underscores(s)) == dashes_to_underscores(s),
{
    assert(dashes_to_underscores(dashes_to_underscores(s)) =~= dashes_to_underscores(s));
}

/// Two sorted sequences holding the same strings are the same sequence.
proof fn lemma_sorted_strs_same(s: Seq<Seq<char>>, t: Seq<Seq<char>>)
    requires
        is_sorted::<String>(s),
        is_sorted::<String>(t),
        s.to_multiset() == t.to_multiset(),
    ensures
        s == t,
    decreases s.len(),
{
    broadcast use vstd::seq_lib::group_to_multiset_ensures;

    vstd::seq_lib::to_multiset_len(s);
    vstd::seq_lib::to_multiset_len(t);
    if s.len() == 0 {
        assert(t.len() == 0);
        assert(s =~= t);
    } else {
        assert(t.len() == s.len());
        assert(s.contains(s[0]));
        assert(t.to_multiset().count(s[0]) > 0);
        let j = choose|j: int| 0 <= j < t.len() && t[j] == s[0];
        assert(t.contains(t[0]));
        assert(s.to_multiset().count(t[0]) > 0);
        let i = choose|i: int| 0 <= i < s.len() && s[i] == t[0];
        if i > 0 {
            assert(<String as Ordered>::key_le(s[0], s[i]));
        }
        if j > 0 {
            assert(<String as Ordered>::key_le(t[0], t[j]));
        }
        lemma_str_lt_trichotomy(s[0], t[0]);
        assert(s[0] == t[0]);
        let s1 = s.remove(0);
        let t1 = t.remove(0);
        assert(s1.to_multiset() == s.to_multiset().remove(s[0]));
        assert(t1.to_multiset() == t.to_multiset().remove(t[0]));
        assert forall|a: int, b: int| 0 <= a < b < s1.len() implies #[trigger] <String as Ordered>::key_le(
            s1[a],
            s1[b],
        ) by {
            assert(s1[a] == s[a + 1] && s1[b] == s[b + 1]);
            assert(<String as Ordered>::key_le(s[a + 1], s[b + 1]));
        }
        assert forall|a: int, b: int| 0 <= a < b < t1.len() implies #[trigger] <String as Ordered>::key_le(
            t1[a],
            t1[b],
        ) by {
            assert(t1[a] == t[a + 1] && t1[b] == t[b + 1]);
            assert(<String as Ordered>::key_le(t[a + 1], t[b + 1]));
        }
        lemma_sorted_strs_same(s1, t1);
        assert(s =~= t) by {
            assert forall|k: int| 0 <= k < s.len() implies s[k] == t[k] by {
                if k > 0 {
                    assert(s[k] == s1[k - 1] && t[k] == t1[k - 1]);
                }
            }
        }
    }
}

/// Sorting does not depend on the order the strings come in: two sequences holding the same
/// strings, as many times each, sort to the same sequence.
pub proof fn lemma_sorted_strs_order_free(a: Seq<Seq<char>>, b: Seq<Seq<char>>)
    requires
        a.to_multiset() == b.to_multiset(),
    ensures
        sorted_strs(a) == sorted_strs(b),
{
    crate::sort::lemma_sorted_keys_is_sorted::<String>(a);
    crate::sort::lemma_sorted_keys_is_sorted::<String>(b);
    crate::sort::lemma_sorted_keys_permutes::<String>(a);
    crate::sort::lemma_sorted_keys_permutes::<String>(b);
    lemma_sorted_strs_same(sorted_keys::<String>(a), sorted_keys::<String>(b));
}

/// Applying a function to each element of two sequences that hold the same elements gives
/// two sequences that hold the same elements.
pub proof fn lemma_map_same_multiset<A, B>(a: Seq<A>, b: Seq<A>, f: spec_fn(A) -> B)
    requires
        a.to_multiset() == b.to_multiset(),
    ensures
        a.map_values(f).to_multiset() == b.map_values(f).to_multiset(),
    decreases a.len(),
{
    broadcast use vstd::seq_lib::group_to_multiset_ensures;
    broadcast use vstd::multiset::group_multiset_axioms;

    vstd::seq_lib::to_multiset_len(a);
    vstd::seq_lib::to_multiset_len(b);
    if a.len() == 0 {
        assert(b.len() == 0);
        assert(a.map_values(f) =~= b.map_values(f));
    } else {
        let x = a.last();
        let a1 = a.drop_last();
        assert(a1.push(x) =~= a);
        assert(a.contains(x));
        assert(b.to_multiset().count(x) > 0);
        let k = choose|k: int| 0 <= k < b.len() && b[k] == x;
        let b1 = b.remove(k);
        assert(b1.to_multiset() == b.to_multiset().remove(x));
        assert(a.to_multiset() == a1.to_multiset().insert(x));
        assert(a1.to_multiset() =~= a.to_multiset().remove(x));
        lemma_map_same_multiset(a1, b1, f);
        let ma = a.map_values(f);
        let mb = b.map_values(f);
        assert(a1.map_values(f).push(f(x)) =~= ma);
        assert(mb.remove(k) =~= b1.map_values(f));
        assert(mb.remove(k).to_multiset() == mb.to_multiset().remove(mb[k]));
        assert(mb.contains(mb[k]));
        assert(mb.to_multiset().count(f(x)) > 0);
        assert(mb.to_multiset() =~= mb.to_multiset().remove(f(x)).insert(f(x)));
    }
}

} // verus!
