//! A stable insertion sort, used wherever the planner orders names, dependencies and targets.
use vstd::prelude::*;
use vstd::multiset::Multiset;

verus! {

/// Values ordered by a key with a total preorder that executable code can test.
pub trait Ordered: Sized {
    /// What the order looks at.
    type Key;

    /// The key of a value.
    spec fn key(&self) -> Self::Key;

    /// Key `a` comes no later than key `b`.
    spec fn key_le(a: Self::Key, b: Self::Key) -> bool;

    /// Tests whether `self` comes no later than `other`.
    fn le_exec(&self, other: &Self) -> (r: bool)
        ensures
            r == Self::key_le(self.key(), other.key()),
    ;

    /// `key_le` is reflexive, total and transitive.
    proof fn lemma_total_preorder(a: Self::Key, b: Self::Key, c: Self::Key)
        ensures
            Self::key_le(a, a),
            Self::key_le(a, b) || Self::key_le(b, a),
            Self::key_le(a, b) && Self::key_le(b, c) ==> Self::key_le(a, c),
    ;
}

/// The keys of a sequence of values.
pub open spec fn keys<T: Ordered>(s: Seq<T>) -> Seq<T::Key> {
    s.map_values(|x: T| x.key())
}

/// Where key `x` goes in `t`: after every leading key that comes no later than `x`.
pub open spec fn insert_pos<T: Ordered>(t: Seq<T::Key>, x: T::Key) -> int
    decreases t.len(),
{
    if t.len() == 0 {
        0
    } else if !T::key_le(t[0], x) {
        0
    } else {
        1 + insert_pos::<T>(t.drop_first(), x)
    }
}

/// Keys `s` sorted by insertion, each placed after the equal ones before it.
pub open spec fn sorted_keys<T: Ordered>(s: Seq<T::Key>) -> Seq<T::Key>
    decreases s.len(),
{
    if s.len() == 0 {
        s
    } else {
        let t = sorted_keys::<T>(s.drop_last());
        t.insert(insert_pos::<T>(t, s.last()), s.last())
    }
}

/// Values `s` sorted stably by key: each placed after the values with keys no later than its own.
pub open spec fn sorted_seq<T: Ordered>(s: Seq<T>) -> Seq<T>
    decreases s.len(),
{
    if s.len() == 0 {
        s
    } else {
        let t = sorted_seq(s.drop_last());
        t.insert(insert_pos::<T>(keys(t), s.last().key()), s.last())
    }
}

/// Sorting values sorts their keys.
pub proof fn lemma_sorted_seq_keys<T: Ordered>(s: Seq<T>)
    ensures
        keys(sorted_seq(s)) == sorted_keys::<T>(keys(s)),
        sorted_seq(s).to_multiset() == s.to_multiset(),
    decreases s.len(),
{
    broadcast use vstd::seq_lib::group_to_multiset_ensures;

    if s.len() > 0 {
        lemma_sorted_seq_keys(s.drop_last());
        let t = sorted_seq(s.drop_last());
        assert(keys(s).drop_last() =~= keys(s.drop_last()));
        lemma_insert_pos::<T>(keys(t), s.last().key());
        let p = insert_pos::<T>(keys(t), s.last().key());
        assert(keys(t.insert(p, s.last())) =~= keys(t).insert(p, s.last().key()));
        lemma_insert_multiset(t, p, s.last());
        assert(s.drop_last().push(s.last()) =~= s);
        assert(s.to_multiset() =~= s.drop_last().to_multiset().insert(s.last()));
    }
}

/// Sorting two sequences related element by element, by a relation under which related
/// values have equal keys, gives sequences related element by element.
pub proof fn lemma_sorted_seq_congruent<T: Ordered>(a: Seq<T>, b: Seq<T>, rel: spec_fn(T, T) -> bool)
    requires
        a.len() == b.len(),
        forall|i: int| 0 <= i < a.len() ==> #[trigger] rel(a[i], b[i]),
        forall|x: T, y: T| #[trigger] rel(x, y) ==> x.key() == y.key(),
    ensures
        sorted_seq(a).len() == a.len(),
        sorted_seq(b).len() == b.len(),
        forall|i: int| 0 <= i < a.len() ==> #[trigger] rel(sorted_seq(a)[i], sorted_seq(b)[i]),
    decreases a.len(),
{
    if a.len() > 0 {
        let a0 = a.drop_last();
        let b0 = b.drop_last();
        assert forall|i: int| 0 <= i < a0.len() implies #[trigger] rel(a0[i], b0[i]) by {
            assert(rel(a[i], b[i]));
        }
        lemma_sorted_seq_congruent(a0, b0, rel);
        let ta = sorted_seq(a0);
        let tb = sorted_seq(b0);
        assert(keys(ta) =~= keys(tb)) by {
            assert forall|i: int| 0 <= i < ta.len() implies keys(ta)[i] == keys(tb)[i] by {
                assert(rel(ta[i], tb[i]));
            }
        }
        assert(rel(a.last(), b.last()));
        let p = insert_pos::<T>(keys(ta), a.last().key());
        lemma_insert_pos::<T>(keys(ta), a.last().key());
        assert(insert_pos::<T>(keys(tb), b.last().key()) == p);
        let ua = ta.insert(p, a.last());
        let ub = tb.insert(p, b.last());
        assert forall|i: int| 0 <= i < a.len() implies #[trigger] rel(sorted_seq(a)[i], sorted_seq(b)[i]) by {
            assert(sorted_seq(a) == ua);
            assert(sorted_seq(b) == ub);
            if i < p {
                assert(rel(ta[i], tb[i]));
            } else if i > p {
                assert(rel(ta[i - 1], tb[i - 1]));
            }
        }
    }
}

/// A borrowed value, ordered as the value itself is.
pub struct Borrowed<'a, T> {
    pub item: &'a T,
}

impl<'a, T: Ordered> Ordered for Borrowed<'a, T> {
    type Key = T::Key;

    open spec fn key(&self) -> T::Key {
        self.item.key()
    }

    open spec fn key_le(a: T::Key, b: T::Key) -> bool {
        T::key_le(a, b)
    }

    fn le_exec(&self, other: &Self) -> (r: bool) {
        self.item.le_exec(other.item)
    }

    proof fn lemma_total_preorder(a: T::Key, b: T::Key, c: T::Key) {
        T::lemma_total_preorder(a, b, c);
    }
}

proof fn lemma_insert_pos_borrowed<'a, T: Ordered>(t: Seq<T::Key>, x: T::Key)
    where
        T: 'a,
    ensures
        insert_pos::<Borrowed<'a, T>>(t, x) == insert_pos::<T>(t, x),
    decreases t.len(),
{
    if t.len() > 0 {
        lemma_insert_pos_borrowed::<'a, T>(t.drop_first(), x);
    }
}

/// Sorting borrows of values puts them in the order the values themselves sort in.
pub proof fn lemma_sorted_borrowed<'a, T: Ordered>(a: Seq<Borrowed<'a, T>>, b: Seq<T>)
    requires
        a.len() == b.len(),
        forall|i: int| 0 <= i < a.len() ==> *(#[trigger] a[i]).item == b[i],
    ensures
        sorted_seq(a).len() == a.len(),
        sorted_seq(b).len() == b.len(),
        forall|i: int| 0 <= i < a.len() ==> *(#[trigger] sorted_seq(a)[i]).item == sorted_seq(b)[i],
    decreases a.len(),
{
    if a.len() > 0 {
        let a0 = a.drop_last();
        let b0 = b.drop_last();
        assert forall|i: int| 0 <= i < a0.len() implies *(#[trigger] a0[i]).item == b0[i] by {
            assert(a0[i] == a[i]);
        }
        lemma_sorted_borrowed(a0, b0);
        let ta = sorted_seq(a0);
        let tb = sorted_seq(b0);
        assert(keys(ta) =~= keys(tb)) by {
            assert forall|i: int| 0 <= i < ta.len() implies keys(ta)[i] == keys(tb)[i] by {
                assert(*ta[i].item == tb[i]);
            }
        }
        assert(*a.last().item == b.last());
        let p = insert_pos::<T>(keys(tb), b.last().key());
        lemma_insert_pos_borrowed::<'a, T>(keys(ta), a.last().key());
        assert(insert_pos::<Borrowed<'a, T>>(keys(ta), a.last().key()) == p);
        lemma_insert_pos::<T>(keys(tb), b.last().key());
        let ua = ta.insert(p, a.last());
        let ub = tb.insert(p, b.last());
        assert forall|i: int| 0 <= i < a.len() implies *(#[trigger] sorted_seq(a)[i]).item == sorted_seq(b)[i] by {
            assert(sorted_seq(a) == ua);
            assert(sorted_seq(b) == ub);
            if i < p {
                assert(*ta[i].item == tb[i]);
            } else if i > p {
                assert(*ta[i - 1].item == tb[i - 1]);
            }
        }
    }
}

/// Every key comes no later than each key after it.
pub open spec fn is_sorted<T: Ordered>(s: Seq<T::Key>) -> bool {
    forall|i: int, j: int| 0 <= i < j < s.len() ==> #[trigger] T::key_le(s[i], s[j])
}

proof fn lemma_insert_pos<T: Ordered>(t: Seq<T::Key>, x: T::Key)
    ensures
        0 <= insert_pos::<T>(t, x) <= t.len(),
        forall|i: int| 0 <= i < insert_pos::<T>(t, x) ==> #[trigger] T::key_le(t[i], x),
        insert_pos::<T>(t, x) < t.len() ==> !T::key_le(t[insert_pos::<T>(t, x)], x),
    decreases t.len(),
{
    if t.len() > 0 && T::key_le(t[0], x) {
        lemma_insert_pos::<T>(t.drop_first(), x);
        assert forall|i: int| 0 <= i < insert_pos::<T>(t, x) implies #[trigger] T::key_le(
            t[i],
            x,
        ) by {
            if i > 0 {
                assert(t[i] == t.drop_first()[i - 1]);
            }
        }
    }
}

proof fn lemma_insert_pos_unique<T: Ordered>(t: Seq<T::Key>, x: T::Key, p: int)
    requires
        0 <= p <= t.len(),
        forall|i: int| 0 <= i < p ==> #[trigger] T::key_le(t[i], x),
        p < t.len() ==> !T::key_le(t[p], x),
    ensures
        insert_pos::<T>(t, x) == p,
    decreases t.len(),
{
    if t.len() > 0 && p > 0 {
        assert(T::key_le(t[0], x));
        assert forall|i: int| 0 <= i < p - 1 implies #[trigger] T::key_le(t.drop_first()[i], x) by {
            assert(t.drop_first()[i] == t[i + 1]);
        }
        lemma_insert_pos_unique::<T>(t.drop_first(), x, p - 1);
    }
}

/// Inserting at `insert_pos` keeps a sorted sequence sorted.
pub proof fn lemma_insert_sorted<T: Ordered>(t: Seq<T::Key>, x: T::Key)
    requires
        is_sorted::<T>(t),
    ensures
        is_sorted::<T>(t.insert(insert_pos::<T>(t, x), x)),
{
    lemma_insert_pos::<T>(t, x);
    let p = insert_pos::<T>(t, x);
    let u = t.insert(p, x);
    assert forall|i: int, j: int| 0 <= i < j < u.len() implies #[trigger] T::key_le(
        u[i],
        u[j],
    ) by {
        if j < p {
        } else if j == p {
            assert(u[i] == t[i]);
        } else if i < p {
            assert(u[j] == t[j - 1]);
            assert(u[i] == t[i]);
            T::lemma_total_preorder(t[p], x, t[j - 1]);
            T::lemma_total_preorder(x, t[p], t[j - 1]);
            if p < j - 1 {
                assert(T::key_le(t[p], t[j - 1]));
            }
            T::lemma_total_preorder(t[i], x, t[j - 1]);
        } else if i == p {
            assert(u[j] == t[j - 1]);
            T::lemma_total_preorder(t[p], x, t[j - 1]);
            T::lemma_total_preorder(x, t[p], t[j - 1]);
            if p < j - 1 {
                assert(T::key_le(t[p], t[j - 1]));
            }
        } else {
            assert(u[i] == t[i - 1]);
            assert(u[j] == t[j - 1]);
        }
    }
}

/// The sort orders its input.
pub proof fn lemma_sorted_keys_is_sorted<T: Ordered>(s: Seq<T::Key>)
    ensures
        is_sorted::<T>(sorted_keys::<T>(s)),
    decreases s.len(),
{
    if s.len() > 0 {
        lemma_sorted_keys_is_sorted::<T>(s.drop_last());
        lemma_insert_sorted::<T>(sorted_keys::<T>(s.drop_last()), s.last());
    }
}

/// The sort rearranges its input: it neither loses nor adds a key.
pub proof fn lemma_sorted_keys_permutes<T: Ordered>(s: Seq<T::Key>)
    ensures
        sorted_keys::<T>(s).to_multiset() =~= s.to_multiset(),
        sorted_keys::<T>(s).len() == s.len(),
    decreases s.len(),
{
    broadcast use vstd::seq_lib::group_to_multiset_ensures;

    if s.len() > 0 {
        let t = sorted_keys::<T>(s.drop_last());
        lemma_sorted_keys_permutes::<T>(s.drop_last());
        lemma_insert_pos::<T>(t, s.last());
        let p = insert_pos::<T>(t, s.last());
        let u = t.insert(p, s.last());
        assert(u.remove(p) =~= t);
        assert(u[p] == s.last());
        assert(u.remove(p).to_multiset() =~= u.to_multiset().remove(u[p]));
        assert(s.drop_last().push(s.last()) =~= s);
        assert(s.to_multiset() =~= s.drop_last().to_multiset().insert(s.last()));
        assert(u.to_multiset().count(s.last()) > 0) by {
            assert(u.contains(s.last()));
        }
    }
}

proof fn lemma_insert_multiset<A>(t: Seq<A>, p: int, x: A)
    requires
        0 <= p <= t.len(),
    ensures
        t.insert(p, x).to_multiset() =~= t.to_multiset().insert(x),
{
    broadcast use vstd::seq_lib::group_to_multiset_ensures;

    let u = t.insert(p, x);
    assert(u.remove(p) =~= t);
    assert(u.remove(p).to_multiset() =~= u.to_multiset().remove(u[p]));
    assert(u.to_multiset().count(x) > 0) by {
        assert(u[p] == x);
        assert(u.contains(x));
    }
}

fn insert_sorted<T: Ordered>(out: &mut Vec<T>, x: T)
    ensures
        final(out)@ == old(out)@.insert(insert_pos::<T>(keys(old(out)@), x.key()), x),
        final(out)@.len() == old(out)@.len() + 1,
{
    let mut j: usize = 0;
    while j < out.len() && out[j].le_exec(&x)
        invariant
            j <= out.len(),
            forall|i: int| 0 <= i < j ==> #[trigger] T::key_le(keys(out@)[i], x.key()),
        decreases out.len() - j,
    {
        j = j + 1;
    }
    proof {
        lemma_insert_pos_unique::<T>(keys(out@), x.key(), j as int);
    }
    out.insert(j, x);
}

/// Sorts `v` stably by key, as `v.sort()` or `v.sort_by_key(..)` does.
pub fn sort_stable<T: Ordered>(v: Vec<T>) -> (r: Vec<T>)
    ensures
        r@ == sorted_seq(v@),
        r@.len() == v@.len(),
        keys(r@) == sorted_keys::<T>(keys(v@)),
        r@.to_multiset() == v@.to_multiset(),
{
    let ghost orig = v@;
    let mut v = v;
    let n = v.len();
    let mut out: Vec<T> = Vec::new();
    let mut k: usize = 0;
    while v.len() > 0
        invariant
            k <= orig.len(),
            k + v.len() == orig.len(),
            n == orig.len(),
            v@ == orig.skip(k as int),
            out@ == sorted_seq(orig.take(k as int)),
            out@.len() == k,
        decreases v.len(),
    {
        let x = v.remove(0);
        assert(orig.take(k as int + 1).drop_last() =~= orig.take(k as int));
        assert(orig.take(k as int + 1).last() == x);
        insert_sorted(&mut out, x);
        k = k + 1;
        assert(orig.skip(k as int) =~= orig.skip(k - 1).drop_first());
    }
    assert(orig.take(k as int) =~= orig);
    proof {
        lemma_sorted_seq_keys(orig);
    }
    out
}

} // verus!
