//! Stable sorting by a key (what `slice::sort_by` does): the result is in
//! key order, and the items sharing a key keep their original order.

use vstd::prelude::*;

verus! {

/// Items ordered by a key with a strict order on keys.
pub trait SortKey: Sized {
    type K;

    spec fn key(self) -> Self::K;

    /// `a` sorts strictly before `b`.
    spec fn key_lt(a: Self::K, b: Self::K) -> bool;

    proof fn lemma_lt_irreflexive(a: Self::K)
        ensures
            !Self::key_lt(a, a),
    ;

    proof fn lemma_lt_transitive(a: Self::K, b: Self::K, c: Self::K)
        requires
            Self::key_lt(a, b),
            Self::key_lt(b, c),
        ensures
            Self::key_lt(a, c),
    ;

    fn sorts_before(&self, other: &Self) -> (r: bool)
        ensures
            r == Self::key_lt(self.key(), other.key()),
    ;
}

/// No item sorts strictly before one that precedes it.
pub open spec fn is_sorted<T: SortKey>(s: Seq<T>) -> bool {
    forall|i: int, j: int| 0 <= i < j < s.len() ==> !T::key_lt(#[trigger] s[j].key(), #[trigger] s[i].key())
}

/// The items of `s` whose key is `k`, in order.
pub open spec fn with_key<T: SortKey>(s: Seq<T>, k: T::K) -> Seq<T>
    decreases s.len(),
{
    if s.len() == 0 {
        Seq::empty()
    } else if s.last().key() == k {
        with_key(s.drop_last(), k).push(s.last())
    } else {
        with_key(s.drop_last(), k)
    }
}

/// `r` is `s` sorted stably: in key order, each key's items in their
/// original order.
pub open spec fn is_stable_sort_of<T: SortKey>(r: Seq<T>, s: Seq<T>) -> bool {
    &&& is_sorted(r)
    &&& forall|k: T::K| #[trigger] with_key(r, k) == with_key(s, k)
}

pub proof fn lemma_with_key_add<T: SortKey>(a: Seq<T>, b: Seq<T>, k: T::K)
    ensures
        with_key(a + b, k) == with_key(a, k) + with_key(b, k),
    decreases b.len(),
{
    if b.len() == 0 {
        assert(a + b =~= a);
        assert(with_key(a, k) + with_key(b, k) =~= with_key(a, k));
    } else {
        assert((a + b).drop_last() =~= a + b.drop_last());
        assert((a + b).last() == b.last());
        lemma_with_key_add(a, b.drop_last(), k);
        if b.last().key() == k {
            assert(with_key(a, k) + with_key(b.drop_last(), k).push(b.last()) =~= (with_key(a, k)
                + with_key(b.drop_last(), k)).push(b.last()));
        }
    }
}

pub proof fn lemma_with_key_none<T: SortKey>(s: Seq<T>, k: T::K)
    requires
        forall|i: int| 0 <= i < s.len() ==> #[trigger] s[i].key() != k,
    ensures
        with_key(s, k) == Seq::<T>::empty(),
    decreases s.len(),
{
    if s.len() > 0 {
        assert(s.last().key() != k);
        lemma_with_key_none(s.drop_last(), k);
    }
}

proof fn lemma_with_key_single<T: SortKey>(x: T, k: T::K)
    ensures
        with_key(seq![x], k) == (if x.key() == k {
            seq![x]
        } else {
            Seq::<T>::empty()
        }),
{
    let e = Seq::<T>::empty();
    assert(seq![x].drop_last() =~= e);
    assert(seq![x].last() == x);
    assert(with_key(e, k) == e);
    assert(with_key(seq![x], k) == if x.key() == k {
        with_key(e, k).push(x)
    } else {
        with_key(e, k)
    });
    if x.key() == k {
        assert(Seq::<T>::empty().push(x) =~= seq![x]);
    }
}

/// Where `x` goes in the sorted `out` to keep the sort stable: after every
/// item it does not sort strictly before.
fn insertion_point<T: SortKey>(out: &Vec<T>, x: &T) -> (p: usize)
    ensures
        p <= out@.len(),
        forall|i: int| 0 <= i < p ==> !T::key_lt(x.key(), #[trigger] out@[i].key()),
        p < out@.len() ==> T::key_lt(x.key(), out@[p as int].key()),
{
    let mut i: usize = 0;
    while i < out.len()
        invariant
            i <= out@.len(),
            forall|k: int| 0 <= k < i ==> !T::key_lt(x.key(), #[trigger] out@[k].key()),
        decreases out.len() - i,
    {
        if x.sorts_before(&out[i]) {
            return i;
        }
        i = i + 1;
    }
    i
}

proof fn lemma_insert_keeps_sorted<T: SortKey>(out: Seq<T>, x: T, p: int)
    requires
        is_sorted(out),
        0 <= p <= out.len(),
        forall|i: int| 0 <= i < p ==> !T::key_lt(x.key(), #[trigger] out[i].key()),
        p < out.len() ==> T::key_lt(x.key(), out[p].key()),
    ensures
        is_sorted(out.insert(p, x)),
{
    let r = out.insert(p, x);
    assert forall|i: int, j: int| 0 <= i < j < r.len() implies !T::key_lt(
        #[trigger] r[j].key(),
        #[trigger] r[i].key(),
    ) by {
        if j < p {
            assert(r[i] == out[i] && r[j] == out[j]);
        } else if j == p {
            assert(r[i] == out[i]);
        } else if i == p {
            // r[j] == out[j - 1], which does not sort before out[p].
            assert(r[j] == out[j - 1]);
            if T::key_lt(out[j - 1].key(), x.key()) {
                T::lemma_lt_transitive(out[j - 1].key(), x.key(), out[p].key());
                if j - 1 == p {
                    T::lemma_lt_irreflexive(out[p].key());
                } else {
                    assert(!T::key_lt(out[j - 1].key(), out[p].key()));
                }
            }
        } else if i < p {
            assert(r[i] == out[i] && r[j] == out[j - 1]);
        } else {
            assert(r[i] == out[i - 1] && r[j] == out[j - 1]);
        }
    }
}

proof fn lemma_insert_classes<T: SortKey>(out: Seq<T>, x: T, p: int, k: T::K)
    requires
        is_sorted(out),
        0 <= p <= out.len(),
        p < out.len() ==> T::key_lt(x.key(), out[p].key()),
    ensures
        with_key(out.insert(p, x), k) == (if x.key() == k {
            with_key(out, k).push(x)
        } else {
            with_key(out, k)
        }),
{
    let a = out.take(p);
    let b = out.skip(p);
    assert(out.insert(p, x) =~= a + seq![x] + b);
    assert(out =~= a + b);
    lemma_with_key_add(a + seq![x], b, k);
    lemma_with_key_add(a, seq![x], k);
    lemma_with_key_add(a, b, k);
    lemma_with_key_single(x, k);
    if x.key() == k {
        // Every item from p on sorts strictly after x, so none has x's key.
        assert forall|i: int| 0 <= i < b.len() implies #[trigger] b[i].key() != k by {
            assert(b[i] == out[p + i]);
            if b[i].key() == k {
                if i == 0 {
                    T::lemma_lt_irreflexive(k);
                } else {
                    assert(!T::key_lt(out[p + i].key(), out[p].key()));
                }
            }
        }
        lemma_with_key_none(b, k);
        assert(with_key(a, k) + seq![x] + Seq::<T>::empty() =~= (with_key(a, k) + Seq::<T>::empty()).push(x));
    } else {
        assert(with_key(a, k) + Seq::<T>::empty() + with_key(b, k) =~= with_key(a, k) + with_key(b, k));
    }
}

/// `v` sorted stably by key.
pub fn stable_sort<T: SortKey>(v: Vec<T>) -> (r: Vec<T>)
    ensures
        is_stable_sort_of(r@, v@),
{
    let ghost orig = v@;
    let mut rest = v;
    let mut out: Vec<T> = Vec::new();
    proof {
        assert forall|k: T::K| #[trigger] with_key(out@, k) == with_key(orig.take(0), k) by {
            assert(orig.take(0) =~= Seq::<T>::empty());
            assert(out@ =~= Seq::<T>::empty());
        }
    }
    while rest.len() > 0
        invariant
            rest@.len() <= orig.len(),
            forall|i: int|
                0 <= i < rest@.len() ==> #[trigger] rest@[i] == orig[orig.len() - rest@.len() + i],
            is_sorted(out@),
            forall|k: T::K|
                #[trigger] with_key(out@, k) == with_key(orig.take(orig.len() - rest@.len()), k),
        decreases rest@.len(),
    {
        let ghost n = orig.len() - rest@.len();
        let x = rest.remove(0);
        proof {
            assert(x == orig[n]);
        }
        let p = insertion_point(&out, &x);
        let ghost before = out@;
        proof {
            lemma_insert_keeps_sorted(before, x, p as int);
        }
        out.insert(p, x);
        proof {
            assert forall|k: T::K| #[trigger] with_key(out@, k) == with_key(orig.take(n + 1), k) by {
                lemma_insert_classes(before, x, p as int, k);
                assert(orig.take(n + 1).drop_last() =~= orig.take(n));
                assert(orig.take(n + 1).last() == x);
            }
        }
    }
    proof {
        assert(orig.take(orig.len() as int) =~= orig);
    }
    out
}

} // verus!
