//! Stable insertion sort under a total preorder.
use vstd::prelude::*;

verus! {

/// A total preorder with an executable comparison.
pub trait Ordered: Sized {
    spec fn le(&self, other: &Self) -> bool;

    proof fn lemma_le_total(a: &Self, b: &Self)
        ensures
            a.le(b) || b.le(a),
    ;

    proof fn lemma_le_transitive(a: &Self, b: &Self, c: &Self)
        requires
            a.le(b),
            b.le(c),
        ensures
            a.le(c),
    ;

    fn le_exec(&self, other: &Self) -> (r: bool)
        ensures
            r == self.le(other),
    ;
}

/// Nondecreasing under `le`.
pub open spec fn sorted_le<T: Ordered>(s: Seq<T>) -> bool {
    forall|i: int, j: int| #![trigger s[i], s[j]] 0 <= i < j < s.len() ==> s[i].le(&s[j])
}

/// Inserts `x` after every element that is `le` it, keeping `v` sorted (stable).
pub fn insert_sorted<T: Ordered>(v: &mut Vec<T>, x: T)
    requires
        sorted_le(old(v)@),
    ensures
        sorted_le(final(v)@),
        final(v)@.to_multiset() == old(v)@.to_multiset().insert(x),
        final(v)@.len() == old(v)@.len() + 1,
{
    let mut p: usize = 0;
    while p < v.len() && v[p].le_exec(&x)
        invariant
            p <= v@.len(),
            v@ == old(v)@,
            sorted_le(v@),
            forall|i: int| 0 <= i < p ==> (#[trigger] v@[i]).le(&x),
        decreases v.len() - p,
    {
        p = p + 1;
    }
    let ghost s = v@;
    proof {
        if p < s.len() {
            T::lemma_le_total(&s[p as int], &x);
        }
    }
    v.insert(p, x);
    proof {
        broadcast use vstd::seq_lib::group_seq_properties;
        assert forall|i: int, j: int| #![trigger v@[i], v@[j]] 0 <= i < j < v@.len() implies v@[i].le(&v@[j]) by {
            if j < p {
                assert(v@[i] == s[i] && v@[j] == s[j]);
            } else if j == p {
                assert(v@[i] == s[i]);
            } else if i < p {
                assert(v@[i] == s[i] && v@[j] == s[j - 1]);
                assert(s[i].le(&x));
                if j - 1 > p {
                    T::lemma_le_transitive(&x, &s[p as int], &s[j - 1]);
                }
                T::lemma_le_transitive(&s[i], &x, &s[j - 1]);
            } else if i == p {
                assert(v@[j] == s[j - 1]);
                if j - 1 > p {
                    T::lemma_le_transitive(&x, &s[p as int], &s[j - 1]);
                }
            } else {
                assert(v@[i] == s[i - 1] && v@[j] == s[j - 1]);
            }
        };
        assert(v@ =~= s.insert(p as int, x));
        vstd::seq_lib::lemma_multiset_commutative(s.subrange(0, p as int), s.subrange(p as int, s.len() as int));
        assert(s =~= s.subrange(0, p as int) + s.subrange(p as int, s.len() as int));
        assert(v@ =~= s.subrange(0, p as int) + seq![x] + s.subrange(p as int, s.len() as int));
        vstd::seq_lib::lemma_multiset_commutative(s.subrange(0, p as int) + seq![x], s.subrange(p as int, s.len() as int));
        vstd::seq_lib::lemma_multiset_commutative(s.subrange(0, p as int), seq![x]);
    }
}

/// Sorts `v` stably under `le`.
pub fn sort_stable<T: Ordered>(v: Vec<T>) -> (r: Vec<T>)
    ensures
        sorted_le(r@),
        r@.to_multiset() == v@.to_multiset(),
        r@.len() == v@.len(),
{
    let mut out: Vec<T> = Vec::new();
    let mut rest = v;
    let ghost orig = rest@;
    proof {
        broadcast use vstd::seq_lib::group_seq_properties;
    }
    while rest.len() > 0
        invariant
            sorted_le(out@),
            out@.to_multiset().add(rest@.to_multiset()) == orig.to_multiset(),
            out@.len() + rest@.len() == orig.len(),
        decreases rest.len(),
    {
        let ghost before = rest@;
        let x = rest.remove(0);
        proof {
            assert(before =~= seq![x] + rest@);
            vstd::seq_lib::lemma_multiset_commutative(seq![x], rest@);
            broadcast use vstd::seq_lib::group_seq_properties;
        }
        insert_sorted(&mut out, x);
    }
    proof {
        broadcast use vstd::seq_lib::group_seq_properties;
        assert(rest@ =~= Seq::<T>::empty());
    }
    out
}

/// Applying `f` to each item keeps two sequences equal as multisets.
pub proof fn lemma_map_multiset<A, B>(a: Seq<A>, b: Seq<A>, f: spec_fn(A) -> B)
    requires
        a.to_multiset() == b.to_multiset(),
    ensures
        a.map_values(f).to_multiset() == b.map_values(f).to_multiset(),
    decreases a.len(),
{
    broadcast use vstd::seq_lib::group_to_multiset_ensures;
    broadcast use vstd::multiset::group_multiset_axioms;
    if a.len() == 0 {
        assert(b.to_multiset().len() == 0);
        assert(a.map_values(f) =~= Seq::<B>::empty());
        assert(b.map_values(f) =~= Seq::<B>::empty());
    } else {
        let x = a.last();
        let a1 = a.drop_last();
        assert(a =~= a1.push(x));
        assert(a.to_multiset() == a1.to_multiset().insert(x));
        assert(a.to_multiset().count(x) > 0);
        assert(b.contains(x));
        let i = choose|i: int| 0 <= i < b.len() && b[i] == x;
        let b1 = b.remove(i);
        assert(b1.to_multiset() == b.to_multiset().remove(x));
        assert(a1.to_multiset() =~= b1.to_multiset());
        lemma_map_multiset(a1, b1, f);
        let am = a.map_values(f);
        let bm = b.map_values(f);
        assert(am =~= a1.map_values(f).push(f(x)));
        assert(bm.remove(i) =~= b1.map_values(f));
        assert(am.to_multiset() == a1.map_values(f).to_multiset().insert(f(x)));
        assert(bm.remove(i).to_multiset() == bm.to_multiset().remove(f(x)));
        assert(bm[i] == f(x));
        assert(bm.contains(f(x)));
        assert(bm.to_multiset().count(f(x)) > 0);
        assert(am.to_multiset() =~= bm.to_multiset());
    }
}

} // verus!
