//! Vectors kept strictly sorted by a textual key: the ordered maps and sets of the model.
use vstd::prelude::*;
use crate::text::{chars_lt, str_eq, chars_of, lemma_lt_total, lemma_lt_transitive, seq_lt};

verus! {

/// A value identified by a textual key.
pub trait Keyed: Sized {
    spec fn key(&self) -> Seq<char>;

    fn key_string(&self) -> (r: String)
        ensures
            r@ == self.key(),
    ;
}

/// Keys strictly increase along the sequence (so no key occurs twice).
pub open spec fn strictly_sorted<T: Keyed>(s: Seq<T>) -> bool {
    forall|i: int, j: int| 0 <= i < j < s.len() ==> seq_lt(#[trigger] s[i].key(), #[trigger] s[j].key())
}

pub open spec fn has_key<T: Keyed>(s: Seq<T>, k: Seq<char>) -> bool {
    exists|i: int| 0 <= i < s.len() && #[trigger] s[i].key() == k
}

/// Position of key `k` in `v`, if present.
pub fn find_key<T: Keyed>(v: &Vec<T>, k: &str) -> (r: Option<usize>)
    ensures
        r matches Some(i) ==> i < v@.len() && v@[i as int].key() == k@
            && forall|j: int| 0 <= j < i ==> (#[trigger] v@[j]).key() != k@,
        r is None ==> !has_key(v@, k@),
{
    let mut i: usize = 0;
    while i < v.len()
        invariant
            i <= v@.len(),
            forall|j: int| 0 <= j < i ==> v@[j].key() != k@,
        decreases v.len() - i,
    {
        let key = v[i].key_string();
        if str_eq(key.as_str(), k) {
            return Some(i);
        }
        i = i + 1;
    }
    None
}

fn key_lt<T: Keyed>(x: &T, kc: &Vec<char>) -> (r: bool)
    ensures
        r == seq_lt(x.key(), kc@),
{
    let s = x.key_string();
    let c = chars_of(s.as_str());
    chars_lt(&c, kc)
}

/// Insertion that keeps `v` strictly sorted; an element with the same key is replaced
/// (the semantics of `BTreeMap::insert` keyed by `key`).
pub fn upsert<T: Keyed>(v: &mut Vec<T>, item: T)
    requires
        strictly_sorted(old(v)@),
    ensures
        strictly_sorted(final(v)@),
        final(v)@.contains(item),
        forall|x: T| #[trigger] final(v)@.contains(x) ==> x == item || old(v)@.contains(x),
        forall|x: T| #[trigger] old(v)@.contains(x) && x.key() != item.key() ==> final(v)@.contains(x),
        forall|k: Seq<char>| #[trigger] has_key(final(v)@, k) <==> (has_key(old(v)@, k) || k
            == item.key()),
{
    let k = item.key_string();
    let kc = chars_of(k.as_str());
    let mut i: usize = 0;
    while i < v.len() && key_lt(&v[i], &kc)
        invariant
            i <= v@.len(),
            v@ == old(v)@,
            kc@ == item.key(),
            strictly_sorted(v@),
            forall|j: int| 0 <= j < i ==> seq_lt(#[trigger] v@[j].key(), item.key()),
        decreases v.len() - i,
    {
        i = i + 1;
    }
    let ghost old_v = v@;
    if i < v.len() {
        let other = v[i].key_string();
        if str_eq(other.as_str(), k.as_str()) {
            v.set(i, item);
            proof {
                assert forall|a: int, b: int| 0 <= a < b < v@.len() implies seq_lt(
                    #[trigger] v@[a].key(),
                    #[trigger] v@[b].key(),
                ) by {
                    assert(old_v[a].key() == v@[a].key() || a == i);
                    assert(old_v[b].key() == v@[b].key() || b == i);
                };
                assert forall|x: T| #[trigger] old_v.contains(x) && x.key() != item.key() implies v@.contains(x) by {
                    let j = choose|j: int| 0 <= j < old_v.len() && old_v[j] == x;
                    assert(j != i);
                    assert(v@[j] == x);
                };
                assert forall|x: T| #[trigger] v@.contains(x) implies x == item || old_v.contains(x) by {
                    let j = choose|j: int| 0 <= j < v@.len() && v@[j] == x;
                    if j != i {
                        assert(old_v[j] == x);
                    }
                };
                assert forall|kk: Seq<char>| #[trigger] has_key(v@, kk) <==> (has_key(old_v, kk) || kk == item.key()) by {
                    if has_key(v@, kk) {
                        let j = choose|j: int| 0 <= j < v@.len() && v@[j].key() == kk;
                        if j != i {
                            assert(old_v[j].key() == kk);
                        }
                    }
                    if has_key(old_v, kk) {
                        let j = choose|j: int| 0 <= j < old_v.len() && old_v[j].key() == kk;
                        assert(v@[j].key() == kk);
                    }
                    if kk == item.key() {
                        assert(v@[i as int].key() == kk);
                    }
                };
                assert(v@[i as int] == item);
            }
            return;
        }
        proof {
            lemma_lt_total(other@, k@);
        }
    }
    v.insert(i, item);
    proof {
        assert forall|a: int, b: int| 0 <= a < b < v@.len() implies seq_lt(
            #[trigger] v@[a].key(),
            #[trigger] v@[b].key(),
        ) by {
            if a < i && b < i {
                assert(v@[a] == old_v[a] && v@[b] == old_v[b]);
            } else if a < i && b == i {
            } else if a < i && b > i {
                assert(v@[b] == old_v[b - 1]);
                assert(seq_lt(old_v[a].key(), item.key()));
                if b - 1 > i {
                    assert(seq_lt(old_v[i as int].key(), old_v[b - 1].key()));
                    lemma_lt_transitive(item.key(), old_v[i as int].key(), old_v[b - 1].key());
                }
                lemma_lt_transitive(old_v[a].key(), item.key(), old_v[b - 1].key());
            } else if a == i {
                assert(v@[b] == old_v[b - 1]);
                if b - 1 > i {
                    assert(seq_lt(old_v[i as int].key(), old_v[b - 1].key()));
                    lemma_lt_transitive(item.key(), old_v[i as int].key(), old_v[b - 1].key());
                }
            } else {
                assert(v@[a] == old_v[a - 1] && v@[b] == old_v[b - 1]);
            }
        };
        assert(v@[i as int] == item);
        assert forall|x: T| #[trigger] old_v.contains(x) && x.key() != item.key() implies v@.contains(x) by {
            let j = choose|j: int| 0 <= j < old_v.len() && old_v[j] == x;
            if j < i {
                assert(v@[j] == x);
            } else {
                assert(v@[j + 1] == x);
            }
        };
        assert forall|x: T| #[trigger] v@.contains(x) implies x == item || old_v.contains(x) by {
            let j = choose|j: int| 0 <= j < v@.len() && v@[j] == x;
            if j < i {
                assert(old_v[j] == x);
            } else if j > i {
                assert(old_v[j - 1] == x);
            }
        };
        assert forall|kk: Seq<char>| #[trigger] has_key(v@, kk) <==> (has_key(old_v, kk) || kk == item.key()) by {
            if has_key(v@, kk) {
                let j = choose|j: int| 0 <= j < v@.len() && v@[j].key() == kk;
                if j < i {
                    assert(old_v[j].key() == kk);
                } else if j > i {
                    assert(old_v[j - 1].key() == kk);
                }
            }
            if has_key(old_v, kk) {
                let j = choose|j: int| 0 <= j < old_v.len() && old_v[j].key() == kk;
                if j < i {
                    assert(v@[j].key() == kk);
                } else {
                    assert(v@[j + 1].key() == kk);
                }
            }
            if kk == item.key() {
                assert(v@[i as int].key() == kk);
            }
        };
    }
}

/// A string as a keyed value (a member of an ordered set of strings).
impl Keyed for String {
    open spec fn key(&self) -> Seq<char> {
        self@
    }

    fn key_string(&self) -> (r: String) {
        self.clone()
    }
}

/// `true` when `s` holds `k`.
pub open spec fn set_has(s: Seq<String>, k: Seq<char>) -> bool {
    exists|i: int| 0 <= i < s.len() && #[trigger] s[i]@ == k
}

/// Membership test in a vector of strings.
pub fn contains_str(v: &Vec<String>, k: &str) -> (r: bool)
    ensures
        r == set_has(v@, k@),
{
    let mut i: usize = 0;
    while i < v.len()
        invariant
            i <= v@.len(),
            forall|j: int| 0 <= j < i ==> v@[j]@ != k@,
        decreases v.len() - i,
    {
        if str_eq(v[i].as_str(), k) {
            return true;
        }
        i = i + 1;
    }
    false
}


/// No later element of `s` has the key of element `i`.
pub open spec fn last_key<T: Keyed>(s: Seq<T>, i: int) -> bool {
    forall|j: int| i < j < s.len() ==> (#[trigger] s[j]).key() != s[i].key()
}

proof fn lemma_take_keys<T: Keyed>(fs: Seq<T>, i: int)
    requires
        0 <= i < fs.len(),
    ensures
        forall|k: Seq<char>| #[trigger] has_key(fs.take(i + 1), k) <==> (has_key(fs.take(i), k) || k == fs[i].key()),
{
    assert forall|k: Seq<char>| #[trigger] has_key(fs.take(i + 1), k) <==> (has_key(fs.take(i), k) || k == fs[i].key()) by {
        if has_key(fs.take(i + 1), k) {
            let j = choose|j: int| 0 <= j < i + 1 && #[trigger] fs.take(i + 1)[j].key() == k;
            if j < i {
                assert(fs.take(i)[j].key() == k);
            }
        }
        if has_key(fs.take(i), k) {
            let j = choose|j: int| 0 <= j < i && #[trigger] fs.take(i)[j].key() == k;
            assert(fs.take(i + 1)[j].key() == k);
        }
        if k == fs[i].key() {
            assert(fs.take(i + 1)[i].key() == k);
        }
    };
}

pub proof fn lemma_sorted_unique_key<T: Keyed>(s1: Seq<T>, x: T, f: T)
    requires
        strictly_sorted(s1),
        s1.contains(x),
        s1.contains(f),
        x.key() == f.key(),
    ensures
        x == f,
{
    let q = choose|q: int| 0 <= q < s1.len() && s1[q] == x;
    let r = choose|r: int| 0 <= r < s1.len() && s1[r] == f;
    if q < r {
        assert(seq_lt(s1[q].key(), s1[r].key()));
    } else if r < q {
        assert(seq_lt(s1[r].key(), s1[q].key()));
    }
    crate::text::lemma_lt_irreflexive(f.key());
}

proof fn lemma_upsert_all_elements<T: Keyed>(v0: Seq<T>, s0: Seq<T>, s1: Seq<T>, fs: Seq<T>, i: int, f: T)
    requires
        0 <= i < fs.len(),
        f == fs[i],
        strictly_sorted(s1),
        s1.contains(f),
        forall|x: T| #[trigger] s1.contains(x) ==> x == f || s0.contains(x),
        forall|x: T| #[trigger] s0.contains(x) ==> fs.contains(x) || (v0.contains(x) && !has_key(fs.take(i), x.key())),
        forall|k: Seq<char>| #[trigger] has_key(fs.take(i + 1), k) <==> (has_key(fs.take(i), k) || k == fs[i].key()),
    ensures
        forall|x: T| #[trigger] s1.contains(x) ==> fs.contains(x) || (v0.contains(x) && !has_key(fs.take(i + 1), x.key())),
{
    assert forall|x: T| #[trigger] s1.contains(x) implies fs.contains(x) || (v0.contains(x) && !has_key(fs.take(i + 1), x.key())) by {
        if x == f {
            assert(fs[i] == f);
        } else {
            assert(s0.contains(x));
            if x.key() == f.key() {
                lemma_sorted_unique_key(s1, x, f);
            }
        }
    };
}

proof fn lemma_upsert_all_last<T: Keyed>(s0: Seq<T>, s1: Seq<T>, fs: Seq<T>, i: int, f: T)
    requires
        0 <= i < fs.len(),
        f == fs[i],
        s1.contains(f),
        forall|x: T| #[trigger] s0.contains(x) && x.key() != f.key() ==> s1.contains(x),
        forall|p: int| 0 <= p < i && last_key(fs.take(i), p) ==> s0.contains(#[trigger] fs[p]),
    ensures
        forall|p: int| 0 <= p < i + 1 && last_key(fs.take(i + 1), p) ==> s1.contains(#[trigger] fs[p]),
{
    assert forall|p: int| 0 <= p < i + 1 && last_key(fs.take(i + 1), p) implies s1.contains(#[trigger] fs[p]) by {
        if p < i {
            assert(fs.take(i + 1)[i] == fs[i]);
            assert(fs.take(i + 1)[p] == fs[p]);
            assert(fs[i].key() != fs[p].key());
            assert forall|j: int| p < j < i implies (#[trigger] fs.take(i)[j]).key() != fs.take(i)[p].key() by {
                assert(fs.take(i + 1)[j] == fs.take(i)[j]);
            };
            assert(last_key(fs.take(i), p));
            assert(s0.contains(fs[p]));
        }
    };
}

/// Inserts the items in order: for each key the last item with it stays.
pub fn upsert_all<T: Keyed>(v: &mut Vec<T>, items: Vec<T>)
    requires
        strictly_sorted(old(v)@),
    ensures
        strictly_sorted(final(v)@),
        forall|k: Seq<char>| #[trigger] has_key(final(v)@, k) <==> (has_key(old(v)@, k) || has_key(items@, k)),
        forall|x: T| #[trigger] final(v)@.contains(x) ==> items@.contains(x) || (old(v)@.contains(x) && !has_key(
            items@,
            x.key(),
        )),
        forall|i: int| 0 <= i < items@.len() && last_key(items@, i) ==> final(v)@.contains(#[trigger] items@[i]),
        forall|x: T| #[trigger] final(v)@.contains(x) && has_key(items@, x.key()) ==> exists|i: int|
            0 <= i < items@.len() && last_key(items@, i) && items@[i] == x,
{
    let ghost v0 = v@;
    let ghost fs = items@;
    let mut rest = items;
    let n = rest.len();
    let mut i: usize = 0;
    while rest.len() > 0
        invariant
            i <= fs.len(),
            fs.len() == n,
            rest@ == fs.subrange(i as int, fs.len() as int),
            strictly_sorted(v@),
            forall|k: Seq<char>| #[trigger] has_key(v@, k) <==> (has_key(v0, k) || has_key(fs.take(i as int), k)),
            forall|x: T| #[trigger] v@.contains(x) ==> fs.contains(x) || (v0.contains(x) && !has_key(fs.take(i as int), x.key())),
            forall|p: int| 0 <= p < i && last_key(fs.take(i as int), p) ==> v@.contains(#[trigger] fs[p]),
        decreases rest.len(),
    {
        let f = rest.remove(0);
        let ghost s0 = v@;
        let ghost fk = f.key();
        proof {
            assert(f == fs[i as int]);
        }
        upsert(v, f);
        proof {
            lemma_take_keys(fs, i as int);
            lemma_upsert_all_elements(v0, s0, v@, fs, i as int, f);
            lemma_upsert_all_last(s0, v@, fs, i as int, f);
            assert forall|k: Seq<char>| #[trigger] has_key(v@, k) <==> (has_key(v0, k) || has_key(fs.take(i + 1), k)) by {
                assert(has_key(s0, k) <==> (has_key(v0, k) || has_key(fs.take(i as int), k)));
                assert(has_key(fs.take(i + 1), k) <==> (has_key(fs.take(i as int), k) || k == fk));
            };
        }
        i = i + 1;
    }
    proof {
        assert(fs.take(fs.len() as int) =~= fs);
        assert forall|x: T| #[trigger] v@.contains(x) && has_key(fs, x.key()) implies exists|i: int|
            0 <= i < fs.len() && last_key(fs, i) && fs[i] == x by {
            let i = lemma_last_key_exists(fs, x.key());
            assert(v@.contains(fs[i]));
            lemma_sorted_unique_key(v@, x, fs[i]);
        };
    }
}

/// A key that occurs has a last occurrence.
pub proof fn lemma_last_key_exists<T: Keyed>(s: Seq<T>, k: Seq<char>) -> (i: int)
    requires
        has_key(s, k),
    ensures
        0 <= i < s.len(),
        s[i].key() == k,
        last_key(s, i),
    decreases s.len(),
{
    if s.last().key() == k {
        (s.len() - 1) as int
    } else {
        let j = choose|j: int| 0 <= j < s.len() && #[trigger] s[j].key() == k;
        assert(s.drop_last()[j].key() == k);
        let i = lemma_last_key_exists(s.drop_last(), k);
        assert(s[i] == s.drop_last()[i]);
        assert forall|j2: int| i < j2 < s.len() implies (#[trigger] s[j2]).key() != s[i].key() by {
            if j2 < s.len() - 1 {
                assert(s[j2] == s.drop_last()[j2]);
            }
        };
        i
    }
}

} // verus!
