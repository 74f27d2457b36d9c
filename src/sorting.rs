//! Stable descending order by an integer key, as repeated insertion.
use vstd::prelude::*;

verus! {

/// Inserts `x` into `s` just before the first element whose key is smaller
/// than that of `x`, so that elements of equal key keep their order.
pub open spec fn insert_desc<T>(x: T, s: Seq<T>, key: spec_fn(T) -> int) -> Seq<T>
    decreases s.len(),
{
    if s.len() == 0 {
        seq![x]
    } else if key(s[0]) < key(x) {
        seq![x] + s
    } else {
        seq![s[0]] + insert_desc(x, s.drop_first(), key)
    }
}

/// `s` in descending order of `key`; elements of equal key keep their
/// relative order.
pub open spec fn sort_desc<T>(s: Seq<T>, key: spec_fn(T) -> int) -> Seq<T>
    decreases s.len(),
{
    if s.len() == 0 {
        seq![]
    } else {
        insert_desc(s.last(), sort_desc(s.drop_last(), key), key)
    }
}

/// Every element of `s` satisfies `p`.
pub open spec fn all<T>(s: Seq<T>, p: spec_fn(T) -> bool) -> bool {
    forall|i: int| 0 <= i < s.len() ==> #[trigger] p(s[i])
}

/// Inserting at the first position whose element has a smaller key.
pub proof fn lemma_insert_desc_at<T>(x: T, s: Seq<T>, key: spec_fn(T) -> int, pos: int)
    requires
        0 <= pos <= s.len(),
        forall|j: int| 0 <= j < pos ==> !(key(#[trigger] s[j]) < key(x)),
        pos < s.len() ==> key(s[pos]) < key(x),
    ensures
        insert_desc(x, s, key) == s.take(pos) + seq![x] + s.skip(pos),
    decreases s.len(),
{
    if pos == 0 {
        assert(s.take(0) + seq![x] + s.skip(0) =~= seq![x] + s);
    } else {
        let t = s.drop_first();
        assert forall|j: int| 0 <= j < pos - 1 implies !(key(#[trigger] t[j]) < key(x)) by {
            assert(t[j] == s[j + 1]);
        }
        lemma_insert_desc_at(x, t, key, pos - 1);
        assert(seq![s[0]] + (t.take(pos - 1) + seq![x] + t.skip(pos - 1)) =~= s.take(pos)
            + seq![x] + s.skip(pos));
    }
}

pub proof fn lemma_insert_desc_len<T>(x: T, s: Seq<T>, key: spec_fn(T) -> int)
    ensures
        insert_desc(x, s, key).len() == s.len() + 1,
    decreases s.len(),
{
    if s.len() > 0 && !(key(s[0]) < key(x)) {
        lemma_insert_desc_len(x, s.drop_first(), key);
    }
}

pub proof fn lemma_sort_desc_len<T>(s: Seq<T>, key: spec_fn(T) -> int)
    ensures
        sort_desc(s, key).len() == s.len(),
    decreases s.len(),
{
    if s.len() > 0 {
        lemma_sort_desc_len(s.drop_last(), key);
        lemma_insert_desc_len(s.last(), sort_desc(s.drop_last(), key), key);
    }
}

pub proof fn lemma_insert_desc_all<T>(x: T, s: Seq<T>, key: spec_fn(T) -> int, p: spec_fn(T) -> bool)
    requires
        all(s, p),
        p(x),
    ensures
        all(insert_desc(x, s, key), p),
    decreases s.len(),
{
    if s.len() > 0 && !(key(s[0]) < key(x)) {
        let t = s.drop_first();
        assert(all(t, p)) by {
            assert forall|i: int| 0 <= i < t.len() implies #[trigger] p(t[i]) by {
                assert(t[i] == s[i + 1]);
            }
        }
        lemma_insert_desc_all(x, t, key, p);
        let r = insert_desc(x, s, key);
        assert forall|i: int| 0 <= i < r.len() implies #[trigger] p(r[i]) by {
            if i > 0 {
                assert(r[i] == insert_desc(x, t, key)[i - 1]);
            }
        }
    } else if s.len() > 0 {
        let r = insert_desc(x, s, key);
        assert forall|i: int| 0 <= i < r.len() implies #[trigger] p(r[i]) by {
            if i > 0 {
                assert(r[i] == s[i - 1]);
            }
        }
    }
}

/// Sorting keeps a property that holds of every element.
pub proof fn lemma_sort_desc_all<T>(s: Seq<T>, key: spec_fn(T) -> int, p: spec_fn(T) -> bool)
    requires
        all(s, p),
    ensures
        all(sort_desc(s, key), p),
    decreases s.len(),
{
    if s.len() > 0 {
        let d = s.drop_last();
        assert(all(d, p)) by {
            assert forall|i: int| 0 <= i < d.len() implies #[trigger] p(d[i]) by {
                assert(d[i] == s[i]);
            }
        }
        lemma_sort_desc_all(d, key, p);
        assert(p(s[s.len() - 1]));
        lemma_insert_desc_all(s.last(), sort_desc(d, key), key, p);
    }
}

/// An element whose key exceeds a bound that every other element stays
/// under comes first, and everything after it stays under the bound.
pub proof fn lemma_sort_desc_unique_top<T>(s: Seq<T>, key: spec_fn(T) -> int, i: int, bound: int)
    requires
        0 <= i < s.len(),
        key(s[i]) >= bound,
        forall|j: int| 0 <= j < s.len() && j != i ==> key(#[trigger] s[j]) < bound,
    ensures
        sort_desc(s, key).len() == s.len(),
        sort_desc(s, key)[0] == s[i],
        forall|j: int| 1 <= j < s.len() ==> key(#[trigger] sort_desc(s, key)[j]) < bound,
    decreases s.len(),
{
    lemma_sort_desc_len(s, key);
    let d = s.drop_last();
    let x = s.last();
    let t = sort_desc(d, key);
    let below = |e: T| key(e) < bound;
    lemma_sort_desc_len(d, key);
    if i == s.len() - 1 {
        assert(all(d, below)) by {
            assert forall|j: int| 0 <= j < d.len() implies #[trigger] below(d[j]) by {
                assert(d[j] == s[j]);
            }
        }
        lemma_sort_desc_all(d, key, below);
        if t.len() > 0 {
            assert(below(t[0]));
        }
        let r = sort_desc(s, key);
        assert forall|j: int| 1 <= j < s.len() implies key(#[trigger] r[j]) < bound by {
            assert(r[j] == t[j - 1]);
            assert(below(t[j - 1]));
        }
    } else {
        assert forall|j: int| 0 <= j < d.len() && j != i implies key(#[trigger] d[j]) < bound by {
            assert(d[j] == s[j]);
        }
        lemma_sort_desc_unique_top(d, key, i, bound);
        assert(key(x) < bound);
        let u = t.drop_first();
        assert(all(u, below)) by {
            assert forall|j: int| 0 <= j < u.len() implies #[trigger] below(u[j]) by {
                assert(u[j] == t[j + 1]);
            }
        }
        lemma_insert_desc_all(x, u, key, below);
        lemma_insert_desc_len(x, u, key);
        let r = sort_desc(s, key);
        assert(r == seq![t[0]] + insert_desc(x, u, key));
        assert forall|j: int| 1 <= j < s.len() implies key(#[trigger] r[j]) < bound by {
            assert(r[j] == insert_desc(x, u, key)[j - 1]);
            assert(below(insert_desc(x, u, key)[j - 1]));
        }
    }
}

pub proof fn lemma_insert_desc_multiset<T>(x: T, s: Seq<T>, key: spec_fn(T) -> int)
    ensures
        insert_desc(x, s, key).to_multiset() == s.to_multiset().insert(x),
    decreases s.len(),
{
    broadcast use vstd::seq_lib::group_to_multiset_ensures, vstd::seq_lib::lemma_multiset_commutative;

    if s.len() == 0 {
        assert(seq![x] =~= s.push(x));
    } else {
        let head = seq![s[0]];
        assert(s =~= head + s.drop_first());
        assert(head =~= Seq::<T>::empty().push(s[0]));
        if key(s[0]) < key(x) {
            assert(seq![x] =~= Seq::<T>::empty().push(x));
            assert(insert_desc(x, s, key).to_multiset() =~= s.to_multiset().insert(x));
        } else {
            lemma_insert_desc_multiset(x, s.drop_first(), key);
            assert(insert_desc(x, s, key).to_multiset() =~= s.to_multiset().insert(x));
        }
    }
}

/// Sorting rearranges: the result holds the same elements, as often.
pub proof fn lemma_sort_desc_permutes<T>(s: Seq<T>, key: spec_fn(T) -> int)
    ensures
        sort_desc(s, key).to_multiset() == s.to_multiset(),
    decreases s.len(),
{
    broadcast use vstd::seq_lib::group_to_multiset_ensures;

    if s.len() > 0 {
        lemma_sort_desc_permutes(s.drop_last(), key);
        lemma_insert_desc_multiset(s.last(), sort_desc(s.drop_last(), key), key);
        assert(s =~= s.drop_last().push(s.last()));
    }
}

/// `s` is in descending order of `key`.
pub open spec fn is_sorted_desc<T>(s: Seq<T>, key: spec_fn(T) -> int) -> bool {
    forall|i: int, j: int| 0 <= i < j < s.len() ==> key(#[trigger] s[i]) >= key(#[trigger] s[j])
}

proof fn lemma_insert_desc_sorted<T>(x: T, s: Seq<T>, key: spec_fn(T) -> int)
    requires
        is_sorted_desc(s, key),
    ensures
        is_sorted_desc(insert_desc(x, s, key), key),
    decreases s.len(),
{
    if s.len() > 0 {
        let r = insert_desc(x, s, key);
        if key(s[0]) < key(x) {
            assert forall|i: int, j: int| 0 <= i < j < r.len() implies key(#[trigger] r[i]) >= key(
                #[trigger] r[j],
            ) by {
                assert(r[j] == s[j - 1]);
                if i > 0 {
                    assert(r[i] == s[i - 1]);
                } else {
                    assert(key(s[0]) >= key(s[j - 1]) || j - 1 == 0);
                }
            }
        } else {
            let t = s.drop_first();
            assert(is_sorted_desc(t, key)) by {
                assert forall|i: int, j: int| 0 <= i < j < t.len() implies key(#[trigger] t[i])
                    >= key(#[trigger] t[j]) by {
                    assert(t[i] == s[i + 1] && t[j] == s[j + 1]);
                }
            }
            lemma_insert_desc_sorted(x, t, key);
            let below = |e: T| key(e) <= key(s[0]);
            assert(all(t, below)) by {
                assert forall|i: int| 0 <= i < t.len() implies #[trigger] below(t[i]) by {
                    assert(t[i] == s[i + 1]);
                }
            }
            lemma_insert_desc_all(x, t, key, below);
            let u = insert_desc(x, t, key);
            assert forall|i: int, j: int| 0 <= i < j < r.len() implies key(#[trigger] r[i]) >= key(
                #[trigger] r[j],
            ) by {
                assert(r[j] == u[j - 1]);
                assert(below(u[j - 1]));
                if i > 0 {
                    assert(r[i] == u[i - 1]);
                }
            }
        }
    }
}

/// Sorting yields descending order.
pub proof fn lemma_sort_desc_sorted<T>(s: Seq<T>, key: spec_fn(T) -> int)
    ensures
        is_sorted_desc(sort_desc(s, key), key),
    decreases s.len(),
{
    if s.len() > 0 {
        lemma_sort_desc_sorted(s.drop_last(), key);
        lemma_insert_desc_sorted(s.last(), sort_desc(s.drop_last(), key), key);
    }
}

} // verus!
