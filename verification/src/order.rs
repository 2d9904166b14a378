//! Sorted collections described by insertion: what sorting (stably, or with
//! duplicates removed) leaves of a list, for a strict total order.

use vstd::prelude::*;

verus! {

/// `lt` is a strict total order.
pub open spec fn strict_total<T>(lt: spec_fn(T, T) -> bool) -> bool {
    &&& forall|a: T| !(#[trigger] lt(a, a))
    &&& forall|a: T, b: T| #[trigger] lt(a, b) ==> !lt(b, a)
    &&& forall|a: T, b: T| a != b ==> #[trigger] lt(a, b) || lt(b, a)
    &&& forall|a: T, b: T, c: T| #[trigger] lt(a, b) && #[trigger] lt(b, c) ==> lt(a, c)
}

/// Strictly ascending.
pub open spec fn strictly_sorted<T>(s: Seq<T>, lt: spec_fn(T, T) -> bool) -> bool {
    forall|i: int, j: int| 0 <= i < j < s.len() ==> lt(#[trigger] s[i], #[trigger] s[j])
}

/// Inserts `x` into an ascending list unless an equal element is present.
pub open spec fn insert_unique<T>(s: Seq<T>, x: T, lt: spec_fn(T, T) -> bool) -> Seq<T>
    decreases s.len(),
{
    if s.len() == 0 {
        seq![x]
    } else if x == s[0] {
        s
    } else if lt(x, s[0]) {
        seq![x] + s
    } else {
        seq![s[0]] + insert_unique(s.drop_first(), x, lt)
    }
}

/// The distinct members of `items` in ascending order: a sort followed by a
/// removal of duplicates.
pub open spec fn sorted_unique<T>(items: Seq<T>, lt: spec_fn(T, T) -> bool) -> Seq<T>
    decreases items.len(),
{
    if items.len() == 0 {
        Seq::empty()
    } else {
        insert_unique(sorted_unique(items.drop_last(), lt), items.last(), lt)
    }
}

/// Inserts `x` after every element that it does not sort before.
pub open spec fn insert_stable<T, K>(s: Seq<T>, x: T, key: spec_fn(T) -> K, lt: spec_fn(K, K) -> bool) -> Seq<T>
    decreases s.len(),
{
    if s.len() == 0 {
        seq![x]
    } else if lt(key(x), key(s[0])) {
        seq![x] + s
    } else {
        seq![s[0]] + insert_stable(s.drop_first(), x, key, lt)
    }
}

/// `items` stably sorted by `key`: elements with equal keys keep their order.
pub open spec fn sort_stable<T, K>(items: Seq<T>, key: spec_fn(T) -> K, lt: spec_fn(K, K) -> bool) -> Seq<T>
    decreases items.len(),
{
    if items.len() == 0 {
        Seq::empty()
    } else {
        insert_stable(sort_stable(items.drop_last(), key, lt), items.last(), key, lt)
    }
}

/// Where every element before `j` sorts before `x`, inserting `x` leaves that
/// prefix in place.
pub proof fn lemma_insert_unique_skip<T>(s: Seq<T>, x: T, j: int, lt: spec_fn(T, T) -> bool)
    requires
        strict_total(lt),
        0 <= j <= s.len(),
        forall|k: int| 0 <= k < j ==> lt(#[trigger] s[k], x),
    ensures
        insert_unique(s, x, lt) == s.take(j) + insert_unique(s.skip(j), x, lt),
    decreases j,
{
    if j == 0 {
        assert(s.take(0) + s.skip(0) =~= s);
        assert(s.skip(0) =~= s);
    } else {
        assert(lt(s[0], x));
        assert(!lt(x, s[0]));
        assert(s[0] != x);
        let t = s.drop_first();
        assert forall|k: int| 0 <= k < j - 1 implies lt(#[trigger] t[k], x) by {
            assert(t[k] == s[k + 1]);
        }
        lemma_insert_unique_skip(t, x, j - 1, lt);
        assert(t.skip(j - 1) =~= s.skip(j));
        assert(seq![s[0]] + t.take(j - 1) =~= s.take(j));
    }
}

/// The three outcomes of inserting at the first element that does not sort
/// before `x`.
pub proof fn lemma_insert_unique_at<T>(s: Seq<T>, x: T, j: int, lt: spec_fn(T, T) -> bool)
    requires
        strict_total(lt),
        0 <= j <= s.len(),
        forall|k: int| 0 <= k < j ==> lt(#[trigger] s[k], x),
        j < s.len() ==> !lt(s[j], x),
    ensures
        j < s.len() && s[j] == x ==> insert_unique(s, x, lt) == s,
        !(j < s.len() && s[j] == x) ==> insert_unique(s, x, lt) == s.insert(j, x),
{
    lemma_insert_unique_skip(s, x, j, lt);
    let r = s.skip(j);
    if j < s.len() {
        assert(r[0] == s[j]);
        if s[j] == x {
            assert(s.take(j) + r =~= s);
        } else {
            assert(lt(x, s[j]));
            assert(s.take(j) + (seq![x] + r) =~= s.insert(j, x));
        }
    } else {
        assert(r.len() == 0);
        assert(s.take(j) + seq![x] =~= s.insert(j, x));
    }
}

/// Where every element before `j` does not sort after `x` and the element at
/// `j` does, a stable insertion puts `x` at `j`.
pub proof fn lemma_insert_stable_at<T, K>(
    s: Seq<T>,
    x: T,
    j: int,
    key: spec_fn(T) -> K,
    lt: spec_fn(K, K) -> bool,
)
    requires
        0 <= j <= s.len(),
        forall|k: int| 0 <= k < j ==> !lt(key(x), key(#[trigger] s[k])),
        j < s.len() ==> lt(key(x), key(s[j])),
    ensures
        insert_stable(s, x, key, lt) == s.insert(j, x),
    decreases j,
{
    if j == 0 {
        if s.len() == 0 {
            assert(seq![x] =~= s.insert(0, x));
        } else {
            assert(seq![x] + s =~= s.insert(0, x));
        }
    } else {
        let t = s.drop_first();
        assert(!lt(key(x), key(s[0])));
        assert forall|k: int| 0 <= k < j - 1 implies !lt(key(x), key(#[trigger] t[k])) by {
            assert(t[k] == s[k + 1]);
        }
        if j < s.len() {
            assert(t[j - 1] == s[j]);
        }
        lemma_insert_stable_at(t, x, j - 1, key, lt);
        assert(seq![s[0]] + t.insert(j - 1, x) =~= s.insert(j, x));
    }
}

/// Every member of an insertion result is the inserted element or was there.
pub proof fn lemma_insert_unique_members<T>(s: Seq<T>, x: T, lt: spec_fn(T, T) -> bool)
    ensures
        insert_unique(s, x, lt).contains(x),
        forall|y: T| #[trigger] insert_unique(s, x, lt).contains(y) <==> (y == x || s.contains(y)),
    decreases s.len(),
{
    let r = insert_unique(s, x, lt);
    if s.len() == 0 {
        assert(r[0] == x);
    } else if x == s[0] {
        assert(r[0] == x);
    } else if lt(x, s[0]) {
        assert(r[0] == x);
        assert forall|y: T| r.contains(y) <==> (y == x || s.contains(y)) by {
            if s.contains(y) {
                let k = choose|k: int| 0 <= k < s.len() && s[k] == y;
                assert(r[k + 1] == y);
            }
            if r.contains(y) {
                let k = choose|k: int| 0 <= k < r.len() && r[k] == y;
                if k > 0 {
                    assert(s[k - 1] == y);
                }
            }
        }
    } else {
        let t = s.drop_first();
        lemma_insert_unique_members(t, x, lt);
        let rt = insert_unique(t, x, lt);
        assert(r == seq![s[0]] + rt);
        let k0 = choose|k: int| 0 <= k < rt.len() && rt[k] == x;
        assert(r[k0 + 1] == x);
        assert forall|y: T| r.contains(y) <==> (y == x || s.contains(y)) by {
            if s.contains(y) {
                let k = choose|k: int| 0 <= k < s.len() && s[k] == y;
                if k == 0 {
                    assert(r[0] == y);
                } else {
                    assert(t[k - 1] == y);
                    assert(rt.contains(y));
                    let q = choose|q: int| 0 <= q < rt.len() && rt[q] == y;
                    assert(r[q + 1] == y);
                }
            }
            if r.contains(y) {
                let k = choose|k: int| 0 <= k < r.len() && r[k] == y;
                if k == 0 {
                    assert(s[0] == y);
                } else {
                    assert(rt[k - 1] == y);
                    assert(rt.contains(y));
                    if y != x {
                        assert(t.contains(y));
                        let q = choose|q: int| 0 <= q < t.len() && t[q] == y;
                        assert(s[q + 1] == y);
                    }
                }
            }
        }
    }
}

/// The sorted distinct members of a list are exactly its members.
pub proof fn lemma_sorted_unique_members<T>(items: Seq<T>, lt: spec_fn(T, T) -> bool)
    ensures
        forall|y: T| #[trigger] sorted_unique(items, lt).contains(y) <==> items.contains(y),
    decreases items.len(),
{
    if items.len() > 0 {
        let p = items.drop_last();
        lemma_sorted_unique_members(p, lt);
        lemma_insert_unique_members(sorted_unique(p, lt), items.last(), lt);
        assert forall|y: T| #[trigger] sorted_unique(items, lt).contains(y) <==> items.contains(y) by {
            if p.contains(y) {
                let k = choose|k: int| 0 <= k < p.len() && p[k] == y;
                assert(items[k] == y);
            }
            if items.contains(y) {
                let k = choose|k: int| 0 <= k < items.len() && items[k] == y;
                if k < items.len() - 1 {
                    assert(p[k] == y);
                }
            }
        }
    }
}


/// Inserting into a strictly ascending list keeps it strictly ascending.
pub proof fn lemma_insert_unique_sorted<T>(s: Seq<T>, x: T, lt: spec_fn(T, T) -> bool)
    requires
        strict_total(lt),
        strictly_sorted(s, lt),
    ensures
        strictly_sorted(insert_unique(s, x, lt), lt),
    decreases s.len(),
{
    if s.len() > 0 && x != s[0] && !lt(x, s[0]) {
        let t = s.drop_first();
        assert(strictly_sorted(t, lt)) by {
            assert forall|i: int, j: int| 0 <= i < j < t.len() implies lt(#[trigger] t[i], #[trigger] t[j]) by {
                assert(t[i] == s[i + 1]);
                assert(t[j] == s[j + 1]);
            }
        }
        lemma_insert_unique_sorted(t, x, lt);
        lemma_insert_unique_members(t, x, lt);
        let rt = insert_unique(t, x, lt);
        let r = seq![s[0]] + rt;
        assert(lt(s[0], x));
        assert forall|i: int, j: int| 0 <= i < j < r.len() implies lt(#[trigger] r[i], #[trigger] r[j]) by {
            if i == 0 {
                assert(rt.contains(r[j]));
                if r[j] != x {
                    assert(t.contains(r[j]));
                    let q = choose|q: int| 0 <= q < t.len() && t[q] == r[j];
                    assert(s[q + 1] == r[j]);
                }
            } else {
                assert(r[i] == rt[i - 1]);
                assert(r[j] == rt[j - 1]);
            }
        }
    } else if s.len() > 0 && x != s[0] {
        let r = seq![x] + s;
        assert forall|i: int, j: int| 0 <= i < j < r.len() implies lt(#[trigger] r[i], #[trigger] r[j]) by {
            if i == 0 {
                if j > 1 {
                    assert(lt(s[0], s[j - 1]));
                }
            } else {
                assert(r[i] == s[i - 1]);
            }
        }
    }
}

/// Two strictly ascending lists with the same members are the same list.
pub proof fn lemma_strictly_sorted_same_members<T>(s: Seq<T>, t: Seq<T>, lt: spec_fn(T, T) -> bool)
    requires
        strict_total(lt),
        strictly_sorted(s, lt),
        strictly_sorted(t, lt),
        forall|y: T| #[trigger] s.contains(y) ==> t.contains(y),
        forall|y: T| #[trigger] t.contains(y) ==> s.contains(y),
    ensures
        s == t,
    decreases s.len(),
{
    if s.len() == 0 {
        if t.len() > 0 {
            assert(t.contains(t[0]));
        }
        assert(s =~= t);
    } else if t.len() == 0 {
        assert(s.contains(s[0]));
    } else {
        assert(s.contains(s[0]));
        assert(t.contains(t[0]));
        let j = choose|j: int| 0 <= j < t.len() && t[j] == s[0];
        let i = choose|i: int| 0 <= i < s.len() && s[i] == t[0];
        if j > 0 {
            assert(lt(t[0], t[j]));
            if i > 0 {
                assert(lt(s[0], s[i]));
            }
        }
        assert(s[0] == t[0]);
        let s1 = s.drop_first();
        let t1 = t.drop_first();
        assert(strictly_sorted(s1, lt)) by {
            assert forall|a: int, b: int| 0 <= a < b < s1.len() implies lt(#[trigger] s1[a], #[trigger] s1[b]) by {
                assert(s1[a] == s[a + 1]);
                assert(s1[b] == s[b + 1]);
            }
        }
        assert(strictly_sorted(t1, lt)) by {
            assert forall|a: int, b: int| 0 <= a < b < t1.len() implies lt(#[trigger] t1[a], #[trigger] t1[b]) by {
                assert(t1[a] == t[a + 1]);
                assert(t1[b] == t[b + 1]);
            }
        }
        assert forall|y: T| #[trigger] s1.contains(y) implies t1.contains(y) by {
            let k = choose|k: int| 0 <= k < s1.len() && s1[k] == y;
            assert(s[k + 1] == y);
            assert(s.contains(y));
            let m = choose|m: int| 0 <= m < t.len() && t[m] == y;
            if m == 0 {
                assert(lt(s[0], s[k + 1]));
            } else {
                assert(t1[m - 1] == y);
            }
        }
        assert forall|y: T| #[trigger] t1.contains(y) implies s1.contains(y) by {
            let k = choose|k: int| 0 <= k < t1.len() && t1[k] == y;
            assert(t[k + 1] == y);
            assert(t.contains(y));
            let m = choose|m: int| 0 <= m < s.len() && s[m] == y;
            if m == 0 {
                assert(lt(t[0], t[k + 1]));
            } else {
                assert(s1[m - 1] == y);
            }
        }
        lemma_strictly_sorted_same_members(s1, t1, lt);
        assert forall|k: int| 0 <= k < s.len() implies s[k] == t[k] by {
            if k > 0 {
                assert(s[k] == s1[k - 1]);
                assert(t[k] == t1[k - 1]);
            }
        }
        assert(s =~= t);
    }
}

/// The sorted distinct members of a list are strictly ascending.
pub proof fn lemma_sorted_unique_sorted<T>(items: Seq<T>, lt: spec_fn(T, T) -> bool)
    requires
        strict_total(lt),
    ensures
        strictly_sorted(sorted_unique(items, lt), lt),
    decreases items.len(),
{
    if items.len() > 0 {
        lemma_sorted_unique_sorted(items.drop_last(), lt);
        lemma_insert_unique_sorted(sorted_unique(items.drop_last(), lt), items.last(), lt);
    }
}
} // verus!
