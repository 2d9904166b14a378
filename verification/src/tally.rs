//! Counts keyed by text, kept as lists in ascending key order.

use vstd::prelude::*;

use crate::model::count_view;
use crate::model::KeyCount;
use crate::order::insert_unique;
use crate::order::lemma_insert_unique_at;
use crate::order::lemma_sorted_unique_members;
use crate::order::lemma_sorted_unique_sorted;
use crate::order::sorted_unique;
use crate::order::strict_total;
use crate::order::strictly_sorted;
use crate::text::chars_order;
use crate::text::lemma_chars_order_total;
use crate::text::str_eq;
use crate::text::str_less;
use crate::text::string_views;

verus! {

/// How often `k` occurs in `keys`.
pub open spec fn occurrences<K>(keys: Seq<K>, k: K) -> nat
    decreases keys.len(),
{
    if keys.len() == 0 {
        0
    } else {
        occurrences(keys.drop_last(), k) + if keys.last() == k {
            1nat
        } else {
            0nat
        }
    }
}

/// Each distinct key, in ascending order, with the number of its occurrences.
pub open spec fn tally(keys: Seq<Seq<char>>) -> Seq<(Seq<char>, nat)> {
    sorted_unique(keys, chars_order()).map_values(|k: Seq<char>| (k, occurrences(keys, k)))
}

pub proof fn lemma_occurrences_bound<K>(keys: Seq<K>, k: K)
    ensures
        occurrences(keys, k) <= keys.len(),
        !keys.contains(k) ==> occurrences(keys, k) == 0,
    decreases keys.len(),
{
    if keys.len() > 0 {
        lemma_occurrences_bound(keys.drop_last(), k);
        if !keys.contains(k) {
            assert(!keys.drop_last().contains(k)) by {
                if keys.drop_last().contains(k) {
                    let i = choose|i: int| 0 <= i < keys.drop_last().len() && keys.drop_last()[i] == k;
                    assert(keys[i] == k);
                }
            }
            assert(keys[keys.len() - 1] == keys.last());
        }
    }
}

/// One step of building a list keyed by the sorted distinct members of
/// `keys`: adding key `k` either changes the entry at `j` (where `k` already
/// is) or inserts a new entry at `j`; the entries of other keys keep their
/// values.
pub proof fn lemma_group_step<K, V>(
    keys: Seq<K>,
    k: K,
    lt: spec_fn(K, K) -> bool,
    f: spec_fn(K) -> V,
    g: spec_fn(K) -> V,
    j: int,
)
    requires
        strict_total(lt),
        forall|x: K| x != k ==> #[trigger] g(x) == f(x),
        0 <= j <= sorted_unique(keys, lt).len(),
        forall|i: int| 0 <= i < j ==> lt(#[trigger] sorted_unique(keys, lt)[i], k),
        j < sorted_unique(keys, lt).len() ==> !lt(sorted_unique(keys, lt)[j], k),
    ensures
        ({
            let s = sorted_unique(keys, lt);
            let before = s.map_values(|x: K| (x, f(x)));
            let after = sorted_unique(keys.push(k), lt).map_values(|x: K| (x, g(x)));
            &&& j < s.len() && s[j] == k ==> after == before.update(j, (k, g(k)))
            &&& !(j < s.len() && s[j] == k) ==> after == before.insert(j, (k, g(k))) && !keys.contains(k)
        }),
{
    let s = sorted_unique(keys, lt);
    assert(keys.push(k).drop_last() =~= keys);
    assert(sorted_unique(keys.push(k), lt) == insert_unique(s, k, lt));
    lemma_insert_unique_at(s, k, j, lt);
    lemma_sorted_unique_sorted(keys, lt);
    lemma_sorted_unique_members(keys, lt);
    let before = s.map_values(|x: K| (x, f(x)));
    let after = sorted_unique(keys.push(k), lt).map_values(|x: K| (x, g(x)));
    if j < s.len() && s[j] == k {
        assert forall|i: int| 0 <= i < s.len() && i != j implies s[i] != k by {
            if i < j {
                assert(lt(s[i], k));
            } else {
                assert(strictly_sorted(s, lt));
                assert(lt(s[j], s[i]));
            }
        }
        assert(after =~= before.update(j, (k, g(k))));
    } else {
        assert forall|i: int| 0 <= i < s.len() implies s[i] != k by {
            if i < j {
                assert(lt(s[i], k));
            } else if i > j {
                assert(strictly_sorted(s, lt));
                assert(lt(s[j], s[i]));
            }
        }
        assert(!s.contains(k));
        assert(after =~= before.insert(j, (k, g(k))));
    }
}

/// Adds one occurrence of `key` to a count list that tallies `keys`.
pub(crate) fn add_count(counts: &mut Vec<KeyCount>, key: &str, Ghost(keys): Ghost<Seq<Seq<char>>>)
    requires
        count_view(old(counts)@) == tally(keys),
        keys.len() < usize::MAX,
    ensures
        count_view(final(counts)@) == tally(keys.push(key@)),
{
    proof {
        lemma_chars_order_total();
    }
    let ghost s = sorted_unique(keys, chars_order());
    let ghost f = |x: Seq<char>| occurrences(keys, x);
    let ghost g = |x: Seq<char>| occurrences(keys.push(key@), x);
    assert(count_view(counts@).len() == s.len());
    let mut j: usize = 0;
    while j < counts.len() && str_less(counts[j].key.as_str(), key)
        invariant
            count_view(counts@) == tally(keys),
            s == sorted_unique(keys, chars_order()),
            counts@.len() == s.len(),
            j <= counts.len(),
            forall|i: int| 0 <= i < j ==> chars_order()(#[trigger] s[i], key@),
        decreases counts.len() - j,
    {
        assert(count_view(counts@)[j as int].0 == s[j as int]);
        j = j + 1;
    }
    if j < counts.len() {
        assert(count_view(counts@)[j as int].0 == s[j as int]);
    }
    assert forall|x: Seq<char>| x != key@ implies #[trigger] g(x) == f(x) by {
        assert(keys.push(key@).drop_last() =~= keys);
    }
    assert(keys.push(key@).drop_last() =~= keys);
    proof {
        lemma_group_step(keys, key@, chars_order(), f, g, j as int);
        lemma_occurrences_bound(keys, key@);
    }
    assert(tally(keys) == s.map_values(|x: Seq<char>| (x, f(x))));
    assert(tally(keys.push(key@)) == sorted_unique(keys.push(key@), chars_order()).map_values(
        |x: Seq<char>| (x, g(x)),
    ));
    if j < counts.len() && str_eq(counts[j].key.as_str(), key) {
        let current = counts[j].count;
        assert(current as nat == f(key@));
        let entry = KeyCount { key: counts[j].key.clone(), count: current + 1 };
        let ghost before = count_view(counts@);
        counts.set(j, entry);
        assert(count_view(counts@) =~= before.update(j as int, (key@, g(key@))));
    } else {
        let entry = KeyCount { key: String::from_str(key), count: 1 };
        let ghost before = count_view(counts@);
        counts.insert(j, entry);
        assert(count_view(counts@) =~= before.insert(j as int, (key@, g(key@))));
    }
}


/// Inserts `x` into an ascending list of distinct texts unless present.
pub fn insert_text_unique(set: &mut Vec<String>, x: String)
    ensures
        string_views(final(set)@) == insert_unique(string_views(old(set)@), x@, chars_order()),
{
    proof {
        lemma_chars_order_total();
    }
    let ghost s = string_views(set@);
    let mut j: usize = 0;
    while j < set.len() && str_less(set[j].as_str(), x.as_str())
        invariant
            s == string_views(set@),
            j <= set.len(),
            forall|i: int| 0 <= i < j ==> chars_order()(#[trigger] s[i], x@),
        decreases set.len() - j,
    {
        j = j + 1;
    }
    proof {
        lemma_insert_unique_at(s, x@, j as int, chars_order());
    }
    if j < set.len() && str_eq(set[j].as_str(), x.as_str()) {
    } else {
        let ghost xv = x@;
        set.insert(j, x);
        assert(string_views(set@) =~= s.insert(j as int, xv));
    }
}
/// The sum of the counts of a count list.
pub open spec fn total_count(t: Seq<(Seq<char>, nat)>) -> nat
    decreases t.len(),
{
    if t.len() == 0 {
        0
    } else {
        total_count(t.drop_last()) + t.last().1
    }
}

/// The occurrences in `keys` of each of `xs`, summed.
pub open spec fn occurrences_over(keys: Seq<Seq<char>>, xs: Seq<Seq<char>>) -> nat
    decreases xs.len(),
{
    if xs.len() == 0 {
        0
    } else {
        occurrences_over(keys, xs.drop_last()) + occurrences(keys, xs.last())
    }
}

proof fn lemma_occurrences_over_push(keys: Seq<Seq<char>>, k: Seq<char>, xs: Seq<Seq<char>>)
    ensures
        occurrences_over(keys.push(k), xs) == occurrences_over(keys, xs) + occurrences(xs, k),
    decreases xs.len(),
{
    if xs.len() > 0 {
        lemma_occurrences_over_push(keys, k, xs.drop_last());
        assert(keys.push(k).drop_last() =~= keys);
    }
}

proof fn lemma_occurrences_over_empty(keys: Seq<Seq<char>>, xs: Seq<Seq<char>>)
    requires
        keys.len() == 0,
    ensures
        occurrences_over(keys, xs) == 0,
    decreases xs.len(),
{
    if xs.len() > 0 {
        lemma_occurrences_over_empty(keys, xs.drop_last());
    }
}

proof fn lemma_occurs_once(xs: Seq<Seq<char>>, k: Seq<char>)
    requires
        forall|i: int, j: int| 0 <= i < j < xs.len() ==> xs[i] != xs[j],
        xs.contains(k),
    ensures
        occurrences(xs, k) == 1,
    decreases xs.len(),
{
    let p = xs.drop_last();
    assert forall|i: int, j: int| 0 <= i < j < p.len() implies p[i] != p[j] by {
        assert(p[i] == xs[i] && p[j] == xs[j]);
    }
    if xs.last() == k {
        assert(!p.contains(k)) by {
            if p.contains(k) {
                let i = choose|i: int| 0 <= i < p.len() && p[i] == k;
                assert(xs[i] == k && xs[xs.len() - 1] == k);
            }
        }
        lemma_occurrences_bound(p, k);
    } else {
        let i = choose|i: int| 0 <= i < xs.len() && xs[i] == k;
        assert(i < xs.len() - 1);
        assert(p[i] == k);
        lemma_occurs_once(p, k);
    }
}

proof fn lemma_occurrences_cover(keys: Seq<Seq<char>>, xs: Seq<Seq<char>>)
    requires
        forall|i: int, j: int| 0 <= i < j < xs.len() ==> xs[i] != xs[j],
        forall|k: int| 0 <= k < keys.len() ==> xs.contains(#[trigger] keys[k]),
    ensures
        occurrences_over(keys, xs) == keys.len(),
    decreases keys.len(),
{
    if keys.len() == 0 {
        lemma_occurrences_over_empty(keys, xs);
    } else {
        let p = keys.drop_last();
        assert forall|k: int| 0 <= k < p.len() implies xs.contains(#[trigger] p[k]) by {
            assert(p[k] == keys[k]);
        }
        lemma_occurrences_cover(p, xs);
        assert(p.push(keys.last()) =~= keys);
        lemma_occurrences_over_push(p, keys.last(), xs);
        assert(keys[keys.len() - 1] == keys.last());
        assert(xs.contains(keys[keys.len() - 1]));
        lemma_occurs_once(xs, keys.last());
    }
}

proof fn lemma_total_of_map(keys: Seq<Seq<char>>, xs: Seq<Seq<char>>)
    ensures
        total_count(xs.map_values(|k: Seq<char>| (k, occurrences(keys, k)))) == occurrences_over(keys, xs),
    decreases xs.len(),
{
    if xs.len() > 0 {
        lemma_total_of_map(keys, xs.drop_last());
        assert(xs.map_values(|k: Seq<char>| (k, occurrences(keys, k))).drop_last() =~= xs.drop_last().map_values(
            |k: Seq<char>| (k, occurrences(keys, k)),
        ));
    }
}

/// A tally counts every key once: its counts sum to the number of keys.
pub proof fn law_tally_counts_every_key(keys: Seq<Seq<char>>)
    ensures
        total_count(tally(keys)) == keys.len(),
{
    lemma_chars_order_total();
    let xs = sorted_unique(keys, chars_order());
    lemma_sorted_unique_sorted(keys, chars_order());
    lemma_sorted_unique_members(keys, chars_order());
    assert forall|i: int, j: int| 0 <= i < j < xs.len() implies xs[i] != xs[j] by {
        assert(chars_order()(xs[i], xs[j]));
    }
    assert forall|k: int| 0 <= k < keys.len() implies xs.contains(#[trigger] keys[k]) by {
        assert(keys.contains(keys[k]));
    }
    lemma_occurrences_cover(keys, xs);
    lemma_total_of_map(keys, xs);
}

} // verus!
