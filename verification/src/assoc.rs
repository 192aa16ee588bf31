//! Association lists: sequences of (key, value) pairs with distinct keys,
//! read as finite maps.
use vstd::prelude::*;

verus! {

/// The map that a list of (key, value) entries stands for (a later entry
/// overrides an earlier one with the same key).
pub open spec fn to_map<K, V>(es: Seq<(K, V)>) -> Map<K, V>
    decreases es.len(),
{
    if es.len() == 0 {
        Map::empty()
    } else {
        to_map(es.drop_last()).insert(es.last().0, es.last().1)
    }
}

/// No key occurs twice.
pub open spec fn distinct_keys<K, V>(es: Seq<(K, V)>) -> bool {
    forall|i: int, j: int| 0 <= i < es.len() && 0 <= j < es.len() && i != j ==> es[i].0 != es[j].0
}

/// The entry of `k` is at position `i`.
pub proof fn lemma_to_map_at<K, V>(es: Seq<(K, V)>, i: int)
    requires
        distinct_keys(es),
        0 <= i < es.len(),
    ensures
        to_map(es).contains_key(es[i].0),
        to_map(es)[es[i].0] == es[i].1,
    decreases es.len(),
{
    if i < es.len() - 1 {
        lemma_to_map_at(es.drop_last(), i);
        assert(es.drop_last()[i] == es[i]);
    }
}

/// A key is in the map exactly when an entry holds it.
pub proof fn lemma_to_map_dom<K, V>(es: Seq<(K, V)>, k: K)
    requires
        distinct_keys(es),
    ensures
        to_map(es).contains_key(k) <==> exists|i: int| 0 <= i < es.len() && es[i].0 == k,
    decreases es.len(),
{
    if es.len() > 0 {
        lemma_to_map_dom(es.drop_last(), k);
        if to_map(es).contains_key(k) && k != es.last().0 {
            let i = choose|i: int| 0 <= i < es.drop_last().len() && es.drop_last()[i].0 == k;
            assert(es[i].0 == k);
        }
        if exists|i: int| 0 <= i < es.len() && es[i].0 == k {
            let i = choose|i: int| 0 <= i < es.len() && es[i].0 == k;
            lemma_to_map_at(es, i);
        }
    }
}

/// The map of a list with distinct keys, read entry by entry.
pub proof fn lemma_to_map_equal<K, V>(es: Seq<(K, V)>, m: Map<K, V>)
    requires
        distinct_keys(es),
        forall|k: K| m.contains_key(k) <==> exists|i: int| 0 <= i < es.len() && es[i].0 == k,
        forall|i: int| 0 <= i < es.len() ==> m[#[trigger] es[i].0] == es[i].1,
    ensures
        to_map(es) == m,
{
    assert forall|k: K| to_map(es).contains_key(k) <==> m.contains_key(k) by {
        lemma_to_map_dom(es, k);
    }
    assert forall|k: K| #[trigger] to_map(es).contains_key(k) implies to_map(es)[k] == m[k] by {
        lemma_to_map_dom(es, k);
        let i = choose|i: int| 0 <= i < es.len() && es[i].0 == k;
        lemma_to_map_at(es, i);
    }
    assert(to_map(es) =~= m);
}

/// Replacing the values of an existing key updates that key in the map.
pub proof fn lemma_to_map_update<K, V>(es: Seq<(K, V)>, i: int, vs: V)
    requires
        distinct_keys(es),
        0 <= i < es.len(),
    ensures
        distinct_keys(es.update(i, (es[i].0, vs))),
        to_map(es.update(i, (es[i].0, vs))) == to_map(es).insert(es[i].0, vs),
{
    let key = es[i].0;
    let es2 = es.update(i, (key, vs));
    let m = to_map(es).insert(key, vs);
    assert forall|k: K| m.contains_key(k) <==> exists|j: int| 0 <= j < es2.len() && es2[j].0 == k by {
        lemma_to_map_dom(es, k);
        if k == key {
            assert(es2[i].0 == k);
        } else if to_map(es).contains_key(k) {
            let j = choose|j: int| 0 <= j < es.len() && es[j].0 == k;
            assert(es2[j].0 == k);
        }
    }
    assert forall|j: int| 0 <= j < es2.len() implies m[#[trigger] es2[j].0] == es2[j].1 by {
        if j != i {
            lemma_to_map_at(es, j);
        }
    }
    lemma_to_map_equal(es2, m);
}

/// The map of a list with distinct keys has one key per entry.
pub proof fn lemma_to_map_len<K, V>(es: Seq<(K, V)>)
    requires
        distinct_keys(es),
    ensures
        to_map(es).dom().finite(),
        to_map(es).dom().len() == es.len(),
    decreases es.len(),
{
    if es.len() > 0 {
        let p = es.drop_last();
        lemma_to_map_len(p);
        lemma_to_map_dom(p, es.last().0);
        if to_map(p).contains_key(es.last().0) {
            let i = choose|i: int| 0 <= i < p.len() && p[i].0 == es.last().0;
            assert(es[i].0 == es[es.len() - 1].0);
        }
    }
}

/// Removing the entry at position `i` removes its key from the map.
pub proof fn lemma_to_map_remove<K, V>(es: Seq<(K, V)>, i: int)
    requires
        distinct_keys(es),
        0 <= i < es.len(),
    ensures
        distinct_keys(es.remove(i)),
        to_map(es.remove(i)) == to_map(es).remove(es[i].0),
{
    let key = es[i].0;
    let es2 = es.remove(i);
    let m = to_map(es).remove(key);
    assert(distinct_keys(es2)) by {
        assert forall|a: int, b: int|
            0 <= a < es2.len() && 0 <= b < es2.len() && a != b implies es2[a].0 != es2[b].0 by {
            let a0 = if a < i { a } else { a + 1 };
            let b0 = if b < i { b } else { b + 1 };
            assert(es2[a] == es[a0] && es2[b] == es[b0]);
        }
    }
    assert forall|k: K| m.contains_key(k) <==> exists|j: int| 0 <= j < es2.len() && es2[j].0 == k by {
        lemma_to_map_dom(es, k);
        if m.contains_key(k) {
            let j = choose|j: int| 0 <= j < es.len() && es[j].0 == k;
            assert(j != i);
            let j2 = if j < i { j } else { j - 1 };
            assert(es2[j2] == es[j]);
        }
        if exists|j: int| 0 <= j < es2.len() && es2[j].0 == k {
            let j = choose|j: int| 0 <= j < es2.len() && es2[j].0 == k;
            let j0 = if j < i { j } else { j + 1 };
            assert(es2[j] == es[j0]);
            assert(j0 != i);
        }
    }
    assert forall|j: int| 0 <= j < es2.len() implies m[#[trigger] es2[j].0] == es2[j].1 by {
        let j0 = if j < i { j } else { j + 1 };
        assert(es2[j] == es[j0]);
        lemma_to_map_at(es, j0);
    }
    lemma_to_map_equal(es2, m);
}

/// Appending an entry with a new key adds that key to the map.
pub proof fn lemma_to_map_push<K, V>(es: Seq<(K, V)>, e: (K, V))
    requires
        distinct_keys(es),
        !to_map(es).contains_key(e.0),
    ensures
        distinct_keys(es.push(e)),
        to_map(es.push(e)) == to_map(es).insert(e.0, e.1),
{
    lemma_to_map_dom(es, e.0);
    let es2 = es.push(e);
    assert(es2.drop_last() =~= es);
    assert forall|a: int, b: int|
        0 <= a < es2.len() && 0 <= b < es2.len() && a != b implies es2[a].0 != es2[b].0 by {
        if a < es.len() && b < es.len() {
            assert(es2[a] == es[a] && es2[b] == es[b]);
        } else if a < es.len() {
            assert(es2[a] == es[a]);
        } else {
            assert(es2[b] == es[b]);
        }
    }
}

/// The sum of `f` over the values of a finite map.
pub open spec fn map_sum<K, V>(m: Map<K, V>, f: spec_fn(V) -> nat) -> nat
    decreases m.dom().len(),
    when m.dom().finite()
{
    if m.dom().len() == 0 {
        0
    } else {
        let k = m.dom().choose();
        f(m[k]) + map_sum(m.remove(k), f)
    }
}

/// The sum of `f` over the values of entries, one by one.
pub open spec fn entries_sum<K, V>(es: Seq<(K, V)>, f: spec_fn(V) -> nat) -> nat
    decreases es.len(),
{
    if es.len() == 0 {
        0
    } else {
        entries_sum(es.drop_last(), f) + f(es.last().1)
    }
}

/// Any key of a finite map can be counted first.
pub proof fn lemma_map_sum_remove<K, V>(m: Map<K, V>, f: spec_fn(V) -> nat, k: K)
    requires
        m.dom().finite(),
        m.contains_key(k),
    ensures
        map_sum(m, f) == f(m[k]) + map_sum(m.remove(k), f),
    decreases m.dom().len(),
{
    assert(m.dom().len() > 0) by {
        assert(m.dom().contains(k));
    }
    let c = m.dom().choose();
    if c != k {
        assert(m.remove(c).dom() =~= m.dom().remove(c));
        assert(m.remove(k).dom() =~= m.dom().remove(k));
        lemma_map_sum_remove(m.remove(c), f, k);
        lemma_map_sum_remove(m.remove(k), f, c);
        assert(m.remove(c).remove(k) =~= m.remove(k).remove(c));
    }
}

/// A prefix of a list with distinct keys has distinct keys.
pub proof fn lemma_distinct_drop_last<K, V>(es: Seq<(K, V)>)
    requires
        distinct_keys(es),
        es.len() > 0,
    ensures
        distinct_keys(es.drop_last()),
{
    let p = es.drop_last();
    assert forall|a: int, b: int| 0 <= a < p.len() && 0 <= b < p.len() && a != b implies p[a].0
        != p[b].0 by {
        assert(p[a] == es[a] && p[b] == es[b]);
    }
}

/// Adding up entries with distinct keys one by one gives the sum over the
/// map they stand for.
pub proof fn lemma_entries_sum<K, V>(es: Seq<(K, V)>, f: spec_fn(V) -> nat)
    requires
        distinct_keys(es),
    ensures
        to_map(es).dom().finite(),
        entries_sum(es, f) == map_sum(to_map(es), f),
    decreases es.len(),
{
    lemma_to_map_len(es);
    if es.len() == 0 {
        assert(to_map(es).dom() =~= Set::<K>::empty());
    } else {
        let p = es.drop_last();
        lemma_distinct_drop_last(es);
        lemma_entries_sum(p, f);
        lemma_to_map_dom(p, es.last().0);
        if to_map(p).contains_key(es.last().0) {
            let j = choose|j: int| 0 <= j < p.len() && p[j].0 == es.last().0;
            assert(es[j] == p[j]);
        }
        let m = to_map(es);
        assert(m == to_map(p).insert(es.last().0, es.last().1));
        lemma_map_sum_remove(m, f, es.last().0);
        assert(m.remove(es.last().0) =~= to_map(p));
    }
}

/// The sum over a prefix of the entries is at most the sum over all of them.
pub proof fn lemma_entries_sum_prefix<K, V>(es: Seq<(K, V)>, f: spec_fn(V) -> nat, i: int, j: int)
    requires
        0 <= i <= j <= es.len(),
    ensures
        entries_sum(es.take(i), f) <= entries_sum(es.take(j), f),
    decreases j - i,
{
    if i < j {
        lemma_entries_sum_prefix(es, f, i, j - 1);
        assert(es.take(j).drop_last() =~= es.take(j - 1));
    }
}

/// Changing every value of a list keeps its keys.
pub proof fn lemma_to_map_map_values<K, V, W>(es: Seq<(K, V)>, f: spec_fn(V) -> W)
    ensures
        to_map(es.map_values(|e: (K, V)| (e.0, f(e.1)))) == to_map(es).map_values(f),
    decreases es.len(),
{
    let g = |e: (K, V)| (e.0, f(e.1));
    let ms = es.map_values(g);
    if es.len() == 0 {
        assert(to_map(es).map_values(f) =~= Map::<K, W>::empty());
    } else {
        lemma_to_map_map_values(es.drop_last(), f);
        assert(ms.drop_last() =~= es.drop_last().map_values(g));
        assert(ms.last() == (es.last().0, f(es.last().1)));
        assert(to_map(ms) =~= to_map(es).map_values(f));
    }
}

} // verus!
