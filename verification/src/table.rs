//! The generic transactional ledger for one logical table.
//!
//! A [`VersionedTable`] holds a baseline snapshot of `(key, value)` rows and a
//! live row set that reflects every buffered mutation. Its mathematical model
//! is a pair of maps from key views to value views; every operation states
//! exactly how it moves the live map. A caller-supplied strategy type decides
//! which pairs of values collide, and the table maintains the invariant that
//! no two distinct live rows collide.

use vstd::prelude::*;

verus! {

/// Returned by table operations whose uniqueness check failed.
pub struct Conflict;

/// Keys of a table row: comparable and clonable up to their view.
pub trait TableKey: View + Sized {
    /// Decides equality of the key views.
    fn key_eq(&self, other: &Self) -> (r: bool)
        ensures
            r <==> self@ == other@,
    ;

    /// A clone that preserves the key's view.
    fn key_clone(&self) -> (r: Self)
        ensures
            r@ == self@,
    ;
}

/// Values of a table row: comparable and clonable up to their view.
pub trait TableValue: View + Sized {
    /// Decides equality of the value views.
    fn val_eq(&self, other: &Self) -> (r: bool)
        ensures
            r <==> self@ == other@,
    ;

    /// A clone that preserves the value's view.
    fn val_clone(&self) -> (r: Self)
        ensures
            r@ == self@,
    ;
}

/// The uniqueness strategy of a table: which pairs of live values collide.
pub trait ConflictPred<V: View>: Sized {
    /// What it means for value `a` to collide with value `b`.
    spec fn conflicts(self, a: V::V, b: V::V) -> bool;

    /// Decides `conflicts` on the views of two values.
    fn check(&self, a: &V, b: &V) -> (r: bool)
        ensures
            r <==> self.conflicts(a@, b@),
    ;
}

/// A per-row rewrite strategy for bulk updates.
pub trait RowTransform<K: View, V: View>: Sized {
    /// The rewrite decision on a row, over views: `None` keeps the row,
    /// `Some` replaces its value.
    spec fn decide(self, k: K::V, v: V::V) -> Option<V::V>;

    /// Computes `decide` on a row.
    fn apply(&self, k: &K, v: &V) -> (r: Option<V>)
        ensures
            match r {
                Some(nv) => self.decide(k@, v@) == Some(nv@),
                None => self.decide(k@, v@) is None,
            },
    ;
}

/// A per-row selection strategy for bulk deletes.
pub trait RowFilter<K: View, V: View>: Sized {
    /// Whether the row is selected, over views.
    spec fn selects(self, k: K::V, v: V::V) -> bool;

    /// Decides `selects` on a row.
    fn test(&self, k: &K, v: &V) -> (r: bool)
        ensures
            r == self.selects(k@, v@),
    ;
}

/// The views of a sequence of rows.
pub open spec fn views_of<K: View, V: View>(s: Seq<(K, V)>) -> Seq<(K::V, V::V)> {
    s.map_values(|p: (K, V)| (p.0@, p.1@))
}

/// Whether some row of `s` has key `k`.
pub open spec fn seq_has_key<KV, VV>(s: Seq<(KV, VV)>, k: KV) -> bool {
    exists|i: int| 0 <= i < s.len() && s[i].0 == k
}

/// Whether the keys of `s` are pairwise distinct.
pub open spec fn keys_unique<KV, VV>(s: Seq<(KV, VV)>) -> bool {
    forall|i: int, j: int| 0 <= i < j < s.len() ==> (#[trigger] s[i]).0 != (#[trigger] s[j]).0
}

/// The map holding the rows of `s`; a later row wins over an earlier one.
pub open spec fn map_of<KV, VV>(s: Seq<(KV, VV)>) -> Map<KV, VV>
    decreases s.len(),
{
    if s.len() == 0 {
        Map::empty()
    } else {
        map_of(s.drop_last()).insert(s.last().0, s.last().1)
    }
}

/// No two distinct rows of `s` carry colliding values.
pub open spec fn seq_conflict_free<KV, V: View, P: ConflictPred<V>>(
    p: P,
    s: Seq<(KV, V::V)>,
) -> bool {
    forall|i: int, j: int|
        0 <= i < s.len() && 0 <= j < s.len() && i != j ==> !p.conflicts(
            (#[trigger] s[i]).1,
            (#[trigger] s[j]).1,
        )
}

/// No two rows of `m` under distinct keys carry colliding values.
pub open spec fn map_conflict_free<KV, V: View, P: ConflictPred<V>>(
    p: P,
    m: Map<KV, V::V>,
) -> bool {
    forall|k1: KV, k2: KV|
        #![trigger m[k1], m[k2]]
        m.contains_key(k1) && m.contains_key(k2) && k1 != k2 ==> !p.conflicts(m[k1], m[k2])
}

pub proof fn lemma_map_of_contains<KV, VV>(s: Seq<(KV, VV)>, k: KV)
    ensures
        map_of(s).contains_key(k) <==> seq_has_key(s, k),
    decreases s.len(),
{
    if s.len() == 0 {
    } else {
        lemma_map_of_contains(s.drop_last(), k);
        if seq_has_key(s.drop_last(), k) {
            let i = choose|i: int| 0 <= i < s.drop_last().len() && s.drop_last()[i].0 == k;
            assert(s[i].0 == k);
        }
        if s.last().0 == k {
            assert(s[s.len() - 1].0 == k);
        }
        if seq_has_key(s, k) && s.last().0 != k {
            let i = choose|i: int| 0 <= i < s.len() && s[i].0 == k;
            assert(i < s.len() - 1);
            assert(s.drop_last()[i].0 == k);
        }
    }
}

pub proof fn lemma_map_of_index<KV, VV>(s: Seq<(KV, VV)>, i: int)
    requires
        keys_unique(s),
        0 <= i < s.len(),
    ensures
        map_of(s).contains_key(s[i].0),
        map_of(s)[s[i].0] == s[i].1,
    decreases s.len(),
{
    if i == s.len() - 1 {
    } else {
        assert(keys_unique(s.drop_last())) by {
            assert forall|a: int, b: int| 0 <= a < b < s.drop_last().len() implies (#[trigger] s.drop_last()[a]).0
                != (#[trigger] s.drop_last()[b]).0 by {
                assert(s.drop_last()[a] == s[a]);
                assert(s.drop_last()[b] == s[b]);
            }
        }
        assert(s.drop_last()[i] == s[i]);
        lemma_map_of_index(s.drop_last(), i);
        assert(s[s.len() - 1].0 != s[i].0);
    }
}

pub proof fn lemma_map_of_finite<KV, VV>(s: Seq<(KV, VV)>)
    ensures
        map_of(s).dom().finite(),
    decreases s.len(),
{
    if s.len() > 0 {
        lemma_map_of_finite(s.drop_last());
    }
}

pub proof fn lemma_map_of_push<KV, VV>(s: Seq<(KV, VV)>, k: KV, v: VV)
    ensures
        map_of(s.push((k, v))) == map_of(s).insert(k, v),
{
    assert(s.push((k, v)).drop_last() =~= s);
    assert(s.push((k, v)).last() == (k, v));
}

pub proof fn lemma_map_of_remove<KV, VV>(s: Seq<(KV, VV)>, i: int)
    requires
        keys_unique(s),
        0 <= i < s.len(),
    ensures
        map_of(s.remove(i)) == map_of(s).remove(s[i].0),
        keys_unique(s.remove(i)),
    decreases s.len(),
{
    assert forall|a: int, b: int| 0 <= a < b < s.remove(i).len() implies (#[trigger] s.remove(
        i,
    )[a]).0 != (#[trigger] s.remove(i)[b]).0 by {
        assert(s.remove(i)[a] == if a < i {
            s[a]
        } else {
            s[a + 1]
        });
        assert(s.remove(i)[b] == if b < i {
            s[b]
        } else {
            s[b + 1]
        });
    }
    if i == s.len() - 1 {
        assert(s.remove(i) =~= s.drop_last());
        lemma_map_of_contains(s.drop_last(), s[i].0);
        assert(!seq_has_key(s.drop_last(), s[i].0)) by {
            if seq_has_key(s.drop_last(), s[i].0) {
                let a = choose|a: int|
                    0 <= a < s.drop_last().len() && s.drop_last()[a].0 == s[i].0;
                assert(s[a].0 == s[i].0);
            }
        }
        assert(map_of(s).remove(s[i].0) =~= map_of(s.drop_last()));
    } else {
        let dl = s.drop_last();
        assert(keys_unique(dl)) by {
            assert forall|a: int, b: int| 0 <= a < b < dl.len() implies (#[trigger] dl[a]).0 != (
            #[trigger] dl[b]).0 by {
                assert(dl[a] == s[a]);
                assert(dl[b] == s[b]);
            }
        }
        assert(dl[i] == s[i]);
        lemma_map_of_remove(dl, i);
        assert(s.remove(i).drop_last() =~= dl.remove(i));
        assert(s.remove(i).last() == s.last());
        assert(s.last().0 != s[i].0);
        assert(map_of(dl).remove(s[i].0).insert(s.last().0, s.last().1) =~= map_of(dl).insert(
            s.last().0,
            s.last().1,
        ).remove(s[i].0));
    }
}

pub proof fn lemma_map_of_len<KV, VV>(s: Seq<(KV, VV)>)
    requires
        keys_unique(s),
    ensures
        map_of(s).dom().finite(),
        map_of(s).dom().len() == s.len(),
    decreases s.len(),
{
    if s.len() == 0 {
        assert(map_of(s).dom() =~= Set::<KV>::empty());
    } else {
        let dl = s.drop_last();
        assert(keys_unique(dl)) by {
            assert forall|a: int, b: int| 0 <= a < b < dl.len() implies (#[trigger] dl[a]).0 != (
            #[trigger] dl[b]).0 by {
                assert(dl[a] == s[a]);
                assert(dl[b] == s[b]);
            }
        }
        lemma_map_of_len(dl);
        lemma_map_of_contains(dl, s.last().0);
        assert(!seq_has_key(dl, s.last().0)) by {
            if seq_has_key(dl, s.last().0) {
                let a = choose|a: int| 0 <= a < dl.len() && dl[a].0 == s.last().0;
                assert(s[a].0 == s[s.len() - 1].0);
            }
        }
        assert(map_of(s).dom() =~= map_of(dl).dom().insert(s.last().0));
    }
}

pub proof fn lemma_conflict_free_bridge<KV, V: View, P: ConflictPred<V>>(
    p: P,
    s: Seq<(KV, V::V)>,
)
    requires
        keys_unique(s),
    ensures
        seq_conflict_free(p, s) <==> map_conflict_free(p, map_of(s)),
{
    if seq_conflict_free(p, s) {
        assert forall|k1: KV, k2: KV|
            map_of(s).contains_key(k1) && map_of(s).contains_key(k2) && k1 != k2 implies !p.conflicts(
            #[trigger] map_of(s)[k1],
            #[trigger] map_of(s)[k2],
        ) by {
            lemma_map_of_contains(s, k1);
            lemma_map_of_contains(s, k2);
            let i = choose|i: int| 0 <= i < s.len() && s[i].0 == k1;
            let j = choose|j: int| 0 <= j < s.len() && s[j].0 == k2;
            lemma_map_of_index(s, i);
            lemma_map_of_index(s, j);
        }
    }
    if map_conflict_free(p, map_of(s)) {
        assert forall|i: int, j: int|
            0 <= i < s.len() && 0 <= j < s.len() && i != j implies !p.conflicts(
            (#[trigger] s[i]).1,
            (#[trigger] s[j]).1,
        ) by {
            lemma_map_of_index(s, i);
            lemma_map_of_index(s, j);
            assert(s[i].0 != s[j].0);
        }
    }
}

/// The views of a sequence of signed delta entries.
pub open spec fn delta_views<K: View, V: View>(s: Seq<(K, V, i64)>) -> Seq<(K::V, V::V, int)> {
    s.map_values(|p: (K, V, i64)| (p.0@, p.1@, p.2 as int))
}

/// Whether the live state lost the row `b` held under `k`, or changed it.
pub open spec fn changed_down<KV, VV>(b: Map<KV, VV>, l: Map<KV, VV>, k: KV) -> bool {
    b.contains_key(k) && (!l.contains_key(k) || l[k] != b[k])
}

/// Whether the live state holds a row under `k` that `b` lacked, or changed.
pub open spec fn changed_up<KV, VV>(b: Map<KV, VV>, l: Map<KV, VV>, k: KV) -> bool {
    l.contains_key(k) && (!b.contains_key(k) || b[k] != l[k])
}

/// Whether `d` holds an entry for key `k` with the given sign.
pub open spec fn delta_has<KV, VV>(d: Seq<(KV, VV, int)>, k: KV, sign: int) -> bool {
    exists|i: int| 0 <= i < d.len() && (#[trigger] d[i]).0 == k && d[i].2 == sign
}

/// Every entry of `d` is a true retraction (`-1` of a baseline row that is no
/// longer live as such) or a true addition (`+1` of a live row that was not
/// in the baseline as such).
pub open spec fn delta_entries_ok<KV, VV>(
    b: Map<KV, VV>,
    l: Map<KV, VV>,
    d: Seq<(KV, VV, int)>,
) -> bool {
    &&& forall|i: int| 0 <= i < d.len() ==> (#[trigger] d[i]).2 == -1 || d[i].2 == 1
    &&& forall|i: int|
        0 <= i < d.len() && (#[trigger] d[i]).2 == -1 ==> changed_down(b, l, d[i].0) && d[i].1
            == b[d[i].0]
    &&& forall|i: int|
        0 <= i < d.len() && (#[trigger] d[i]).2 == 1 ==> changed_up(b, l, d[i].0) && d[i].1
            == l[d[i].0]
}

/// No two entries of `d` share both key and sign.
pub open spec fn delta_no_dups<KV, VV>(d: Seq<(KV, VV, int)>) -> bool {
    forall|i: int, j: int|
        0 <= i < d.len() && 0 <= j < d.len() && i != j ==> !((#[trigger] d[i]).0 == (
        #[trigger] d[j]).0 && d[i].2 == d[j].2)
}

/// `d` is the minimal signed delta from baseline `b` to live state `l`:
/// sound entries, full coverage of every changed key, and at most one entry
/// per key and sign.
pub open spec fn delta_ok<KV, VV>(b: Map<KV, VV>, l: Map<KV, VV>, d: Seq<(KV, VV, int)>) -> bool {
    &&& delta_entries_ok(b, l, d)
    &&& forall|k: KV| #[trigger] changed_down(b, l, k) ==> delta_has(d, k, -1)
    &&& forall|k: KV| #[trigger] changed_up(b, l, k) ==> delta_has(d, k, 1)
    &&& delta_no_dups(d)
}

/// An entry stays in the delta when further entries are appended.
pub proof fn lemma_delta_has_extend<KV, VV>(
    d1: Seq<(KV, VV, int)>,
    d2: Seq<(KV, VV, int)>,
    k: KV,
    sign: int,
)
    requires
        delta_has(d1, k, sign),
        d1.len() <= d2.len(),
        forall|i: int| 0 <= i < d1.len() ==> d2[i] == d1[i],
    ensures
        delta_has(d2, k, sign),
{
    let i = choose|i: int| 0 <= i < d1.len() && (#[trigger] d1[i]).0 == k && d1[i].2 == sign;
    assert(d2[i].0 == k && d2[i].2 == sign);
}

/// The value of the `+1` entry of `d` for key `k`.
pub open spec fn delta_pos_val<KV, VV>(d: Seq<(KV, VV, int)>, k: KV) -> VV {
    let i = choose|i: int| 0 <= i < d.len() && (#[trigger] d[i]).0 == k && d[i].2 == 1;
    d[i].1
}

/// The rows held by a durable store that applies `d` atomically over the
/// baseline `b`: a `+1` entry writes its value and a `-1` entry without a
/// matching `+1` deletes the row.
pub open spec fn apply_delta<KV, VV>(b: Map<KV, VV>, d: Seq<(KV, VV, int)>) -> Map<KV, VV> {
    Map::new(
        |k: KV| delta_has(d, k, 1) || (b.contains_key(k) && !delta_has(d, k, -1)),
        |k: KV|
            if delta_has(d, k, 1) {
                delta_pos_val(d, k)
            } else {
                b[k]
            },
    )
}

/// Applying a correct delta to the baseline reproduces the live rows: what a
/// fresh snapshot reads after an atomic commit is exactly what the
/// transaction saw.
pub proof fn lemma_apply_delta<KV, VV>(b: Map<KV, VV>, l: Map<KV, VV>, d: Seq<(KV, VV, int)>)
    requires
        delta_ok(b, l, d),
    ensures
        apply_delta(b, d) == l,
{
    assert forall|k: KV| apply_delta(b, d).contains_key(k) <==> l.contains_key(k) by {
        if delta_has(d, k, 1) {
            let i = choose|i: int| 0 <= i < d.len() && (#[trigger] d[i]).0 == k && d[i].2 == 1;
            assert(changed_up(b, l, d[i].0));
        } else if b.contains_key(k) && !delta_has(d, k, -1) {
            assert(!changed_down(b, l, k));
        } else {
            if l.contains_key(k) {
                if changed_up(b, l, k) {
                    assert(delta_has(d, k, 1));
                } else {
                    assert(b.contains_key(k) && b[k] == l[k]);
                    if delta_has(d, k, -1) {
                        let i = choose|i: int|
                            0 <= i < d.len() && (#[trigger] d[i]).0 == k && d[i].2 == -1;
                        assert(changed_down(b, l, d[i].0));
                    }
                }
            }
        }
    }
    assert forall|k: KV| apply_delta(b, d).contains_key(k) implies apply_delta(b, d)[k] == l[k] by {
        if delta_has(d, k, 1) {
            let i = choose|i: int| 0 <= i < d.len() && (#[trigger] d[i]).0 == k && d[i].2 == 1;
            assert(d[i].1 == l[k]);
        } else {
            assert(b.contains_key(k) && !delta_has(d, k, -1));
            assert(!changed_down(b, l, k));
        }
    }
    assert(apply_delta(b, d) =~= l);
}

/// A correct delta is empty exactly when the live rows equal the baseline.
pub proof fn lemma_delta_empty<KV, VV>(b: Map<KV, VV>, l: Map<KV, VV>, d: Seq<(KV, VV, int)>)
    requires
        delta_ok(b, l, d),
    ensures
        d.len() == 0 <==> b == l,
{
    if d.len() == 0 {
        assert forall|k: KV| b.contains_key(k) <==> l.contains_key(k) by {
            if b.contains_key(k) && !l.contains_key(k) {
                assert(changed_down(b, l, k));
                assert(delta_has(d, k, -1));
            }
            if l.contains_key(k) && !b.contains_key(k) {
                assert(changed_up(b, l, k));
                assert(delta_has(d, k, 1));
            }
        }
        assert forall|k: KV| b.contains_key(k) implies b[k] == l[k] by {
            if b[k] != l[k] {
                assert(changed_down(b, l, k));
                assert(delta_has(d, k, -1));
            }
        }
        assert(b =~= l);
    } else {
        if b == l {
            assert(d[0].2 == -1 || d[0].2 == 1);
            if d[0].2 == -1 {
                assert(changed_down(b, l, d[0].0));
            } else {
                assert(changed_up(b, l, d[0].0));
            }
        }
    }
}

/// Keys of `m` whose row satisfies `p`.
pub open spec fn picked_keys<KV, VV>(m: Map<KV, VV>, p: spec_fn(KV, VV) -> bool) -> Set<KV> {
    m.dom().filter(|k: KV| p(k, m[k]))
}

/// The restriction of `m` to the rows satisfying `p`.
pub open spec fn picked_map<KV, VV>(m: Map<KV, VV>, p: spec_fn(KV, VV) -> bool) -> Map<KV, VV> {
    Map::new(|k: KV| m.contains_key(k) && p(k, m[k]), |k: KV| m[k])
}

/// How many rows of `s` satisfy `p`.
pub open spec fn count_picked<KV, VV>(s: Seq<(KV, VV)>, p: spec_fn(KV, VV) -> bool) -> nat
    decreases s.len(),
{
    if s.len() == 0 {
        0
    } else {
        count_picked(s.drop_last(), p) + if p(s.last().0, s.last().1) {
            1nat
        } else {
            0nat
        }
    }
}

/// The subsequence of rows of `s` satisfying `p`, in order.
pub open spec fn rows_where<KV, VV>(s: Seq<(KV, VV)>, p: spec_fn(KV, VV) -> bool) -> Seq<(KV, VV)>
    decreases s.len(),
{
    if s.len() == 0 {
        Seq::empty()
    } else if p(s.last().0, s.last().1) {
        rows_where(s.drop_last(), p).push(s.last())
    } else {
        rows_where(s.drop_last(), p)
    }
}

/// `m` after a bulk rewrite under strategy `t`.
pub open spec fn transformed_map<K: View, V: View, T: RowTransform<K, V>>(
    m: Map<K::V, V::V>,
    t: T,
) -> Map<K::V, V::V> {
    Map::new(
        |k: K::V| m.contains_key(k),
        |k: K::V|
            match t.decide(k, m[k]) {
                Some(v2) => v2,
                None => m[k],
            },
    )
}

/// The rows a rewrite strategy touches.
pub open spec fn decides_some<K: View, V: View, T: RowTransform<K, V>>(t: T) -> spec_fn(
    K::V,
    V::V,
) -> bool {
    |k: K::V, v: V::V| t.decide(k, v) is Some
}

/// The rows a selection strategy selects.
pub open spec fn selected_by<K: View, V: View, F: RowFilter<K, V>>(f: F) -> spec_fn(
    K::V,
    V::V,
) -> bool {
    |k: K::V, v: V::V| f.selects(k, v)
}

/// The rows a selection strategy leaves alone.
pub open spec fn not_selected_by<K: View, V: View, F: RowFilter<K, V>>(f: F) -> spec_fn(
    K::V,
    V::V,
) -> bool {
    |k: K::V, v: V::V| !f.selects(k, v)
}

pub proof fn lemma_keys_unique_drop_last<KV, VV>(s: Seq<(KV, VV)>)
    requires
        keys_unique(s),
        s.len() > 0,
    ensures
        keys_unique(s.drop_last()),
        !seq_has_key(s.drop_last(), s.last().0),
{
    let dl = s.drop_last();
    assert forall|a: int, b: int| 0 <= a < b < dl.len() implies (#[trigger] dl[a]).0 != (
    #[trigger] dl[b]).0 by {
        assert(dl[a] == s[a]);
        assert(dl[b] == s[b]);
    }
    if seq_has_key(dl, s.last().0) {
        let a = choose|a: int| 0 <= a < dl.len() && dl[a].0 == s.last().0;
        assert(s[a].0 == s[s.len() - 1].0);
    }
}

pub proof fn lemma_count_picked_map<KV, VV>(s: Seq<(KV, VV)>, p: spec_fn(KV, VV) -> bool)
    requires
        keys_unique(s),
    ensures
        picked_keys(map_of(s), p).finite(),
        count_picked(s, p) == picked_keys(map_of(s), p).len(),
    decreases s.len(),
{
    if s.len() == 0 {
        assert(picked_keys(map_of(s), p) =~= Set::<KV>::empty());
    } else {
        let dl = s.drop_last();
        lemma_keys_unique_drop_last(s);
        lemma_count_picked_map(dl, p);
        lemma_map_of_contains(dl, s.last().0);
        if p(s.last().0, s.last().1) {
            assert(picked_keys(map_of(s), p) =~= picked_keys(map_of(dl), p).insert(s.last().0));
            assert(!picked_keys(map_of(dl), p).contains(s.last().0));
        } else {
            assert(picked_keys(map_of(s), p) =~= picked_keys(map_of(dl), p));
        }
    }
}

pub proof fn lemma_rows_where_props<KV, VV>(s: Seq<(KV, VV)>, p: spec_fn(KV, VV) -> bool)
    requires
        keys_unique(s),
    ensures
        keys_unique(rows_where(s, p)),
        map_of(rows_where(s, p)) == picked_map(map_of(s), p),
        rows_where(s, p).len() == count_picked(s, p),
    decreases s.len(),
{
    if s.len() == 0 {
        assert(map_of(rows_where(s, p)) =~= picked_map(map_of(s), p));
    } else {
        let dl = s.drop_last();
        lemma_keys_unique_drop_last(s);
        lemma_rows_where_props(dl, p);
        lemma_map_of_contains(dl, s.last().0);
        let rw = rows_where(dl, p);
        lemma_map_of_contains(rw, s.last().0);
        assert(!seq_has_key(rw, s.last().0));
        if p(s.last().0, s.last().1) {
            assert(rows_where(s, p) == rw.push(s.last()));
            assert forall|a: int, b: int| 0 <= a < b < rw.push(s.last()).len() implies (
            #[trigger] rw.push(s.last())[a]).0 != (#[trigger] rw.push(s.last())[b]).0 by {
                if b < rw.len() {
                    assert(rw.push(s.last())[a] == rw[a]);
                    assert(rw.push(s.last())[b] == rw[b]);
                } else {
                    assert(rw.push(s.last())[a] == rw[a]);
                    if rw[a].0 == s.last().0 {
                        assert(seq_has_key(rw, s.last().0));
                    }
                }
            }
            lemma_map_of_push(rw, s.last().0, s.last().1);
            assert(map_of(rw).insert(s.last().0, s.last().1) =~= picked_map(map_of(s), p));
        } else {
            assert(picked_map(map_of(s), p) =~= picked_map(map_of(dl), p));
        }
    }
}

/// When a strategy touches at most the single key `k0`, its touched count is
/// one when `k0` is live and zero otherwise.
pub proof fn lemma_picked_keys_single<KV, VV>(m: Map<KV, VV>, p: spec_fn(KV, VV) -> bool, k0: KV)
    requires
        m.dom().finite(),
        forall|k: KV| #[trigger] m.contains_key(k) ==> (p(k, m[k]) <==> k == k0),
    ensures
        picked_keys(m, p).len() == (if m.contains_key(k0) {
            1int
        } else {
            0int
        }),
{
    if m.contains_key(k0) {
        assert(picked_keys(m, p) =~= Set::<KV>::empty().insert(k0));
    } else {
        assert(picked_keys(m, p) =~= Set::<KV>::empty());
    }
}

/// When a strategy touches exactly the keys of `ks`, its touched count equals
/// the size of `ks` exactly when every key of `ks` is live.
pub proof fn lemma_picked_keys_set<KV, VV>(m: Map<KV, VV>, p: spec_fn(KV, VV) -> bool, ks: Set<KV>)
    requires
        m.dom().finite(),
        ks.finite(),
        forall|k: KV| #[trigger] m.contains_key(k) ==> (p(k, m[k]) <==> ks.contains(k)),
    ensures
        picked_keys(m, p) == ks.intersect(m.dom()),
        picked_keys(m, p).len() <= ks.len(),
        picked_keys(m, p).len() == ks.len() <==> ks.subset_of(m.dom()),
{
    assert(picked_keys(m, p) =~= ks.intersect(m.dom()));
    let inter = ks.intersect(m.dom());
    vstd::set_lib::lemma_len_subset(inter, ks);
    if inter.len() == ks.len() {
        if !ks.subset_of(m.dom()) {
            let k = choose|k: KV| ks.contains(k) && !m.dom().contains(k);
            assert(inter.subset_of(ks.remove(k)));
            vstd::set_lib::lemma_len_subset(inter, ks.remove(k));
        }
    } else {
        if ks.subset_of(m.dom()) {
            assert(inter =~= ks);
        }
    }
}

/// The effect of a rewrite strategy that touches at most the single key
/// `k0`, rewriting its row to `nv`: the touched count is one exactly when
/// `k0` is live, the rewritten map is a plain insert, and it keeps the
/// uniqueness invariant exactly when `nv` collides with no other live row.
pub proof fn lemma_single_update<K: View, V: View, P: ConflictPred<V>, T: RowTransform<K, V>>(
    m0: Map<K::V, V::V>,
    p: P,
    t: T,
    k0: K::V,
    nv: V::V,
)
    requires
        m0.dom().finite(),
        map_conflict_free(p, m0),
        forall|k: K::V| #[trigger]
            m0.contains_key(k) ==> t.decide(k, m0[k]) == (if k == k0 {
                Some(nv)
            } else {
                Option::<V::V>::None
            }),
    ensures
        picked_keys(m0, decides_some::<K, V, T>(t)).len() == (if m0.contains_key(k0) {
            1int
        } else {
            0int
        }),
        m0.contains_key(k0) ==> transformed_map::<K, V, T>(m0, t) == m0.insert(k0, nv),
        !m0.contains_key(k0) ==> transformed_map::<K, V, T>(m0, t) == m0,
        map_conflict_free(p, transformed_map::<K, V, T>(m0, t)) <==> (!m0.contains_key(k0)
            || forall|k2: K::V| #[trigger]
            m0.contains_key(k2) && k2 != k0 ==> !p.conflicts(m0[k2], nv) && !p.conflicts(
                nv,
                m0[k2],
            )),
{
    let tm = transformed_map::<K, V, T>(m0, t);
    lemma_picked_keys_single(m0, decides_some::<K, V, T>(t), k0);
    if m0.contains_key(k0) {
        assert(tm =~= m0.insert(k0, nv));
    } else {
        assert(tm =~= m0);
    }
    if map_conflict_free(p, tm) && m0.contains_key(k0) {
        assert forall|k2: K::V| #[trigger]
            m0.contains_key(k2) && k2 != k0 implies !p.conflicts(m0[k2], nv) && !p.conflicts(
            nv,
            m0[k2],
        ) by {
            assert(tm[k2] == m0[k2]);
            assert(tm[k0] == nv);
        }
    }
    if !m0.contains_key(k0) {
        assert(map_conflict_free(p, tm));
    } else if forall|k2: K::V| #[trigger]
        m0.contains_key(k2) && k2 != k0 ==> !p.conflicts(m0[k2], nv) && !p.conflicts(
        nv,
        m0[k2],
    ) {
        assert forall|k1: K::V, k2: K::V|
            #![trigger tm[k1], tm[k2]]
            tm.contains_key(k1) && tm.contains_key(k2) && k1 != k2 implies !p.conflicts(
            tm[k1],
            tm[k2],
        ) by {
            if k1 != k0 && k2 != k0 {
                assert(tm[k1] == m0[k1]);
                assert(tm[k2] == m0[k2]);
            } else if k1 == k0 {
                assert(tm[k1] == nv);
                assert(tm[k2] == m0[k2]);
            } else {
                assert(tm[k2] == nv);
                assert(tm[k1] == m0[k1]);
            }
        }
    }
}

/// One logical table: a baseline snapshot plus the live rows that reflect
/// every buffered mutation.
pub struct VersionedTable<K, V, P> {
    baseline: Vec<(K, V)>,
    live: Vec<(K, V)>,
    pred: P,
}

impl<K: TableKey, V: TableValue, P: ConflictPred<V>> VersionedTable<K, V, P> {
    /// The rows as of the snapshot the table was created from.
    pub closed spec fn base(self) -> Map<K::V, V::V> {
        map_of(views_of(self.baseline@))
    }

    /// The rows as currently visible inside the transaction.
    pub closed spec fn live(self) -> Map<K::V, V::V> {
        map_of(views_of(self.live@))
    }

    /// The uniqueness strategy the table was created with.
    pub closed spec fn predicate(self) -> P {
        self.pred
    }

    /// Internal well-formedness: distinct keys, and no two live rows collide.
    pub closed spec fn wf(self) -> bool {
        &&& keys_unique(views_of(self.baseline@))
        &&& keys_unique(views_of(self.live@))
        &&& seq_conflict_free(self.pred, views_of(self.live@))
    }

    /// A well-formed table's live rows never collide pairwise.
    pub proof fn lemma_live_conflict_free(self)
        requires
            self.wf(),
        ensures
            map_conflict_free(self.predicate(), self.live()),
            self.live().dom().finite(),
            self.base().dom().finite(),
    {
        lemma_conflict_free_bridge(self.pred, views_of(self.live@));
        lemma_map_of_finite(views_of(self.live@));
        lemma_map_of_finite(views_of(self.baseline@));
    }

    /// Whether inserting `(k, v)` is allowed: the key must be fresh and the
    /// value must not collide with any live row.
    pub open spec fn may_insert(self, k: K::V, v: V::V) -> bool {
        &&& !self.live().contains_key(k)
        &&& forall|k2: K::V| #[trigger]
            self.live().contains_key(k2) ==> !self.predicate().conflicts(self.live()[k2], v)
                && !self.predicate().conflicts(v, self.live()[k2])
    }

    /// Index of the live row with the given key, if any.
    fn find_live(&self, key: &K) -> (r: Option<usize>)
        ensures
            match r {
                Some(i) => i < self.live@.len() && views_of(self.live@)[i as int].0 == key@,
                None => !seq_has_key(views_of(self.live@), key@),
            },
    {
        let mut i: usize = 0;
        while i < self.live.len()
            invariant
                i <= self.live@.len(),
                forall|j: int| 0 <= j < i ==> (#[trigger] views_of(self.live@)[j]).0 != key@,
            decreases self.live@.len() - i,
        {
            if self.live[i].0.key_eq(key) {
                return Some(i);
            }
            i += 1;
        }
        None
    }

    /// Pure read of the live value under `key`, merging baseline and pending
    /// mutations.
    pub fn get(&self, key: &K) -> (r: Option<&V>)
        requires
            self.wf(),
        ensures
            match r {
                Some(v) => self.live().contains_key(key@) && v@ == self.live()[key@],
                None => !self.live().contains_key(key@),
            },
    {
        proof {
            lemma_map_of_contains(views_of(self.live@), key@);
        }
        match self.find_live(key) {
            Some(i) => {
                proof {
                    lemma_map_of_index(views_of(self.live@), i as int);
                }
                Some(&self.live[i].1)
            },
            None => None,
        }
    }

    /// Inserts a fresh row. Fails, changing nothing, if the key is already
    /// live or the value collides with any live row.
    pub fn insert(&mut self, key: K, value: V) -> (r: Result<(), Conflict>)
        requires
            old(self).wf(),
        ensures
            final(self).wf(),
            final(self).base() == old(self).base(),
            final(self).predicate() == old(self).predicate(),
            match r {
                Ok(_) => old(self).may_insert(key@, value@) && final(self).live() == old(
                    self,
                ).live().insert(key@, value@),
                Err(_) => *final(self) == *old(self) && !old(self).may_insert(key@, value@),
            },
    {
        proof {
            lemma_map_of_contains(views_of(self.live@), key@);
        }
        if self.find_live(&key).is_some() {
            return Err(Conflict);
        }
        let ghost s = views_of(self.live@);
        let mut i: usize = 0;
        while i < self.live.len()
            invariant
                *self == *old(self),
                s == views_of(self.live@),
                i <= self.live@.len(),
                old(self).wf(),
                !seq_has_key(s, key@),
                forall|j: int|
                    0 <= j < i ==> !self.pred.conflicts((#[trigger] s[j]).1, value@)
                        && !self.pred.conflicts(value@, s[j].1),
            decreases self.live@.len() - i,
        {
            if self.pred.check(&self.live[i].1, &value) || self.pred.check(
                &value,
                &self.live[i].1,
            ) {
                proof {
                    lemma_map_of_index(s, i as int);
                }
                return Err(Conflict);
            }
            i += 1;
        }
        proof {
            lemma_map_of_push(s, key@, value@);
        }
        self.live.push((key, value));
        proof {
            let s2 = views_of(self.live@);
            assert(s2 =~= s.push((key@, value@)));
            assert forall|a: int, b: int| 0 <= a < b < s2.len() implies (#[trigger] s2[a]).0 != (
            #[trigger] s2[b]).0 by {
                if b < s2.len() - 1 {
                    assert(s2[a] == s[a]);
                    assert(s2[b] == s[b]);
                } else {
                    assert(s2[b].0 == key@);
                    if s[a].0 == key@ {
                        assert(seq_has_key(s, key@));
                    }
                }
            }
            assert forall|a: int, b: int|
                0 <= a < s2.len() && 0 <= b < s2.len() && a != b implies !self.pred.conflicts(
                (#[trigger] s2[a]).1,
                (#[trigger] s2[b]).1,
            ) by {
                if a < s2.len() - 1 && b < s2.len() - 1 {
                    assert(s2[a] == s[a]);
                    assert(s2[b] == s[b]);
                } else if a == s2.len() - 1 {
                    assert(s2[b] == s[b]);
                } else {
                    assert(s2[a] == s[a]);
                }
            }
            assert forall|k2: K::V| #[trigger]
                old(self).live().contains_key(k2) implies !old(self).pred.conflicts(
                old(self).live()[k2],
                value@,
            ) && !old(self).pred.conflicts(value@, old(self).live()[k2]) by {
                lemma_map_of_contains(s, k2);
                let j = choose|j: int| 0 <= j < s.len() && s[j].0 == k2;
                lemma_map_of_index(s, j);
            }
        }
        Ok(())
    }

    /// Whether writing value `v` under key `k` is allowed: `v` must not
    /// collide with any live row under a different key.
    pub open spec fn may_set(self, k: K::V, v: V::V) -> bool {
        forall|k2: K::V| #[trigger]
            self.live().contains_key(k2) && k2 != k ==> !self.predicate().conflicts(
                self.live()[k2],
                v,
            ) && !self.predicate().conflicts(v, self.live()[k2])
    }

    /// Unconditional upsert (for `Some`) or delete (for `None`) of the row
    /// under `key`; returns the prior live value. Fails, changing nothing,
    /// only if the new value collides with a live row under another key.
    pub fn set(&mut self, key: K, value: Option<V>) -> (r: Result<Option<V>, Conflict>)
        requires
            old(self).wf(),
        ensures
            final(self).wf(),
            final(self).base() == old(self).base(),
            final(self).predicate() == old(self).predicate(),
            match r {
                Ok(prev) => {
                    &&& match prev {
                        Some(pv) => old(self).live().contains_key(key@) && pv@ == old(
                            self,
                        ).live()[key@],
                        None => !old(self).live().contains_key(key@),
                    }
                    &&& match value {
                        Some(v) => old(self).may_set(key@, v@) && final(self).live() == old(
                            self,
                        ).live().insert(key@, v@),
                        None => final(self).live() == old(self).live().remove(key@),
                    }
                },
                Err(_) => *final(self) == *old(self) && value is Some && !old(self).may_set(
                    key@,
                    value.unwrap()@,
                ),
            },
    {
        let ghost s = views_of(self.live@);
        proof {
            lemma_map_of_contains(s, key@);
        }
        match value {
            None => {
                match self.find_live(&key) {
                    Some(i) => {
                        proof {
                            lemma_map_of_index(s, i as int);
                            lemma_map_of_remove(s, i as int);
                        }
                        let pair = self.live.remove(i);
                        proof {
                            let s2 = views_of(self.live@);
                            assert(s2 =~= s.remove(i as int));
                            assert forall|a: int, b: int|
                                0 <= a < s2.len() && 0 <= b < s2.len() && a != b implies !self.pred.conflicts(
                                (#[trigger] s2[a]).1,
                                (#[trigger] s2[b]).1,
                            ) by {
                                let a0: int = if a < i { a } else { a + 1 };
                                let b0: int = if b < i { b } else { b + 1 };
                                assert(s2[a] == s[a0]);
                                assert(s2[b] == s[b0]);
                            }
                        }
                        Ok(Some(pair.1))
                    },
                    None => {
                        proof {
                            assert(map_of(s).remove(key@) =~= map_of(s));
                        }
                        Ok(None)
                    },
                }
            },
            Some(v) => {
                let mut j: usize = 0;
                while j < self.live.len()
                    invariant
                        *self == *old(self),
                        s == views_of(self.live@),
                        j <= self.live@.len(),
                        old(self).wf(),
                        value == Some(v),
                        forall|b: int|
                            0 <= b < j ==> (#[trigger] s[b]).0 == key@ || (!self.pred.conflicts(
                                s[b].1,
                                v@,
                            ) && !self.pred.conflicts(v@, s[b].1)),
                    decreases self.live@.len() - j,
                {
                    if !self.live[j].0.key_eq(&key) && (self.pred.check(&self.live[j].1, &v)
                        || self.pred.check(&v, &self.live[j].1)) {
                        proof {
                            lemma_map_of_index(s, j as int);
                            assert(old(self).live()[s[j as int].0] == s[j as int].1);
                            assert(!old(self).may_set(key@, v@));
                        }
                        return Err(Conflict);
                    }
                    j += 1;
                }
                proof {
                    assert forall|k2: K::V| #[trigger]
                        old(self).live().contains_key(k2) && k2 != key@ implies !self.pred.conflicts(
                        old(self).live()[k2],
                        v@,
                    ) && !self.pred.conflicts(v@, old(self).live()[k2]) by {
                        lemma_map_of_contains(s, k2);
                        let b = choose|b: int| 0 <= b < s.len() && s[b].0 == k2;
                        lemma_map_of_index(s, b);
                    }
                }
                match self.find_live(&key) {
                    Some(i) => {
                        proof {
                            lemma_map_of_index(s, i as int);
                            lemma_map_of_remove(s, i as int);
                            lemma_map_of_push(s.remove(i as int), key@, v@);
                        }
                        let prev = self.live.remove(i);
                        self.live.push((key, v));
                        proof {
                            let sr = s.remove(i as int);
                            let s2 = views_of(self.live@);
                            assert(s2 =~= sr.push((key@, v@)));
                            assert(map_of(s2) =~= map_of(s).insert(key@, v@));
                            assert forall|b: int| 0 <= b < sr.len() implies (#[trigger] sr[b]).0
                                != key@ && (sr[b].0 == key@ || (!self.pred.conflicts(sr[b].1, v@)
                                && !self.pred.conflicts(v@, sr[b].1))) by {
                                let b0: int = if b < i { b } else { b + 1 };
                                assert(sr[b] == s[b0]);
                                assert(s[b0].0 != s[i as int].0);
                            }
                            assert forall|a: int, b: int| 0 <= a < b < s2.len() implies (
                            #[trigger] s2[a]).0 != (#[trigger] s2[b]).0 by {
                                if b < s2.len() - 1 {
                                    assert(s2[a] == sr[a]);
                                    assert(s2[b] == sr[b]);
                                } else {
                                    assert(s2[a] == sr[a]);
                                }
                            }
                            assert forall|a: int, b: int|
                                0 <= a < s2.len() && 0 <= b < s2.len() && a != b implies !self.pred.conflicts(
                                (#[trigger] s2[a]).1,
                                (#[trigger] s2[b]).1,
                            ) by {
                                if a < s2.len() - 1 && b < s2.len() - 1 {
                                    let a0: int = if a < i { a } else { a + 1 };
                                    let b0: int = if b < i { b } else { b + 1 };
                                    assert(s2[a] == s[a0]);
                                    assert(s2[b] == s[b0]);
                                } else if a == s2.len() - 1 {
                                    assert(s2[b] == sr[b]);
                                } else {
                                    assert(s2[a] == sr[a]);
                                }
                            }
                        }
                        Ok(Some(prev.1))
                    },
                    None => {
                        proof {
                            lemma_map_of_push(s, key@, v@);
                        }
                        self.live.push((key, v));
                        proof {
                            let s2 = views_of(self.live@);
                            assert(s2 =~= s.push((key@, v@)));
                            assert forall|a: int, b: int| 0 <= a < b < s2.len() implies (
                            #[trigger] s2[a]).0 != (#[trigger] s2[b]).0 by {
                                if b < s2.len() - 1 {
                                    assert(s2[a] == s[a]);
                                    assert(s2[b] == s[b]);
                                } else {
                                    assert(s2[a] == s[a]);
                                    if s[a].0 == key@ {
                                        assert(seq_has_key(s, key@));
                                    }
                                }
                            }
                            assert forall|a: int, b: int|
                                0 <= a < s2.len() && 0 <= b < s2.len() && a != b implies !self.pred.conflicts(
                                (#[trigger] s2[a]).1,
                                (#[trigger] s2[b]).1,
                            ) by {
                                if a < s2.len() - 1 && b < s2.len() - 1 {
                                    assert(s2[a] == s[a]);
                                    assert(s2[b] == s[b]);
                                } else if a == s2.len() - 1 {
                                    assert(s2[b] == s[b]);
                                    assert(s[b].0 != key@) by {
                                        if s[b].0 == key@ {
                                            assert(seq_has_key(s, key@));
                                        }
                                    }
                                } else {
                                    assert(s2[a] == s[a]);
                                    assert(s[a].0 != key@) by {
                                        if s[a].0 == key@ {
                                            assert(seq_has_key(s, key@));
                                        }
                                    }
                                }
                            }
                        }
                        Ok(None)
                    },
                }
            },
        }
    }

    /// Applies a rewrite strategy to every live row, all-or-nothing: if any
    /// rewritten value would collide with another live row, nothing changes.
    /// On success returns how many rows were rewritten.
    pub fn update<T: RowTransform<K, V>>(&mut self, t: &T) -> (r: Result<usize, Conflict>)
        requires
            old(self).wf(),
        ensures
            final(self).wf(),
            final(self).base() == old(self).base(),
            final(self).predicate() == old(self).predicate(),
            match r {
                Ok(n) => {
                    &&& final(self).live() == transformed_map::<K, V, T>(old(self).live(), *t)
                    &&& n == picked_keys(old(self).live(), decides_some::<K, V, T>(*t)).len()
                    &&& map_conflict_free(
                        old(self).predicate(),
                        transformed_map::<K, V, T>(old(self).live(), *t),
                    )
                },
                Err(_) => *final(self) == *old(self) && !map_conflict_free(
                    old(self).predicate(),
                    transformed_map::<K, V, T>(old(self).live(), *t),
                ),
            },
    {
        let ghost s = views_of(self.live@);
        let ghost m0 = self.live();
        let ghost psel = decides_some::<K, V, T>(*t);
        let ghost tm = transformed_map::<K, V, T>(m0, *t);
        let mut cand: Vec<(K, V)> = Vec::new();
        let mut count: usize = 0;
        let mut i: usize = 0;
        while i < self.live.len()
            invariant
                *self == *old(self),
                old(self).wf(),
                s == views_of(self.live@),
                m0 == self.live(),
                psel == decides_some::<K, V, T>(*t),
                i <= self.live@.len(),
                cand@.len() == i,
                count <= i,
                forall|j: int| 0 <= j < i ==> (#[trigger] views_of(cand@)[j]).0 == s[j].0,
                forall|j: int|
                    0 <= j < i ==> (#[trigger] views_of(cand@)[j]).1 == match t.decide(
                        s[j].0,
                        s[j].1,
                    ) {
                        Some(v2) => v2,
                        None => s[j].1,
                    },
                count == count_picked(s.take(i as int), psel),
            decreases self.live@.len() - i,
        {
            let row_k = self.live[i].0.key_clone();
            let new_val = match t.apply(&self.live[i].0, &self.live[i].1) {
                Some(nv) => {
                    count += 1;
                    nv
                },
                None => self.live[i].1.val_clone(),
            };
            let ghost cv0 = views_of(cand@);
            let ghost rkv = row_k@;
            let ghost nvv = new_val@;
            cand.push((row_k, new_val));
            proof {
                assert(views_of(cand@) =~= cv0.push((rkv, nvv)));
                assert(s.take(i + 1 as int).drop_last() =~= s.take(i as int));
                assert(s.take(i + 1 as int).last() == s[i as int]);
            }
            i += 1;
        }
        let ghost cv = views_of(cand@);
        proof {
            assert(s.take(s.len() as int) =~= s);
            lemma_count_picked_map(s, psel);
            assert(keys_unique(cv)) by {
                assert forall|a: int, b: int| 0 <= a < b < cv.len() implies (#[trigger] cv[a]).0
                    != (#[trigger] cv[b]).0 by {
                    assert(cv[a].0 == s[a].0);
                    assert(cv[b].0 == s[b].0);
                }
            }
            assert(map_of(cv) =~= tm) by {
                assert forall|k: K::V| map_of(cv).contains_key(k) <==> tm.contains_key(k) by {
                    lemma_map_of_contains(cv, k);
                    lemma_map_of_contains(s, k);
                    if seq_has_key(cv, k) {
                        let j = choose|j: int| 0 <= j < cv.len() && cv[j].0 == k;
                        assert(s[j].0 == k);
                    }
                    if seq_has_key(s, k) {
                        let j = choose|j: int| 0 <= j < s.len() && s[j].0 == k;
                        assert(cv[j].0 == k);
                    }
                }
                assert forall|k: K::V| map_of(cv).contains_key(k) implies map_of(cv)[k] == tm[k] by {
                    lemma_map_of_contains(cv, k);
                    let j = choose|j: int| 0 <= j < cv.len() && cv[j].0 == k;
                    lemma_map_of_index(cv, j);
                    lemma_map_of_index(s, j);
                }
            }
        }
        let mut a: usize = 0;
        while a < cand.len()
            invariant
                *self == *old(self),
                old(self).wf(),
                s == views_of(self.live@),
                m0 == self.live(),
                tm == transformed_map::<K, V, T>(m0, *t),
                cv == views_of(cand@),
                keys_unique(cv),
                map_of(cv) == tm,
                cand@.len() == self.live@.len(),
                a <= cand@.len(),
                forall|x: int, y: int|
                    0 <= x < a && 0 <= y < a && x != y ==> !self.pred.conflicts(
                        (#[trigger] cv[x]).1,
                        (#[trigger] cv[y]).1,
                    ),
            decreases cand@.len() - a,
        {
            let mut b: usize = 0;
            while b < a
                invariant
                    *self == *old(self),
                    old(self).wf(),
                    cv == views_of(cand@),
                    keys_unique(cv),
                    map_of(cv) == tm,
                    tm == transformed_map::<K, V, T>(m0, *t),
                    m0 == self.live(),
                    b <= a < cand@.len(),
                    forall|x: int, y: int|
                        0 <= x < a && 0 <= y < a && x != y ==> !self.pred.conflicts(
                            (#[trigger] cv[x]).1,
                            (#[trigger] cv[y]).1,
                        ),
                    forall|y: int|
                        0 <= y < b ==> !self.pred.conflicts(cv[a as int].1, (#[trigger] cv[y]).1)
                            && !self.pred.conflicts(cv[y].1, cv[a as int].1),
                decreases a - b,
            {
                if self.pred.check(&cand[a].1, &cand[b].1) || self.pred.check(
                    &cand[b].1,
                    &cand[a].1,
                ) {
                    proof {
                        lemma_map_of_index(cv, a as int);
                        lemma_map_of_index(cv, b as int);
                        assert(cv[a as int].0 != cv[b as int].0);
                        assert(!map_conflict_free(self.pred, tm));
                    }
                    return Err(Conflict);
                }
                b += 1;
            }
            a += 1;
        }
        proof {
            lemma_conflict_free_bridge(self.pred, cv);
        }
        self.live = cand;
        Ok(count)
    }

    /// Removes and returns every live row selected by the filter.
    pub fn delete<F: RowFilter<K, V>>(&mut self, f: &F) -> (r: Vec<(K, V)>)
        requires
            old(self).wf(),
        ensures
            final(self).wf(),
            final(self).base() == old(self).base(),
            final(self).predicate() == old(self).predicate(),
            final(self).live() == picked_map(old(self).live(), not_selected_by::<K, V, F>(*f)),
            keys_unique(views_of(r@)),
            map_of(views_of(r@)) == picked_map(old(self).live(), selected_by::<K, V, F>(*f)),
            r@.len() == picked_keys(old(self).live(), selected_by::<K, V, F>(*f)).len(),
    {
        let ghost s = views_of(self.live@);
        let ghost m0 = self.live();
        let ghost psel = selected_by::<K, V, F>(*f);
        let ghost pkeep = not_selected_by::<K, V, F>(*f);
        let mut kept: Vec<(K, V)> = Vec::new();
        let mut removed: Vec<(K, V)> = Vec::new();
        let mut i: usize = 0;
        while i < self.live.len()
            invariant
                *self == *old(self),
                old(self).wf(),
                s == views_of(self.live@),
                m0 == self.live(),
                psel == selected_by::<K, V, F>(*f),
                pkeep == not_selected_by::<K, V, F>(*f),
                i <= self.live@.len(),
                views_of(kept@) == rows_where(s.take(i as int), pkeep),
                views_of(removed@) == rows_where(s.take(i as int), psel),
            decreases self.live@.len() - i,
        {
            proof {
                assert(s.take(i + 1 as int).drop_last() =~= s.take(i as int));
                assert(s.take(i + 1 as int).last() == s[i as int]);
            }
            let pair = (self.live[i].0.key_clone(), self.live[i].1.val_clone());
            if f.test(&self.live[i].0, &self.live[i].1) {
                removed.push(pair);
                proof {
                    assert(views_of(removed@) =~= rows_where(s.take(i as int), psel).push(
                        s[i as int],
                    ));
                    assert(views_of(kept@) =~= rows_where(s.take(i + 1 as int), pkeep));
                }
            } else {
                kept.push(pair);
                proof {
                    assert(views_of(kept@) =~= rows_where(s.take(i as int), pkeep).push(
                        s[i as int],
                    ));
                    assert(views_of(removed@) =~= rows_where(s.take(i + 1 as int), psel));
                }
            }
            i += 1;
        }
        proof {
            assert(s.take(s.len() as int) =~= s);
            lemma_rows_where_props(s, pkeep);
            lemma_rows_where_props(s, psel);
            lemma_count_picked_map(s, psel);
            lemma_conflict_free_bridge(self.pred, s);
            let kv = rows_where(s, pkeep);
            assert(seq_conflict_free(self.pred, kv)) by {
                lemma_conflict_free_bridge(self.pred, kv);
                let km = picked_map(m0, pkeep);
                assert forall|k1: K::V, k2: K::V|
                    #![trigger km[k1], km[k2]]
                    km.contains_key(k1) && km.contains_key(k2) && k1 != k2 implies !self.pred.conflicts(
                    km[k1],
                    km[k2],
                ) by {
                    assert(m0.contains_key(k1) && m0.contains_key(k2));
                    assert(m0[k1] == km[k1] && m0[k2] == km[k2]);
                }
            }
        }
        self.live = kept;
        removed
    }

    /// A copy of every live row; keys are pairwise distinct.
    pub fn items(&self) -> (r: Vec<(K, V)>)
        requires
            self.wf(),
        ensures
            keys_unique(views_of(r@)),
            map_of(views_of(r@)) == self.live(),
            r@.len() == self.live().dom().len(),
    {
        let ghost s = views_of(self.live@);
        let mut out: Vec<(K, V)> = Vec::new();
        let mut i: usize = 0;
        while i < self.live.len()
            invariant
                self.wf(),
                s == views_of(self.live@),
                i <= self.live@.len(),
                out@.len() == i,
                forall|j: int| 0 <= j < i ==> views_of(out@)[j] == s[j],
            decreases self.live@.len() - i,
        {
            out.push((self.live[i].0.key_clone(), self.live[i].1.val_clone()));
            i += 1;
        }
        proof {
            assert(views_of(out@) =~= s);
            lemma_map_of_len(s);
        }
        out
    }

    /// Index of the baseline row with the given key, if any.
    fn find_base(&self, key: &K) -> (r: Option<usize>)
        ensures
            match r {
                Some(i) => i < self.baseline@.len() && views_of(self.baseline@)[i as int].0
                    == key@,
                None => !seq_has_key(views_of(self.baseline@), key@),
            },
    {
        let mut i: usize = 0;
        while i < self.baseline.len()
            invariant
                i <= self.baseline@.len(),
                forall|j: int| 0 <= j < i ==> (#[trigger] views_of(self.baseline@)[j]).0 != key@,
            decreases self.baseline@.len() - i,
        {
            if self.baseline[i].0.key_eq(key) {
                return Some(i);
            }
            i += 1;
        }
        None
    }

    /// The minimal signed delta of the live rows relative to the baseline:
    /// an insert later deleted leaves no entry, an update leaves a paired
    /// `-1` of the old row and `+1` of the new one.
    pub fn pending(&self) -> (r: Vec<(K, V, i64)>)
        requires
            self.wf(),
        ensures
            delta_ok(self.base(), self.live(), delta_views(r@)),
    {
        let ghost bs = views_of(self.baseline@);
        let ghost ls = views_of(self.live@);
        let ghost b = self.base();
        let ghost l = self.live();
        let mut out: Vec<(K, V, i64)> = Vec::new();
        let mut i: usize = 0;
        while i < self.baseline.len()
            invariant
                self.wf(),
                bs == views_of(self.baseline@),
                ls == views_of(self.live@),
                b == self.base(),
                l == self.live(),
                i <= self.baseline@.len(),
                delta_entries_ok(b, l, delta_views(out@)),
                delta_no_dups(delta_views(out@)),
                forall|e: int|
                    0 <= e < out@.len() ==> exists|x: int|
                        0 <= x < i && (#[trigger] delta_views(out@)[e]).0 == bs[x].0,
                forall|x: int|
                    0 <= x < i && changed_down(b, l, (#[trigger] bs[x]).0) ==> delta_has(
                        delta_views(out@),
                        bs[x].0,
                        -1,
                    ),
                forall|x: int|
                    0 <= x < i && changed_up(b, l, (#[trigger] bs[x]).0) ==> delta_has(
                        delta_views(out@),
                        bs[x].0,
                        1,
                    ),
            decreases self.baseline@.len() - i,
        {
            proof {
                lemma_map_of_index(bs, i as int);
            }
            let ghost k = bs[i as int].0;
            let ghost d0 = delta_views(out@);
            proof {
                assert forall|e: int| 0 <= e < d0.len() implies (#[trigger] d0[e]).0 != k by {
                    let x = choose|x: int| 0 <= x < i && d0[e].0 == bs[x].0;
                }
            }
            match self.find_live(&self.baseline[i].0) {
                None => {
                    proof {
                        lemma_map_of_contains(ls, k);
                    }
                    out.push(
                        (self.baseline[i].0.key_clone(), self.baseline[i].1.val_clone(), -1i64),
                    );
                    proof {
                        assert(delta_views(out@) =~= d0.push((k, bs[i as int].1, -1int)));
                        assert(changed_down(b, l, k));
                        assert(delta_has(delta_views(out@), k, -1)) by {
                            assert(delta_views(out@)[d0.len() as int].0 == k);
                        }
                        assert forall|x: int, sg: int|
                            #![trigger delta_has(d0, bs[x].0, sg)]
                            0 <= x < i && delta_has(d0, bs[x].0, sg) implies delta_has(
                            delta_views(out@),
                            bs[x].0,
                            sg,
                        ) by {
                            lemma_delta_has_extend(d0, delta_views(out@), bs[x].0, sg);
                        }
                    }
                },
                Some(j) => {
                    proof {
                        lemma_map_of_index(ls, j as int);
                    }
                    if !self.live[j].1.val_eq(&self.baseline[i].1) {
                        out.push(
                            (
                                self.baseline[i].0.key_clone(),
                                self.baseline[i].1.val_clone(),
                                -1i64,
                            ),
                        );
                        out.push(
                            (self.baseline[i].0.key_clone(), self.live[j].1.val_clone(), 1i64),
                        );
                        proof {
                            assert(delta_views(out@) =~= d0.push((k, bs[i as int].1, -1int)).push(
                                (k, ls[j as int].1, 1int),
                            ));
                            assert(changed_down(b, l, k));
                            assert(changed_up(b, l, k));
                            assert(delta_has(delta_views(out@), k, -1)) by {
                                assert(delta_views(out@)[d0.len() as int].0 == k);
                                assert(delta_views(out@)[d0.len() as int].2 == -1);
                            }
                            assert(delta_has(delta_views(out@), k, 1)) by {
                                assert(delta_views(out@)[d0.len() + 1 as int].0 == k);
                                assert(delta_views(out@)[d0.len() + 1 as int].2 == 1);
                            }
                            assert forall|x: int, sg: int|
                                #![trigger delta_has(d0, bs[x].0, sg)]
                                0 <= x < i && delta_has(d0, bs[x].0, sg) implies delta_has(
                                delta_views(out@),
                                bs[x].0,
                                sg,
                            ) by {
                                lemma_delta_has_extend(d0, delta_views(out@), bs[x].0, sg);
                            }
                        }
                    } else {
                        proof {
                            assert(!changed_down(b, l, k));
                            assert(!changed_up(b, l, k));
                        }
                    }
                },
            }
            i += 1;
        }
        proof {
            assert forall|k: K::V| #[trigger] changed_down(b, l, k) implies delta_has(
                delta_views(out@),
                k,
                -1,
            ) by {
                lemma_map_of_contains(bs, k);
                let x = choose|x: int| 0 <= x < bs.len() && bs[x].0 == k;
            }
            assert forall|k: K::V|
                #[trigger] changed_up(b, l, k) && b.contains_key(k) implies delta_has(
                delta_views(out@),
                k,
                1,
            ) by {
                lemma_map_of_contains(bs, k);
                let x = choose|x: int| 0 <= x < bs.len() && bs[x].0 == k;
            }
            assert forall|e: int| 0 <= e < out@.len() implies b.contains_key(
                (#[trigger] delta_views(out@)[e]).0,
            ) by {
                let x = choose|x: int|
                    0 <= x < bs.len() && delta_views(out@)[e].0 == bs[x].0;
                lemma_map_of_index(bs, x);
            }
        }
        let mut j: usize = 0;
        while j < self.live.len()
            invariant
                self.wf(),
                bs == views_of(self.baseline@),
                ls == views_of(self.live@),
                b == self.base(),
                l == self.live(),
                j <= self.live@.len(),
                delta_entries_ok(b, l, delta_views(out@)),
                delta_no_dups(delta_views(out@)),
                forall|k: K::V| #[trigger]
                    changed_down(b, l, k) ==> delta_has(delta_views(out@), k, -1),
                forall|k: K::V| #[trigger]
                    changed_up(b, l, k) && b.contains_key(k) ==> delta_has(
                        delta_views(out@),
                        k,
                        1,
                    ),
                forall|x: int|
                    0 <= x < j && !b.contains_key((#[trigger] ls[x]).0) ==> delta_has(
                        delta_views(out@),
                        ls[x].0,
                        1,
                    ),
                forall|e: int|
                    0 <= e < out@.len() ==> b.contains_key((#[trigger] delta_views(out@)[e]).0)
                        || exists|x: int|
                        0 <= x < j && delta_views(out@)[e].0 == ls[x].0,
            decreases self.live@.len() - j,
        {
            let ghost d0 = delta_views(out@);
            let ghost k = ls[j as int].0;
            match self.find_base(&self.live[j].0) {
                None => {
                    proof {
                        lemma_map_of_contains(bs, k);
                        lemma_map_of_index(ls, j as int);
                        assert forall|e: int| 0 <= e < d0.len() implies (#[trigger] d0[e]).0 != k
                            || d0[e].2 != 1 by {
                            if !b.contains_key(d0[e].0) {
                                let x = choose|x: int| 0 <= x < j && d0[e].0 == ls[x].0;
                            }
                        }
                    }
                    out.push((self.live[j].0.key_clone(), self.live[j].1.val_clone(), 1i64));
                    proof {
                        assert(delta_views(out@) =~= d0.push((k, ls[j as int].1, 1int)));
                        assert(changed_up(b, l, k));
                        assert(delta_has(delta_views(out@), k, 1)) by {
                            assert(delta_views(out@)[d0.len() as int].0 == k);
                        }
                        assert forall|k2: K::V, sg: int|
                            #![trigger delta_has(d0, k2, sg)]
                            delta_has(d0, k2, sg) implies delta_has(
                            delta_views(out@),
                            k2,
                            sg,
                        ) by {
                            lemma_delta_has_extend(d0, delta_views(out@), k2, sg);
                        }
                    }
                },
                Some(bi) => {
                    proof {
                        lemma_map_of_index(ls, j as int);
                        lemma_map_of_index(bs, bi as int);
                    }
                },
            }
            j += 1;
        }
        proof {
            assert forall|k: K::V| #[trigger] changed_up(b, l, k) implies delta_has(
                delta_views(out@),
                k,
                1,
            ) by {
                if !b.contains_key(k) {
                    lemma_map_of_contains(ls, k);
                    let x = choose|x: int| 0 <= x < ls.len() && ls[x].0 == k;
                }
            }
        }
        out
    }

    /// Builds a table from a snapshot of rows. Fails if the snapshot holds a
    /// duplicate key or two rows that collide under `pred`.
    pub fn new(snapshot: Vec<(K, V)>, pred: P) -> (r: Result<Self, Conflict>)
        ensures
            match r {
                Ok(t) => {
                    &&& t.wf()
                    &&& t.base() == map_of(views_of(snapshot@))
                    &&& t.live() == map_of(views_of(snapshot@))
                    &&& t.predicate() == pred
                    &&& keys_unique(views_of(snapshot@))
                    &&& seq_conflict_free(pred, views_of(snapshot@))
                },
                Err(_) => !(keys_unique(views_of(snapshot@)) && seq_conflict_free(
                    pred,
                    views_of(snapshot@),
                )),
            },
    {
        let ghost s = views_of(snapshot@);
        let mut i: usize = 0;
        while i < snapshot.len()
            invariant
                s == views_of(snapshot@),
                i <= snapshot@.len(),
                forall|a: int, b: int| 0 <= a < b < i ==> (#[trigger] s[a]).0 != (#[trigger] s[b]).0,
                forall|a: int, b: int|
                    0 <= a < i && 0 <= b < i && a != b ==> !pred.conflicts(
                        (#[trigger] s[a]).1,
                        (#[trigger] s[b]).1,
                    ),
            decreases snapshot@.len() - i,
        {
            let mut j: usize = 0;
            while j < i
                invariant
                    s == views_of(snapshot@),
                    j <= i < snapshot@.len(),
                    forall|b: int| 0 <= b < j ==> (#[trigger] s[b]).0 != s[i as int].0,
                    forall|b: int|
                        0 <= b < j ==> !pred.conflicts((#[trigger] s[b]).1, s[i as int].1)
                            && !pred.conflicts(s[i as int].1, s[b].1),
                decreases i - j,
            {
                if snapshot[j].0.key_eq(&snapshot[i].0) {
                    proof {
                        assert(s[j as int].0 == s[i as int].0);
                        assert(!keys_unique(s));
                    }
                    return Err(Conflict);
                }
                if pred.check(&snapshot[j].1, &snapshot[i].1) || pred.check(
                    &snapshot[i].1,
                    &snapshot[j].1,
                ) {
                    proof {
                        assert(pred.conflicts(s[j as int].1, s[i as int].1) || pred.conflicts(
                            s[i as int].1,
                            s[j as int].1,
                        ));
                        assert(!seq_conflict_free(pred, s));
                    }
                    return Err(Conflict);
                }
                j += 1;
            }
            i += 1;
        }
        let mut baseline: Vec<(K, V)> = Vec::new();
        let mut b: usize = 0;
        while b < snapshot.len()
            invariant
                s == views_of(snapshot@),
                b <= snapshot@.len(),
                baseline@.len() == b,
                forall|j: int| 0 <= j < b ==> views_of(baseline@)[j] == s[j],
            decreases snapshot@.len() - b,
        {
            baseline.push((snapshot[b].0.key_clone(), snapshot[b].1.val_clone()));
            b += 1;
        }
        proof {
            assert(views_of(baseline@) =~= s);
        }
        Ok(VersionedTable { baseline, live: snapshot, pred })
    }
}

} // verus!
