//! The cross-cutting guarantees of the transaction layer, stated and proved
//! once over the public models of the tables and batches.

use vstd::prelude::*;

use crate::ids::ClusterId;
use crate::objects::{
    ClusterIntrospectionSourceIndexKeyView, ClusterIntrospectionSourceIndexValue,
    ClusterNameConflict, ClusterReplicaKey, ClusterReplicaValueView, DatabaseNameConflict,
    ItemNameConflict, ReplicaNameConflict, RoleNameConflict, SchemaNameConflict,
};
use crate::table::{apply_delta, delta_ok, lemma_apply_delta, map_conflict_free};
use crate::transaction::Transaction;

verus! {

/// Uniqueness invariant: at every observation point, no two live rows of a
/// table with distinct keys collide under the table's uniqueness strategy —
/// no two databases, roles or clusters share a name, no two schemas share a
/// database and a name, no two items share a schema and a name, and no two
/// replicas of one cluster share a name.
pub proof fn lemma_live_rows_never_conflict(t: Transaction)
    requires
        t.wf(),
    ensures
        map_conflict_free(DatabaseNameConflict, t.databases().live()),
        map_conflict_free(SchemaNameConflict, t.schemas().live()),
        map_conflict_free(ItemNameConflict, t.items().live()),
        map_conflict_free(RoleNameConflict, t.roles().live()),
        map_conflict_free(ClusterNameConflict, t.clusters().live()),
        map_conflict_free(ReplicaNameConflict, t.cluster_replicas().live()),
{
    t.databases().lemma_live_conflict_free();
    t.schemas().lemma_live_conflict_free();
    t.items().lemma_live_conflict_free();
    t.roles().lemma_live_conflict_free();
    t.clusters().lemma_live_conflict_free();
    t.cluster_replicas().lemma_live_conflict_free();
}

/// Commit round trip: a durable store that atomically applies one table's
/// batch entries over that table's baseline holds exactly the rows the
/// transaction saw as live, so a fresh snapshot reads every buffered write
/// back — in particular `get` of an inserted key returns the inserted value.
pub proof fn lemma_committed_batch_reads_back<KV, VV>(
    base: Map<KV, VV>,
    live: Map<KV, VV>,
    entries: Seq<(KV, VV, int)>,
)
    requires
        delta_ok(base, live, entries),
    ensures
        apply_delta(base, entries) == live,
{
    lemma_apply_delta(base, live, entries);
}

/// A table's batch entries are empty exactly when its live rows equal its
/// baseline: `TransactionBatch::is_empty` holds exactly for transactions
/// whose commit would change nothing.
pub proof fn lemma_empty_batch_means_no_change<KV, VV>(
    base: Map<KV, VV>,
    live: Map<KV, VV>,
    entries: Seq<(KV, VV, int)>,
)
    requires
        delta_ok(base, live, entries),
    ensures
        entries.len() == 0 <==> base == live,
{
    crate::table::lemma_delta_empty(base, live, entries);
}

/// Minimality of the pending delta: a key that is neither in the baseline
/// nor live — for instance one inserted and then deleted inside the same
/// transaction — leaves no entry at all in the batch.
pub proof fn lemma_insert_then_delete_leaves_no_entry<KV, VV>(
    base: Map<KV, VV>,
    live: Map<KV, VV>,
    entries: Seq<(KV, VV, int)>,
    k: KV,
)
    requires
        delta_ok(base, live, entries),
        !base.contains_key(k),
        !live.contains_key(k),
    ensures
        forall|i: int| 0 <= i < entries.len() ==> (#[trigger] entries[i]).0 != k,
{
    assert forall|i: int| 0 <= i < entries.len() implies (#[trigger] entries[i]).0 != k by {
        if entries[i].0 == k {
            if entries[i].2 == -1 {
                assert(crate::table::changed_down(base, live, k));
            } else {
                assert(entries[i].2 == 1);
                assert(crate::table::changed_up(base, live, k));
            }
        }
    }
}

/// Disjointness of id allocations: `get_and_increment_id_by` returns the
/// contiguous range starting at the counter's value and advances the counter
/// past it, and no operation of the transaction ever moves a counter
/// backwards; so a later allocation starts at or after an earlier one's end
/// and the two ranges never share a value.
pub proof fn lemma_allocated_ranges_disjoint(
    c1: u64,
    n1: u64,
    r1: Seq<u64>,
    c2: u64,
    n2: u64,
    r2: Seq<u64>,
)
    requires
        r1.len() == n1,
        forall|i: int| 0 <= i < n1 ==> r1[i] == c1 + i,
        r2.len() == n2,
        forall|i: int| 0 <= i < n2 ==> r2[i] == c2 + i,
        c2 >= c1 + n1,
    ensures
        forall|i: int, j: int|
            0 <= i < n1 && 0 <= j < n2 ==> (#[trigger] r1[i]) != (#[trigger] r2[j]),
{
}

/// Cascade exactness: the replica and introspection source rows left behind
/// by `remove_cluster` never reference the removed cluster id, and every
/// row of another cluster is still there, unchanged.
pub proof fn lemma_cascade_leaves_no_orphans(
    replicas_before: Map<ClusterReplicaKey, ClusterReplicaValueView>,
    intros_before: Map<
        ClusterIntrospectionSourceIndexKeyView,
        ClusterIntrospectionSourceIndexValue,
    >,
    id: ClusterId,
)
    ensures
        ({
            let replicas_after = crate::table::picked_map(
                replicas_before,
                crate::table::not_selected_by::<
                    crate::objects::ClusterReplicaKey,
                    crate::objects::ClusterReplicaValue,
                    crate::transaction::ReplicaOfCluster,
                >(crate::transaction::ReplicaOfCluster { id }),
            );
            &&& forall|k: ClusterReplicaKey| #[trigger]
                replicas_after.contains_key(k) ==> replicas_after[k].cluster_id != id
            &&& forall|k: ClusterReplicaKey| #[trigger]
                replicas_before.contains_key(k) && replicas_before[k].cluster_id != id
                    ==> replicas_after.contains_key(k) && replicas_after[k] == replicas_before[k]
        }),
        ({
            let intros_after = crate::table::picked_map(
                intros_before,
                crate::table::not_selected_by::<
                    crate::objects::ClusterIntrospectionSourceIndexKey,
                    crate::objects::ClusterIntrospectionSourceIndexValue,
                    crate::transaction::IntroOfCluster,
                >(crate::transaction::IntroOfCluster { id }),
            );
            &&& forall|k: ClusterIntrospectionSourceIndexKeyView| #[trigger]
                intros_after.contains_key(k) ==> k.cluster_id != id
            &&& forall|k: ClusterIntrospectionSourceIndexKeyView| #[trigger]
                intros_before.contains_key(k) && k.cluster_id != id ==> intros_after.contains_key(
                    k,
                ) && intros_after[k] == intros_before[k]
        }),
{
}

} // verus!
