//! The multi-table catalog transaction: one in-memory ledger per entity,
//! typed operations with a closed error taxonomy, cross-table cascades, and
//! the flattened diff batch handed to the durable store on commit.

use vstd::prelude::*;

use crate::error::CatalogError;
use crate::ids::{
    AclItem, AclMode, ClusterId, CommentObjectId, DatabaseId, GlobalId, ObjectType, ReplicaId,
    RoleId, SchemaId,
};
use crate::objects::{
    BuiltinLog, Cluster, ClusterConfig, ClusterIntrospectionSourceIndexKey,
    ClusterIntrospectionSourceIndexKeyView, ClusterIntrospectionSourceIndexValue, ClusterKey,
    ClusterNameConflict, ClusterReplica, ClusterReplicaKey, ClusterReplicaValue,
    ClusterReplicaValueView, ClusterValue, ClusterValueView, Comment, CommentKey, CommentValue,
    Config, ConfigKey, ConfigValue, Database, DatabaseKey, DatabaseNameConflict, DatabaseValue,
    DatabaseValueView, DefaultPrivilege, DefaultPrivilegesKey, DefaultPrivilegesValue,
    GidMappingKey, GidMappingKeyView, GidMappingValue, GidMappingValueView, IdAllocKey,
    IdAllocValue, IntrospectionSourceIndex, Item, ItemKey, ItemNameConflict, ItemValue,
    ItemValueView, NoConflict, ReplicaConfig, ReplicaNameConflict, Role, RoleAttributes, RoleKey,
    RoleMembership, RoleNameConflict, RoleValue, RoleValueView, RoleVars, Schema, SchemaKey,
    SchemaNameConflict, SchemaValue, SchemaValueView, ServerConfigurationKey,
    ServerConfigurationValue, SettingKey, SettingValue, SystemConfiguration, SystemObjectMapping,
    SystemPrivilegesKey, SystemPrivilegesValue, TimelineTimestamp, TimestampKey, TimestampValue,
    string_eq,
};
use crate::table::{
    ConflictPred, RowFilter, RowTransform, VersionedTable, delta_ok, delta_views, keys_unique,
    map_of, picked_keys, picked_map, seq_conflict_free, transformed_map, decides_some,
    selected_by, not_selected_by, views_of, seq_has_key, map_conflict_free,
};

verus! {

/// One audit event buffered for the append-only audit log.
#[derive(Debug)]
pub struct VersionedEvent {
    pub id: u64,
    pub details: String,
}

/// View of an audit event.
pub ghost struct VersionedEventView {
    pub id: u64,
    pub details: Seq<char>,
}

impl View for VersionedEvent {
    type V = VersionedEventView;

    open spec fn view(&self) -> VersionedEventView {
        VersionedEventView { id: self.id, details: self.details@ }
    }
}

/// One storage usage measurement buffered for the append-only usage log.
#[derive(Debug)]
pub struct VersionedStorageUsage {
    pub id: u64,
    pub shard_id: Option<String>,
    pub size_bytes: u64,
    pub collection_timestamp: u64,
}

/// View of a storage usage measurement.
pub ghost struct VersionedStorageUsageView {
    pub id: u64,
    pub shard_id: Option<Seq<char>>,
    pub size_bytes: u64,
    pub collection_timestamp: u64,
}

impl View for VersionedStorageUsage {
    type V = VersionedStorageUsageView;

    open spec fn view(&self) -> VersionedStorageUsageView {
        VersionedStorageUsageView {
            id: self.id,
            shard_id: match self.shard_id {
                Some(s) => Some(s@),
                None => None,
            },
            size_bytes: self.size_bytes,
            collection_timestamp: self.collection_timestamp,
        }
    }
}

/// Key of an audit log entry.
#[derive(Debug)]
pub struct AuditLogKey {
    pub event: VersionedEvent,
}

/// Key of a storage usage log entry.
#[derive(Debug)]
pub struct StorageUsageKey {
    pub metric: VersionedStorageUsage,
}

/// The signed views of buffered audit log entries.
pub open spec fn audit_views(s: Seq<(AuditLogKey, i64)>) -> Seq<(VersionedEventView, int)> {
    s.map_values(|p: (AuditLogKey, i64)| (p.0.event@, p.1 as int))
}

/// The signed views of buffered storage usage entries.
pub open spec fn usage_views(s: Seq<(StorageUsageKey, i64)>) -> Seq<(
    VersionedStorageUsageView,
    int,
)> {
    s.map_values(|p: (StorageUsageKey, i64)| (p.0.metric@, p.1 as int))
}

/// A full, consistent point-in-time read of every table, as handed over by
/// the durable store.
pub struct Snapshot {
    pub databases: Vec<(DatabaseKey, DatabaseValue)>,
    pub schemas: Vec<(SchemaKey, SchemaValue)>,
    pub items: Vec<(ItemKey, ItemValue)>,
    pub comments: Vec<(CommentKey, CommentValue)>,
    pub roles: Vec<(RoleKey, RoleValue)>,
    pub clusters: Vec<(ClusterKey, ClusterValue)>,
    pub cluster_replicas: Vec<(ClusterReplicaKey, ClusterReplicaValue)>,
    pub introspection_sources: Vec<(ClusterIntrospectionSourceIndexKey, ClusterIntrospectionSourceIndexValue)>,
    pub id_allocator: Vec<(IdAllocKey, IdAllocValue)>,
    pub configs: Vec<(ConfigKey, ConfigValue)>,
    pub settings: Vec<(SettingKey, SettingValue)>,
    pub timestamps: Vec<(TimestampKey, TimestampValue)>,
    pub system_object_mappings: Vec<(GidMappingKey, GidMappingValue)>,
    pub system_configurations: Vec<(ServerConfigurationKey, ServerConfigurationValue)>,
    pub default_privileges: Vec<(DefaultPrivilegesKey, DefaultPrivilegesValue)>,
    pub system_privileges: Vec<(SystemPrivilegesKey, SystemPrivilegesValue)>,
}

/// Whether every table of a snapshot satisfies its own invariants: distinct
/// keys and no two rows in conflict.
pub open spec fn snapshot_ok(s: Snapshot) -> bool {
    &&& keys_unique(views_of(s.databases@))
    &&& seq_conflict_free::<_, DatabaseValue, DatabaseNameConflict>(DatabaseNameConflict, views_of(s.databases@))
    &&& keys_unique(views_of(s.schemas@))
    &&& seq_conflict_free::<_, SchemaValue, SchemaNameConflict>(SchemaNameConflict, views_of(s.schemas@))
    &&& keys_unique(views_of(s.items@))
    &&& seq_conflict_free::<_, ItemValue, ItemNameConflict>(ItemNameConflict, views_of(s.items@))
    &&& keys_unique(views_of(s.comments@))
    &&& seq_conflict_free::<_, CommentValue, NoConflict>(NoConflict, views_of(s.comments@))
    &&& keys_unique(views_of(s.roles@))
    &&& seq_conflict_free::<_, RoleValue, RoleNameConflict>(RoleNameConflict, views_of(s.roles@))
    &&& keys_unique(views_of(s.clusters@))
    &&& seq_conflict_free::<_, ClusterValue, ClusterNameConflict>(ClusterNameConflict, views_of(s.clusters@))
    &&& keys_unique(views_of(s.cluster_replicas@))
    &&& seq_conflict_free::<_, ClusterReplicaValue, ReplicaNameConflict>(ReplicaNameConflict, views_of(s.cluster_replicas@))
    &&& keys_unique(views_of(s.introspection_sources@))
    &&& seq_conflict_free::<_, ClusterIntrospectionSourceIndexValue, NoConflict>(NoConflict, views_of(s.introspection_sources@))
    &&& keys_unique(views_of(s.id_allocator@))
    &&& seq_conflict_free::<_, IdAllocValue, NoConflict>(NoConflict, views_of(s.id_allocator@))
    &&& keys_unique(views_of(s.configs@))
    &&& seq_conflict_free::<_, ConfigValue, NoConflict>(NoConflict, views_of(s.configs@))
    &&& keys_unique(views_of(s.settings@))
    &&& seq_conflict_free::<_, SettingValue, NoConflict>(NoConflict, views_of(s.settings@))
    &&& keys_unique(views_of(s.timestamps@))
    &&& seq_conflict_free::<_, TimestampValue, NoConflict>(NoConflict, views_of(s.timestamps@))
    &&& keys_unique(views_of(s.system_object_mappings@))
    &&& seq_conflict_free::<_, GidMappingValue, NoConflict>(NoConflict, views_of(s.system_object_mappings@))
    &&& keys_unique(views_of(s.system_configurations@))
    &&& seq_conflict_free::<_, ServerConfigurationValue, NoConflict>(NoConflict, views_of(s.system_configurations@))
    &&& keys_unique(views_of(s.default_privileges@))
    &&& seq_conflict_free::<_, DefaultPrivilegesValue, NoConflict>(NoConflict, views_of(s.default_privileges@))
    &&& keys_unique(views_of(s.system_privileges@))
    &&& seq_conflict_free::<_, SystemPrivilegesValue, NoConflict>(NoConflict, views_of(s.system_privileges@))
}

/// Name of the id counter for user database ids.
pub open spec fn spec_database_id_alloc_key() -> Seq<char> {
    "database"@
}

/// Exec form of [`spec_database_id_alloc_key`].
pub fn database_id_alloc_key() -> (r: &'static str)
    ensures
        r@ == spec_database_id_alloc_key(),
{
    "database"
}

/// Name of the id counter for user schema ids.
pub open spec fn spec_schema_id_alloc_key() -> Seq<char> {
    "schema"@
}

/// Exec form of [`spec_schema_id_alloc_key`].
pub fn schema_id_alloc_key() -> (r: &'static str)
    ensures
        r@ == spec_schema_id_alloc_key(),
{
    "schema"
}

/// Name of the id counter for system item ids.
pub open spec fn spec_system_item_alloc_key() -> Seq<char> {
    "system"@
}

/// Exec form of [`spec_system_item_alloc_key`].
pub fn system_item_alloc_key() -> (r: &'static str)
    ensures
        r@ == spec_system_item_alloc_key(),
{
    "system"
}

/// Name of the id counter for user item ids.
pub open spec fn spec_user_item_alloc_key() -> Seq<char> {
    "user"@
}

/// Exec form of [`spec_user_item_alloc_key`].
pub fn user_item_alloc_key() -> (r: &'static str)
    ensures
        r@ == spec_user_item_alloc_key(),
{
    "user"
}

/// Name of the id counter for user role ids.
pub open spec fn spec_user_role_id_alloc_key() -> Seq<char> {
    "user_role"@
}

/// Exec form of [`spec_user_role_id_alloc_key`].
pub fn user_role_id_alloc_key() -> (r: &'static str)
    ensures
        r@ == spec_user_role_id_alloc_key(),
{
    "user_role"
}

/// Name of the setting that records the catalog content version.
pub open spec fn spec_catalog_content_version_key() -> Seq<char> {
    "catalog_content_version"@
}

/// Exec form of [`spec_catalog_content_version_key`].
pub fn catalog_content_version_key() -> (r: &'static str)
    ensures
        r@ == spec_catalog_content_version_key(),
{
    "catalog_content_version"
}

/// Name of the config that mirrors the persist-txn-tables system variable.
pub open spec fn spec_persist_txn_tables_key() -> Seq<char> {
    "persist_txn_tables"@
}

/// Exec form of [`spec_persist_txn_tables_key`].
pub fn persist_txn_tables_key() -> (r: &'static str)
    ensures
        r@ == spec_persist_txn_tables_key(),
{
    "persist_txn_tables"
}

/// Name of the config that records that system configuration was synced.
pub open spec fn spec_system_config_synced_key() -> Seq<char> {
    "system_config_synced"@
}

/// Exec form of [`spec_system_config_synced_key`].
pub fn system_config_synced_key() -> (r: &'static str)
    ensures
        r@ == spec_system_config_synced_key(),
{
    "system_config_synced"
}

/// The introspection source rows a cluster creation adds: one per builtin
/// log, keyed by cluster id and log name.
pub open spec fn intro_rows(cluster_id: ClusterId, s: Seq<(BuiltinLog, GlobalId)>) -> Map<
    ClusterIntrospectionSourceIndexKeyView,
    ClusterIntrospectionSourceIndexValue,
>
    decreases s.len(),
{
    if s.len() == 0 {
        Map::empty()
    } else {
        intro_rows(cluster_id, s.drop_last()).insert(
            ClusterIntrospectionSourceIndexKeyView { cluster_id, name: s.last().0.name@ },
            ClusterIntrospectionSourceIndexValue { index_id: s.last().1->System_0 },
        )
    }
}

pub proof fn lemma_intro_rows_contains(
    cluster_id: ClusterId,
    s: Seq<(BuiltinLog, GlobalId)>,
    k: ClusterIntrospectionSourceIndexKeyView,
)
    ensures
        intro_rows(cluster_id, s).contains_key(k) <==> (k.cluster_id == cluster_id && exists|i: int|
            0 <= i < s.len() && (#[trigger] s[i]).0.name@ == k.name),
    decreases s.len(),
{
    if s.len() == 0 {
    } else {
        lemma_intro_rows_contains(cluster_id, s.drop_last(), k);
        if exists|i: int| 0 <= i < s.drop_last().len() && (#[trigger] s.drop_last()[i]).0.name@
            == k.name {
            let i = choose|i: int|
                0 <= i < s.drop_last().len() && (#[trigger] s.drop_last()[i]).0.name@ == k.name;
            assert(s[i].0.name@ == k.name);
        }
        if k.cluster_id == cluster_id && s.last().0.name@ == k.name {
            assert(s[s.len() - 1].0.name@ == k.name);
        }
        if !intro_rows(cluster_id, s).contains_key(k) {
            if exists|i: int| 0 <= i < s.len() && (#[trigger] s[i]).0.name@ == k.name {
                let i = choose|i: int| 0 <= i < s.len() && (#[trigger] s[i]).0.name@ == k.name;
                if i < s.len() - 1 {
                    assert(s.drop_last()[i].0.name@ == k.name);
                }
            }
        }
    }
}

/// How table data is durably maintained: mirrored from the system variable
/// of the same name.
#[derive(Clone, Copy, PartialEq, Eq, Structural, Debug)]
pub enum PersistTxnTablesImpl {
    Off,
    Eager,
    Lazy,
}

impl PersistTxnTablesImpl {
    /// The numeric config encoding of the variant.
    pub open spec fn spec_u64(self) -> u64 {
        match self {
            PersistTxnTablesImpl::Off => 0,
            PersistTxnTablesImpl::Eager => 1,
            PersistTxnTablesImpl::Lazy => 2,
        }
    }

    /// Computes [`Self::spec_u64`].
    pub fn to_u64(self) -> (r: u64)
        ensures
            r == self.spec_u64(),
    {
        match self {
            PersistTxnTablesImpl::Off => 0,
            PersistTxnTablesImpl::Eager => 1,
            PersistTxnTablesImpl::Lazy => 2,
        }
    }
}

/// Rewrites the name of the cluster with a given id.
pub struct ClusterRename {
    pub id: ClusterId,
    pub to_name: String,
}

impl RowTransform<ClusterKey, ClusterValue> for ClusterRename {
    open spec fn decide(self, k: ClusterKey, v: ClusterValueView) -> Option<ClusterValueView> {
        if k.id == self.id {
            Some(
                ClusterValueView {
                    name: self.to_name@,
                    linked_object_id: v.linked_object_id,
                    owner_id: v.owner_id,
                    privileges: v.privileges,
                    config: v.config,
                },
            )
        } else {
            None
        }
    }

    fn apply(&self, k: &ClusterKey, v: &ClusterValue) -> (r: Option<ClusterValue>) {
        if k.id == self.id {
            let mut nv = crate::table::TableValue::val_clone(v);
            nv.name = self.to_name.clone();
            Some(nv)
        } else {
            None
        }
    }
}

/// Rewrites the name of the cluster replica with a given id.
pub struct ReplicaRename {
    pub id: ReplicaId,
    pub to_name: String,
}

impl RowTransform<ClusterReplicaKey, ClusterReplicaValue> for ReplicaRename {
    open spec fn decide(self, k: ClusterReplicaKey, v: ClusterReplicaValueView) -> Option<
        ClusterReplicaValueView,
    > {
        if k.id == self.id {
            Some(
                ClusterReplicaValueView {
                    cluster_id: v.cluster_id,
                    name: self.to_name@,
                    config: v.config,
                    owner_id: v.owner_id,
                },
            )
        } else {
            None
        }
    }

    fn apply(&self, k: &ClusterReplicaKey, v: &ClusterReplicaValue) -> (r: Option<
        ClusterReplicaValue,
    >) {
        if k.id == self.id {
            let mut nv = crate::table::TableValue::val_clone(v);
            nv.name = self.to_name.clone();
            Some(nv)
        } else {
            None
        }
    }
}

/// Replaces the payload of the database row with a given id.
pub struct DatabaseSet {
    pub id: DatabaseId,
    pub value: DatabaseValue,
}

impl RowTransform<DatabaseKey, DatabaseValue> for DatabaseSet {
    open spec fn decide(self, k: DatabaseKey, v: DatabaseValueView) -> Option<DatabaseValueView> {
        if k.id == self.id {
            Some(self.value@)
        } else {
            None
        }
    }

    fn apply(&self, k: &DatabaseKey, v: &DatabaseValue) -> (r: Option<DatabaseValue>) {
        if k.id == self.id {
            Some(crate::table::TableValue::val_clone(&self.value))
        } else {
            None
        }
    }
}

/// Replaces the payload of the schema row with a given id.
pub struct SchemaSet {
    pub id: SchemaId,
    pub value: SchemaValue,
}

impl RowTransform<SchemaKey, SchemaValue> for SchemaSet {
    open spec fn decide(self, k: SchemaKey, v: SchemaValueView) -> Option<SchemaValueView> {
        if k.id == self.id {
            Some(self.value@)
        } else {
            None
        }
    }

    fn apply(&self, k: &SchemaKey, v: &SchemaValue) -> (r: Option<SchemaValue>) {
        if k.id == self.id {
            Some(crate::table::TableValue::val_clone(&self.value))
        } else {
            None
        }
    }
}

/// Replaces the payload of the item row with a given id.
pub struct ItemSet {
    pub id: GlobalId,
    pub value: ItemValue,
}

impl RowTransform<ItemKey, ItemValue> for ItemSet {
    open spec fn decide(self, k: ItemKey, v: ItemValueView) -> Option<ItemValueView> {
        if k.gid == self.id {
            Some(self.value@)
        } else {
            None
        }
    }

    fn apply(&self, k: &ItemKey, v: &ItemValue) -> (r: Option<ItemValue>) {
        if k.gid.eq_id(&self.id) {
            Some(crate::table::TableValue::val_clone(&self.value))
        } else {
            None
        }
    }
}

/// Replaces the payload of the role row with a given id.
pub struct RoleSet {
    pub id: RoleId,
    pub value: RoleValue,
}

impl RowTransform<RoleKey, RoleValue> for RoleSet {
    open spec fn decide(self, k: RoleKey, v: RoleValueView) -> Option<RoleValueView> {
        if k.id == self.id {
            Some(self.value@)
        } else {
            None
        }
    }

    fn apply(&self, k: &RoleKey, v: &RoleValue) -> (r: Option<RoleValue>) {
        if k.id == self.id {
            Some(crate::table::TableValue::val_clone(&self.value))
        } else {
            None
        }
    }
}

/// Replaces the payload of the cluster row with a given id.
pub struct ClusterSet {
    pub id: ClusterId,
    pub value: ClusterValue,
}

impl RowTransform<ClusterKey, ClusterValue> for ClusterSet {
    open spec fn decide(self, k: ClusterKey, v: ClusterValueView) -> Option<ClusterValueView> {
        if k.id == self.id {
            Some(self.value@)
        } else {
            None
        }
    }

    fn apply(&self, k: &ClusterKey, v: &ClusterValue) -> (r: Option<ClusterValue>) {
        if k.id == self.id {
            Some(crate::table::TableValue::val_clone(&self.value))
        } else {
            None
        }
    }
}

/// Replaces the payload of the cluster replica row with a given id.
pub struct ReplicaSet {
    pub id: ReplicaId,
    pub value: ClusterReplicaValue,
}

impl RowTransform<ClusterReplicaKey, ClusterReplicaValue> for ReplicaSet {
    open spec fn decide(self, k: ClusterReplicaKey, v: ClusterReplicaValueView) -> Option<
        ClusterReplicaValueView,
    > {
        if k.id == self.id {
            Some(self.value@)
        } else {
            None
        }
    }

    fn apply(&self, k: &ClusterReplicaKey, v: &ClusterReplicaValue) -> (r: Option<
        ClusterReplicaValue,
    >) {
        if k.id == self.id {
            Some(crate::table::TableValue::val_clone(&self.value))
        } else {
            None
        }
    }
}

/// The new payload view that an item update batch assigns to item id `g`:
/// the first matching entry wins.
pub open spec fn item_lookup(items: Seq<(GlobalId, Item)>, g: GlobalId) -> Option<ItemValueView>
    decreases items.len(),
{
    if items.len() == 0 {
        None
    } else if items[0].0 == g {
        Some(
            ItemValueView {
                schema_id: items[0].1.schema_id,
                name: items[0].1.name@,
                create_sql: items[0].1.create_sql@,
                owner_id: items[0].1.owner_id,
                privileges: items[0].1.privileges@,
            },
        )
    } else {
        item_lookup(items.drop_first(), g)
    }
}

pub proof fn lemma_item_lookup_some(items: Seq<(GlobalId, Item)>, g: GlobalId)
    ensures
        item_lookup(items, g) is Some <==> exists|i: int|
            0 <= i < items.len() && (#[trigger] items[i]).0 == g,
    decreases items.len(),
{
    if items.len() == 0 {
    } else {
        lemma_item_lookup_some(items.drop_first(), g);
        if items[0].0 == g {
        } else {
            if exists|i: int| 0 <= i < items.drop_first().len() && (
            #[trigger] items.drop_first()[i]).0 == g {
                let i = choose|i: int|
                    0 <= i < items.drop_first().len() && (#[trigger] items.drop_first()[i]).0
                        == g;
                assert(items[i + 1].0 == g);
            }
            if exists|i: int| 0 <= i < items.len() && (#[trigger] items[i]).0 == g {
                let i = choose|i: int| 0 <= i < items.len() && (#[trigger] items[i]).0 == g;
                assert(items.drop_first()[i - 1].0 == g);
            }
        }
    }
}

/// Rewrites every item row named in a batch of whole items.
pub struct ItemsSet {
    pub items: Vec<(GlobalId, Item)>,
}

impl RowTransform<ItemKey, ItemValue> for ItemsSet {
    open spec fn decide(self, k: ItemKey, v: ItemValueView) -> Option<ItemValueView> {
        item_lookup(self.items@, k.gid)
    }

    fn apply(&self, k: &ItemKey, v: &ItemValue) -> (r: Option<ItemValue>) {
        proof {
            assert(self.items@.subrange(0, self.items@.len() as int) =~= self.items@);
        }
        let mut i: usize = 0;
        while i < self.items.len()
            invariant
                i <= self.items@.len(),
                item_lookup(self.items@, k.gid) == item_lookup(
                    self.items@.subrange(i as int, self.items@.len() as int),
                    k.gid,
                ),
            decreases self.items@.len() - i,
        {
            proof {
                let rest = self.items@.subrange(i as int, self.items@.len() as int);
                assert(rest[0] == self.items@[i as int]);
                assert(rest.drop_first() =~= self.items@.subrange(
                    i + 1 as int,
                    self.items@.len() as int,
                ));
            }
            if self.items[i].0.eq_id(&k.gid) {
                let it = &self.items[i].1;
                return Some(
                    ItemValue {
                        schema_id: it.schema_id,
                        name: it.name.clone(),
                        create_sql: it.create_sql.clone(),
                        owner_id: it.owner_id,
                        privileges: crate::objects::acl_vec_clone(&it.privileges),
                    },
                );
            }
            i += 1;
        }
        proof {
            assert(self.items@.subrange(
                self.items@.len() as int,
                self.items@.len() as int,
            ).len() == 0);
        }
        None
    }
}

/// The new payload view that a system object mapping batch assigns to the
/// row mapped to system id `g`: the first matching entry wins.
pub open spec fn gid_lookup(mappings: Seq<(GlobalId, SystemObjectMapping)>, g: GlobalId) -> Option<
    GidMappingValueView,
>
    decreases mappings.len(),
{
    if mappings.len() == 0 {
        None
    } else if mappings[0].0 == g {
        if mappings[0].1.unique_identifier.id is System {
            Some(
                GidMappingValueView {
                    id: mappings[0].1.unique_identifier.id->System_0,
                    fingerprint: mappings[0].1.unique_identifier.fingerprint@,
                },
            )
        } else {
            None
        }
    } else {
        gid_lookup(mappings.drop_first(), g)
    }
}

pub proof fn lemma_gid_lookup_some(mappings: Seq<(GlobalId, SystemObjectMapping)>, g: GlobalId)
    requires
        forall|i: int|
            0 <= i < mappings.len() ==> (#[trigger] mappings[i]).1.unique_identifier.id is System,
    ensures
        gid_lookup(mappings, g) is Some <==> exists|i: int|
            0 <= i < mappings.len() && (#[trigger] mappings[i]).0 == g,
    decreases mappings.len(),
{
    if mappings.len() == 0 {
    } else {
        assert forall|i: int| 0 <= i < mappings.drop_first().len() implies (
        #[trigger] mappings.drop_first()[i]).1.unique_identifier.id is System by {
            assert(mappings.drop_first()[i] == mappings[i + 1]);
        }
        lemma_gid_lookup_some(mappings.drop_first(), g);
        if mappings[0].0 == g {
        } else {
            if exists|i: int| 0 <= i < mappings.drop_first().len() && (
            #[trigger] mappings.drop_first()[i]).0 == g {
                let i = choose|i: int|
                    0 <= i < mappings.drop_first().len() && (#[trigger] mappings.drop_first()[i]).0
                        == g;
                assert(mappings[i + 1].0 == g);
            }
            if exists|i: int| 0 <= i < mappings.len() && (#[trigger] mappings[i]).0 == g {
                let i = choose|i: int| 0 <= i < mappings.len() && (#[trigger] mappings[i]).0 == g;
                assert(mappings.drop_first()[i - 1].0 == g);
            }
        }
    }
}

/// Rewrites every system object mapping row whose current system id is
/// named in the batch.
pub struct GidRemapSet {
    pub mappings: Vec<(GlobalId, SystemObjectMapping)>,
}

impl RowTransform<GidMappingKey, GidMappingValue> for GidRemapSet {
    open spec fn decide(self, k: GidMappingKeyView, v: GidMappingValueView) -> Option<
        GidMappingValueView,
    > {
        gid_lookup(self.mappings@, GlobalId::System(v.id))
    }

    fn apply(&self, k: &GidMappingKey, v: &GidMappingValue) -> (r: Option<GidMappingValue>) {
        let g = GlobalId::System(v.id);
        proof {
            assert(self.mappings@.subrange(0, self.mappings@.len() as int) =~= self.mappings@);
        }
        let mut i: usize = 0;
        while i < self.mappings.len()
            invariant
                i <= self.mappings@.len(),
                g == GlobalId::System(v.id),
                gid_lookup(self.mappings@, g) == gid_lookup(
                    self.mappings@.subrange(i as int, self.mappings@.len() as int),
                    g,
                ),
            decreases self.mappings@.len() - i,
        {
            proof {
                let rest = self.mappings@.subrange(i as int, self.mappings@.len() as int);
                assert(rest[0] == self.mappings@[i as int]);
                assert(rest.drop_first() =~= self.mappings@.subrange(
                    i + 1 as int,
                    self.mappings@.len() as int,
                ));
            }
            if self.mappings[i].0.eq_id(&g) {
                let m = &self.mappings[i].1;
                match m.unique_identifier.id {
                    GlobalId::System(n) => {
                        return Some(
                            GidMappingValue {
                                id: n,
                                fingerprint: m.unique_identifier.fingerprint.clone(),
                            },
                        );
                    },
                    GlobalId::User(_) => {
                        return None;
                    },
                }
            }
            i += 1;
        }
        proof {
            assert(self.mappings@.subrange(
                self.mappings@.len() as int,
                self.mappings@.len() as int,
            ).len() == 0);
        }
        None
    }
}

/// The key an introspection source update entry addresses.
pub open spec fn intro_upd_key(e: (ClusterId, String, GlobalId)) -> ClusterIntrospectionSourceIndexKeyView {
    ClusterIntrospectionSourceIndexKeyView { cluster_id: e.0, name: e.1@ }
}

/// The introspection source table after the updates of `s` are applied in
/// order, each an upsert of its entry's index id under its entry's key.
pub open spec fn intro_upd_map(
    m: Map<ClusterIntrospectionSourceIndexKeyView, ClusterIntrospectionSourceIndexValue>,
    s: Seq<(ClusterId, String, GlobalId)>,
) -> Map<ClusterIntrospectionSourceIndexKeyView, ClusterIntrospectionSourceIndexValue>
    decreases s.len(),
{
    if s.len() == 0 {
        m
    } else {
        intro_upd_map(m, s.drop_last()).insert(
            intro_upd_key(s.last()),
            ClusterIntrospectionSourceIndexValue { index_id: s.last().2->System_0 },
        )
    }
}

pub proof fn lemma_intro_upd_contains(
    m: Map<ClusterIntrospectionSourceIndexKeyView, ClusterIntrospectionSourceIndexValue>,
    s: Seq<(ClusterId, String, GlobalId)>,
    k: ClusterIntrospectionSourceIndexKeyView,
)
    ensures
        intro_upd_map(m, s).contains_key(k) <==> (m.contains_key(k) || exists|i: int|
            0 <= i < s.len() && intro_upd_key(#[trigger] s[i]) == k),
    decreases s.len(),
{
    if s.len() == 0 {
    } else {
        lemma_intro_upd_contains(m, s.drop_last(), k);
        if exists|i: int| 0 <= i < s.drop_last().len() && intro_upd_key(
            #[trigger] s.drop_last()[i],
        ) == k {
            let i = choose|i: int|
                0 <= i < s.drop_last().len() && intro_upd_key(#[trigger] s.drop_last()[i]) == k;
            assert(intro_upd_key(s[i]) == k);
        }
        if intro_upd_key(s.last()) == k {
            assert(intro_upd_key(s[s.len() - 1]) == k);
        }
        if exists|i: int| 0 <= i < s.len() && intro_upd_key(#[trigger] s[i]) == k {
            let i = choose|i: int| 0 <= i < s.len() && intro_upd_key(#[trigger] s[i]) == k;
            if i < s.len() - 1 {
                assert(intro_upd_key(s.drop_last()[i]) == k);
            }
        }
    }
}

/// What applying a batch of introspection source updates returns and leaves
/// behind: on success every entry found its key live at its turn and all
/// are applied; on failure the entries up to and including the first whose
/// key was missing are applied, and the error names that entry's index id.
pub open spec fn intro_upd_result(
    m0: Map<ClusterIntrospectionSourceIndexKeyView, ClusterIntrospectionSourceIndexValue>,
    m1: Map<ClusterIntrospectionSourceIndexKeyView, ClusterIntrospectionSourceIndexValue>,
    ms: Seq<(ClusterId, String, GlobalId)>,
    r: Result<(), CatalogError>,
) -> bool {
    match r {
        Ok(_) => {
            &&& forall|i: int|
                0 <= i < ms.len() ==> intro_upd_map(m0, ms.take(i)).contains_key(
                    intro_upd_key(#[trigger] ms[i]),
                )
            &&& m1 == intro_upd_map(m0, ms)
        },
        Err(e) => {
            &&& e is FailedBuiltinSchemaMigration
            &&& exists|f: int|
                {
                    &&& 0 <= f < ms.len()
                    &&& !intro_upd_map(m0, ms.take(f)).contains_key(
                        intro_upd_key(#[trigger] ms[f]),
                    )
                    &&& forall|j: int|
                        0 <= j < f ==> intro_upd_map(m0, ms.take(j)).contains_key(
                            intro_upd_key(#[trigger] ms[j]),
                        )
                    &&& m1 == intro_upd_map(m0, ms.take(f + 1))
                    &&& e->FailedBuiltinSchemaMigration_0@ == seq![ms[f].2]
                }
        },
    }
}

/// Applies a batch of introspection source updates to the table, in order.
#[verifier::rlimit(50)]
fn intro_apply_updates(
    t: &mut VersionedTable<
        ClusterIntrospectionSourceIndexKey,
        ClusterIntrospectionSourceIndexValue,
        NoConflict,
    >,
    mappings: &Vec<(ClusterId, String, GlobalId)>,
) -> (r: Result<(), CatalogError>)
    requires
        old(t).wf(),
        forall|i: int| 0 <= i < mappings@.len() ==> (#[trigger] mappings@[i]).2 is System,
    ensures
        final(t).wf(),
        final(t).base() == old(t).base(),
        final(t).predicate() == old(t).predicate(),
        intro_upd_result(old(t).live(), final(t).live(), mappings@, r),
{
    let ghost m0 = t.live();
    let ghost ms = mappings@;
    let mut i: usize = 0;
    while i < mappings.len()
        invariant
            t.wf(),
            ms == mappings@,
            i <= ms.len(),
            forall|x: int| 0 <= x < ms.len() ==> (#[trigger] ms[x]).2 is System,
            t.live() == intro_upd_map(m0, ms.take(i as int)),
            t.base() == old(t).base(),
            t.predicate() == old(t).predicate(),
            m0 == old(t).live(),
            forall|j: int|
                0 <= j < i ==> intro_upd_map(m0, ms.take(j)).contains_key(
                    intro_upd_key(#[trigger] ms[j]),
                ),
        decreases ms.len() - i,
    {
        let cluster_id = mappings[i].0;
        let name = mappings[i].1.clone();
        let index_id: u64 = match mappings[i].2 {
            GlobalId::System(n) => n,
            GlobalId::User(_) => {
                proof {
                    assert(false);
                }
                0
            },
        };
        let prev = match t.set(
            ClusterIntrospectionSourceIndexKey { cluster_id, name },
            Some(ClusterIntrospectionSourceIndexValue { index_id }),
        ) {
            Ok(p) => p,
            Err(_) => {
                proof {
                    assert(false);
                }
                return Err(CatalogError::UniquenessViolation);
            },
        };
        proof {
            assert(ms.take(i + 1 as int).drop_last() =~= ms.take(i as int));
            assert(ms.take(i + 1 as int).last() == ms[i as int]);
            assert(t.live() == intro_upd_map(m0, ms.take(i + 1 as int)));
        }
        if prev.is_none() {
            let mut failed: Vec<GlobalId> = Vec::new();
            failed.push(GlobalId::System(index_id));
            proof {
                let f = i as int;
                assert(failed@ =~= seq![ms[f].2]);
                assert({
                    &&& 0 <= f < ms.len()
                    &&& !intro_upd_map(m0, ms.take(f)).contains_key(intro_upd_key(ms[f]))
                    &&& forall|j: int|
                        0 <= j < f ==> intro_upd_map(m0, ms.take(j)).contains_key(
                            intro_upd_key(#[trigger] ms[j]),
                        )
                    &&& t.live() == intro_upd_map(m0, ms.take(f + 1))
                    &&& failed@ == seq![ms[f].2]
                });
            }
            return Err(CatalogError::FailedBuiltinSchemaMigration(failed));
        }
        i += 1;
    }
    proof {
        assert(ms.take(ms.len() as int) =~= ms);
    }
    Ok(())
}

/// Selects the role rows carrying a given name.
pub struct RoleNamed {
    pub name: String,
}

impl RowFilter<RoleKey, RoleValue> for RoleNamed {
    open spec fn selects(self, k: RoleKey, v: RoleValueView) -> bool {
        v.name == self.name@
    }

    fn test(&self, k: &RoleKey, v: &RoleValue) -> (r: bool) {
        string_eq(&v.name, &self.name)
    }
}

/// Selects the cluster row with a given id.
pub struct ClusterKeyIs {
    pub id: ClusterId,
}

impl RowFilter<ClusterKey, ClusterValue> for ClusterKeyIs {
    open spec fn selects(self, k: ClusterKey, v: ClusterValueView) -> bool {
        k.id == self.id
    }

    fn test(&self, k: &ClusterKey, v: &ClusterValue) -> (r: bool) {
        k.id == self.id
    }
}

/// Selects the replica rows that belong to a given cluster.
pub struct ReplicaOfCluster {
    pub id: ClusterId,
}

impl RowFilter<ClusterReplicaKey, ClusterReplicaValue> for ReplicaOfCluster {
    open spec fn selects(self, k: ClusterReplicaKey, v: ClusterReplicaValueView) -> bool {
        v.cluster_id == self.id
    }

    fn test(&self, k: &ClusterReplicaKey, v: &ClusterReplicaValue) -> (r: bool) {
        v.cluster_id == self.id
    }
}

/// Selects the introspection source rows that belong to a given cluster.
pub struct IntroOfCluster {
    pub id: ClusterId,
}

impl RowFilter<
    ClusterIntrospectionSourceIndexKey,
    ClusterIntrospectionSourceIndexValue,
> for IntroOfCluster {
    open spec fn selects(
        self,
        k: ClusterIntrospectionSourceIndexKeyView,
        v: ClusterIntrospectionSourceIndexValue,
    ) -> bool {
        k.cluster_id == self.id
    }

    fn test(
        &self,
        k: &ClusterIntrospectionSourceIndexKey,
        v: &ClusterIntrospectionSourceIndexValue,
    ) -> (r: bool) {
        k.cluster_id == self.id
    }
}

/// Selects the replica row with a given id.
pub struct ReplicaKeyIs {
    pub id: ReplicaId,
}

impl RowFilter<ClusterReplicaKey, ClusterReplicaValue> for ReplicaKeyIs {
    open spec fn selects(self, k: ClusterReplicaKey, v: ClusterReplicaValueView) -> bool {
        k.id == self.id
    }

    fn test(&self, k: &ClusterReplicaKey, v: &ClusterReplicaValue) -> (r: bool) {
        k.id == self.id
    }
}

/// Selects the item rows whose id lies in a given list.
pub struct ItemInSet {
    pub ids: Vec<GlobalId>,
}

impl RowFilter<ItemKey, ItemValue> for ItemInSet {
    open spec fn selects(self, k: ItemKey, v: ItemValueView) -> bool {
        self.ids@.contains(k.gid)
    }

    fn test(&self, k: &ItemKey, v: &ItemValue) -> (r: bool) {
        let mut i: usize = 0;
        while i < self.ids.len()
            invariant
                i <= self.ids@.len(),
                forall|j: int| 0 <= j < i ==> (#[trigger] self.ids@[j]) != k.gid,
            decreases self.ids@.len() - i,
        {
            if self.ids[i].eq_id(&k.gid) {
                return true;
            }
            i += 1;
        }
        proof {
            if self.ids@.contains(k.gid) {
                let j = choose|j: int| 0 <= j < self.ids@.len() && self.ids@[j] == k.gid;
            }
        }
        false
    }
}

/// Selects the comment rows attached to a given object.
pub struct CommentOfObject {
    pub object_id: CommentObjectId,
}

impl RowFilter<CommentKey, CommentValue> for CommentOfObject {
    open spec fn selects(self, k: CommentKey, v: Seq<char>) -> bool {
        k.object_id == self.object_id
    }

    fn test(&self, k: &CommentKey, v: &CommentValue) -> (r: bool) {
        k.object_id == self.object_id
    }
}

/// Selects every row.
pub struct AllRows;

impl<K: crate::table::TableKey, V: crate::table::TableValue> RowFilter<K, V> for AllRows {
    open spec fn selects(self, k: K::V, v: V::V) -> bool {
        true
    }

    fn test(&self, k: &K, v: &V) -> (r: bool) {
        true
    }
}

/// The default privilege table after the upserts of `s`, in order.
pub open spec fn dp_upd_map(
    m: Map<DefaultPrivilegesKey, DefaultPrivilegesValue>,
    s: Seq<DefaultPrivilege>,
) -> Map<DefaultPrivilegesKey, DefaultPrivilegesValue>
    decreases s.len(),
{
    if s.len() == 0 {
        m
    } else {
        dp_upd_map(m, s.drop_last()).insert(
            DefaultPrivilegesKey {
                role_id: s.last().object.role_id,
                database_id: s.last().object.database_id,
                schema_id: s.last().object.schema_id,
                object_type: s.last().object.object_type,
                grantee: s.last().acl_item.grantee,
            },
            DefaultPrivilegesValue { privileges: s.last().acl_item.privileges },
        )
    }
}

/// The system privilege table after the upserts of `s`, in order.
pub open spec fn sp_upd_map(
    m: Map<SystemPrivilegesKey, SystemPrivilegesValue>,
    s: Seq<AclItem>,
) -> Map<SystemPrivilegesKey, SystemPrivilegesValue>
    decreases s.len(),
{
    if s.len() == 0 {
        m
    } else {
        sp_upd_map(m, s.drop_last()).insert(
            SystemPrivilegesKey { grantee: s.last().grantee, grantor: s.last().grantor },
            SystemPrivilegesValue { acl_mode: s.last().acl_mode },
        )
    }
}

/// The introspection source table after the upserts of `s`, in order.
pub open spec fn isi_upd_map(
    m: Map<ClusterIntrospectionSourceIndexKeyView, ClusterIntrospectionSourceIndexValue>,
    s: Seq<IntrospectionSourceIndex>,
) -> Map<ClusterIntrospectionSourceIndexKeyView, ClusterIntrospectionSourceIndexValue>
    decreases s.len(),
{
    if s.len() == 0 {
        m
    } else {
        isi_upd_map(m, s.drop_last()).insert(
            ClusterIntrospectionSourceIndexKeyView {
                cluster_id: s.last().cluster_id,
                name: s.last().name@,
            },
            ClusterIntrospectionSourceIndexValue { index_id: s.last().index_id->System_0 },
        )
    }
}

/// The system object mapping table after the upserts of `s`, in order.
pub open spec fn som_upd_map(
    m: Map<GidMappingKeyView, GidMappingValueView>,
    s: Seq<SystemObjectMapping>,
) -> Map<GidMappingKeyView, GidMappingValueView>
    decreases s.len(),
{
    if s.len() == 0 {
        m
    } else {
        som_upd_map(m, s.drop_last()).insert(
            GidMappingKeyView {
                schema_name: s.last().description.schema_name@,
                object_type: s.last().description.object_type,
                object_name: s.last().description.object_name@,
            },
            GidMappingValueView {
                id: s.last().unique_identifier.id->System_0,
                fingerprint: s.last().unique_identifier.fingerprint@,
            },
        )
    }
}

/// The replica table after the upserts of `s`, in order.
pub open spec fn rep_upd_map(
    m: Map<ClusterReplicaKey, ClusterReplicaValueView>,
    s: Seq<ClusterReplica>,
) -> Map<ClusterReplicaKey, ClusterReplicaValueView>
    decreases s.len(),
{
    if s.len() == 0 {
        m
    } else {
        rep_upd_map(m, s.drop_last()).insert(
            ClusterReplicaKey { id: s.last().replica_id },
            ClusterReplicaValueView {
                cluster_id: s.last().cluster_id,
                name: s.last().name@,
                config: s.last().config@,
                owner_id: s.last().owner_id,
            },
        )
    }
}

/// Whether writing the replica row `rep` into `m` keeps the per-cluster
/// name uniqueness invariant.
pub open spec fn rep_set_ok(m: Map<ClusterReplicaKey, ClusterReplicaValueView>, rep: ClusterReplica) -> bool {
    forall|k2: ClusterReplicaKey| #[trigger]
        m.contains_key(k2) && k2 != (ClusterReplicaKey { id: rep.replica_id })
            ==> !(m[k2].cluster_id == rep.cluster_id && m[k2].name == rep.name@)
}

/// Applies a batch of replica upserts to the table, in order.
#[verifier::rlimit(50)]
fn rep_apply_sets(
    t: &mut VersionedTable<ClusterReplicaKey, ClusterReplicaValue, ReplicaNameConflict>,
    replicas: &Vec<ClusterReplica>,
) -> (r: Result<(), CatalogError>)
    requires
        old(t).wf(),
    ensures
        final(t).wf(),
        final(t).base() == old(t).base(),
        final(t).predicate() == old(t).predicate(),
        ({
            let m0 = old(t).live();
            let rs = replicas@;
            match r {
                Ok(_) => {
                    &&& forall|i: int|
                        0 <= i < rs.len() ==> rep_set_ok(
                            rep_upd_map(m0, rs.take(i)),
                            #[trigger] rs[i],
                        )
                    &&& final(t).live() == rep_upd_map(m0, rs)
                },
                Err(e) => {
                    &&& e == CatalogError::UniquenessViolation
                    &&& exists|f: int|
                        {
                            &&& 0 <= f < rs.len()
                            &&& !rep_set_ok(rep_upd_map(m0, rs.take(f)), #[trigger] rs[f])
                            &&& forall|j: int|
                                0 <= j < f ==> rep_set_ok(
                                    rep_upd_map(m0, rs.take(j)),
                                    #[trigger] rs[j],
                                )
                            &&& final(t).live() == rep_upd_map(m0, rs.take(f))
                        }
                },
            }
        }),
{
    let ghost m0 = t.live();
    let ghost rs = replicas@;
    let mut i: usize = 0;
    while i < replicas.len()
        invariant
            t.wf(),
            rs == replicas@,
            i <= rs.len(),
            t.live() == rep_upd_map(m0, rs.take(i as int)),
            t.base() == old(t).base(),
            t.predicate() == old(t).predicate(),
            m0 == old(t).live(),
            forall|j: int|
                0 <= j < i ==> rep_set_ok(rep_upd_map(m0, rs.take(j)), #[trigger] rs[j]),
        decreases rs.len() - i,
    {
        let rep = ClusterReplica {
            cluster_id: replicas[i].cluster_id,
            replica_id: replicas[i].replica_id,
            name: replicas[i].name.clone(),
            config: replicas[i].config.config_clone(),
            owner_id: replicas[i].owner_id,
        };
        let (key, value) = rep.into_key_value();
        let ghost keyv = key@;
        let ghost nv = value@;
        match t.set(key, Some(value)) {
            Ok(_) => {
                proof {
                    assert(rs.take(i + 1 as int).drop_last() =~= rs.take(i as int));
                    assert(rs.take(i + 1 as int).last() == rs[i as int]);
                    assert(rep_set_ok(rep_upd_map(m0, rs.take(i as int)), rs[i as int]));
                }
            },
            Err(_) => {
                proof {
                    let f = i as int;
                    let cur = rep_upd_map(m0, rs.take(f));
                    assert(!rep_set_ok(cur, rs[f])) by {
                        if rep_set_ok(cur, rs[f]) {
                            assert forall|k2: ClusterReplicaKey| #[trigger]
                                cur.contains_key(k2) && k2 != keyv implies !ReplicaNameConflict.conflicts(
                                cur[k2],
                                nv,
                            ) && !ReplicaNameConflict.conflicts(nv, cur[k2]) by {
                                assert(!(cur[k2].cluster_id == rs[f].cluster_id && cur[k2].name
                                    == rs[f].name@));
                            }
                        }
                    }
                }
                return Err(CatalogError::UniquenessViolation);
            },
        }
        i += 1;
    }
    proof {
        assert(rs.take(rs.len() as int) =~= rs);
    }
    Ok(())
}

/// The order on item ids that `loaded_items` sorts by: system ids before
/// user ids, and numerically inside each namespace.
pub open spec fn gid_le(a: GlobalId, b: GlobalId) -> bool {
    match (a, b) {
        (GlobalId::System(x), GlobalId::System(y)) => x <= y,
        (GlobalId::System(_), GlobalId::User(_)) => true,
        (GlobalId::User(_), GlobalId::System(_)) => false,
        (GlobalId::User(x), GlobalId::User(y)) => x <= y,
    }
}

/// Computes [`gid_le`].
pub fn gid_le_exec(a: GlobalId, b: GlobalId) -> (r: bool)
    ensures
        r == gid_le(a, b),
{
    match (a, b) {
        (GlobalId::System(x), GlobalId::System(y)) => x <= y,
        (GlobalId::System(_), GlobalId::User(_)) => true,
        (GlobalId::User(_), GlobalId::System(_)) => false,
        (GlobalId::User(x), GlobalId::User(y)) => x <= y,
    }
}

/// A catalog transaction: one versioned ledger per entity plus the two
/// append-only logs. All mutations buffer in memory; `into_parts` flattens
/// them into a [`TransactionBatch`] for one atomic durable write.
pub struct Transaction {
    databases: VersionedTable<DatabaseKey, DatabaseValue, DatabaseNameConflict>,
    schemas: VersionedTable<SchemaKey, SchemaValue, SchemaNameConflict>,
    items: VersionedTable<ItemKey, ItemValue, ItemNameConflict>,
    comments: VersionedTable<CommentKey, CommentValue, NoConflict>,
    roles: VersionedTable<RoleKey, RoleValue, RoleNameConflict>,
    clusters: VersionedTable<ClusterKey, ClusterValue, ClusterNameConflict>,
    cluster_replicas: VersionedTable<ClusterReplicaKey, ClusterReplicaValue, ReplicaNameConflict>,
    introspection_sources: VersionedTable<ClusterIntrospectionSourceIndexKey, ClusterIntrospectionSourceIndexValue, NoConflict>,
    id_allocator: VersionedTable<IdAllocKey, IdAllocValue, NoConflict>,
    configs: VersionedTable<ConfigKey, ConfigValue, NoConflict>,
    settings: VersionedTable<SettingKey, SettingValue, NoConflict>,
    timestamps: VersionedTable<TimestampKey, TimestampValue, NoConflict>,
    system_gid_mapping: VersionedTable<GidMappingKey, GidMappingValue, NoConflict>,
    system_configurations: VersionedTable<ServerConfigurationKey, ServerConfigurationValue, NoConflict>,
    default_privileges: VersionedTable<DefaultPrivilegesKey, DefaultPrivilegesValue, NoConflict>,
    system_privileges: VersionedTable<SystemPrivilegesKey, SystemPrivilegesValue, NoConflict>,
    audit_log_updates: Vec<(AuditLogKey, i64)>,
    storage_usage_updates: Vec<(StorageUsageKey, i64)>,
    connection_timeout: Option<u64>,
}

impl Transaction {
    /// The databases ledger.
    pub closed spec fn databases(self) -> VersionedTable<DatabaseKey, DatabaseValue, DatabaseNameConflict> {
        self.databases
    }

    /// The schemas ledger.
    pub closed spec fn schemas(self) -> VersionedTable<SchemaKey, SchemaValue, SchemaNameConflict> {
        self.schemas
    }

    /// The items ledger.
    pub closed spec fn items(self) -> VersionedTable<ItemKey, ItemValue, ItemNameConflict> {
        self.items
    }

    /// The comments ledger.
    pub closed spec fn comments(self) -> VersionedTable<CommentKey, CommentValue, NoConflict> {
        self.comments
    }

    /// The roles ledger.
    pub closed spec fn roles(self) -> VersionedTable<RoleKey, RoleValue, RoleNameConflict> {
        self.roles
    }

    /// The clusters ledger.
    pub closed spec fn clusters(self) -> VersionedTable<ClusterKey, ClusterValue, ClusterNameConflict> {
        self.clusters
    }

    /// The cluster replicas ledger.
    pub closed spec fn cluster_replicas(self) -> VersionedTable<ClusterReplicaKey, ClusterReplicaValue, ReplicaNameConflict> {
        self.cluster_replicas
    }

    /// The introspection sources ledger.
    pub closed spec fn introspection_sources(self) -> VersionedTable<ClusterIntrospectionSourceIndexKey, ClusterIntrospectionSourceIndexValue, NoConflict> {
        self.introspection_sources
    }

    /// The id allocator ledger.
    pub closed spec fn id_allocator(self) -> VersionedTable<IdAllocKey, IdAllocValue, NoConflict> {
        self.id_allocator
    }

    /// The configs ledger.
    pub closed spec fn configs(self) -> VersionedTable<ConfigKey, ConfigValue, NoConflict> {
        self.configs
    }

    /// The settings ledger.
    pub closed spec fn settings(self) -> VersionedTable<SettingKey, SettingValue, NoConflict> {
        self.settings
    }

    /// The timestamps ledger.
    pub closed spec fn timestamps(self) -> VersionedTable<TimestampKey, TimestampValue, NoConflict> {
        self.timestamps
    }

    /// The system gid mapping ledger.
    pub closed spec fn system_gid_mapping(self) -> VersionedTable<GidMappingKey, GidMappingValue, NoConflict> {
        self.system_gid_mapping
    }

    /// The system configurations ledger.
    pub closed spec fn system_configurations(self) -> VersionedTable<ServerConfigurationKey, ServerConfigurationValue, NoConflict> {
        self.system_configurations
    }

    /// The default privileges ledger.
    pub closed spec fn default_privileges(self) -> VersionedTable<DefaultPrivilegesKey, DefaultPrivilegesValue, NoConflict> {
        self.default_privileges
    }

    /// The system privileges ledger.
    pub closed spec fn system_privileges(self) -> VersionedTable<SystemPrivilegesKey, SystemPrivilegesValue, NoConflict> {
        self.system_privileges
    }

    /// The buffered audit log entries.
    pub closed spec fn audit_log(self) -> Seq<(AuditLogKey, i64)> {
        self.audit_log_updates@
    }

    /// The buffered storage usage entries.
    pub closed spec fn storage_usage(self) -> Seq<(StorageUsageKey, i64)> {
        self.storage_usage_updates@
    }

    /// The commit timeout hint, in milliseconds.
    pub closed spec fn timeout(self) -> Option<u64> {
        self.connection_timeout
    }

    /// Well-formedness: every ledger is internally consistent and carries
    /// the uniqueness strategy of its entity.
    pub open spec fn wf(self) -> bool {
        &&& self.databases().wf()
        &&& self.schemas().wf()
        &&& self.items().wf()
        &&& self.comments().wf()
        &&& self.roles().wf()
        &&& self.clusters().wf()
        &&& self.cluster_replicas().wf()
        &&& self.introspection_sources().wf()
        &&& self.id_allocator().wf()
        &&& self.configs().wf()
        &&& self.settings().wf()
        &&& self.timestamps().wf()
        &&& self.system_gid_mapping().wf()
        &&& self.system_configurations().wf()
        &&& self.default_privileges().wf()
        &&& self.system_privileges().wf()
    }

    /// Every part of the transaction other than the databases
    /// ledger is unchanged.
    pub open spec fn same_except_databases(self, other: Self) -> bool {
        &&& self.schemas() == other.schemas()
        &&& self.items() == other.items()
        &&& self.comments() == other.comments()
        &&& self.roles() == other.roles()
        &&& self.clusters() == other.clusters()
        &&& self.cluster_replicas() == other.cluster_replicas()
        &&& self.introspection_sources() == other.introspection_sources()
        &&& self.id_allocator() == other.id_allocator()
        &&& self.configs() == other.configs()
        &&& self.settings() == other.settings()
        &&& self.timestamps() == other.timestamps()
        &&& self.system_gid_mapping() == other.system_gid_mapping()
        &&& self.system_configurations() == other.system_configurations()
        &&& self.default_privileges() == other.default_privileges()
        &&& self.system_privileges() == other.system_privileges()
        &&& self.audit_log() == other.audit_log()
        &&& self.storage_usage() == other.storage_usage()
        &&& self.timeout() == other.timeout()
    }

    /// Every part of the transaction other than the schemas
    /// ledger is unchanged.
    pub open spec fn same_except_schemas(self, other: Self) -> bool {
        &&& self.databases() == other.databases()
        &&& self.items() == other.items()
        &&& self.comments() == other.comments()
        &&& self.roles() == other.roles()
        &&& self.clusters() == other.clusters()
        &&& self.cluster_replicas() == other.cluster_replicas()
        &&& self.introspection_sources() == other.introspection_sources()
        &&& self.id_allocator() == other.id_allocator()
        &&& self.configs() == other.configs()
        &&& self.settings() == other.settings()
        &&& self.timestamps() == other.timestamps()
        &&& self.system_gid_mapping() == other.system_gid_mapping()
        &&& self.system_configurations() == other.system_configurations()
        &&& self.default_privileges() == other.default_privileges()
        &&& self.system_privileges() == other.system_privileges()
        &&& self.audit_log() == other.audit_log()
        &&& self.storage_usage() == other.storage_usage()
        &&& self.timeout() == other.timeout()
    }

    /// Every part of the transaction other than the items
    /// ledger is unchanged.
    pub open spec fn same_except_items(self, other: Self) -> bool {
        &&& self.databases() == other.databases()
        &&& self.schemas() == other.schemas()
        &&& self.comments() == other.comments()
        &&& self.roles() == other.roles()
        &&& self.clusters() == other.clusters()
        &&& self.cluster_replicas() == other.cluster_replicas()
        &&& self.introspection_sources() == other.introspection_sources()
        &&& self.id_allocator() == other.id_allocator()
        &&& self.configs() == other.configs()
        &&& self.settings() == other.settings()
        &&& self.timestamps() == other.timestamps()
        &&& self.system_gid_mapping() == other.system_gid_mapping()
        &&& self.system_configurations() == other.system_configurations()
        &&& self.default_privileges() == other.default_privileges()
        &&& self.system_privileges() == other.system_privileges()
        &&& self.audit_log() == other.audit_log()
        &&& self.storage_usage() == other.storage_usage()
        &&& self.timeout() == other.timeout()
    }

    /// Every part of the transaction other than the comments
    /// ledger is unchanged.
    pub open spec fn same_except_comments(self, other: Self) -> bool {
        &&& self.databases() == other.databases()
        &&& self.schemas() == other.schemas()
        &&& self.items() == other.items()
        &&& self.roles() == other.roles()
        &&& self.clusters() == other.clusters()
        &&& self.cluster_replicas() == other.cluster_replicas()
        &&& self.introspection_sources() == other.introspection_sources()
        &&& self.id_allocator() == other.id_allocator()
        &&& self.configs() == other.configs()
        &&& self.settings() == other.settings()
        &&& self.timestamps() == other.timestamps()
        &&& self.system_gid_mapping() == other.system_gid_mapping()
        &&& self.system_configurations() == other.system_configurations()
        &&& self.default_privileges() == other.default_privileges()
        &&& self.system_privileges() == other.system_privileges()
        &&& self.audit_log() == other.audit_log()
        &&& self.storage_usage() == other.storage_usage()
        &&& self.timeout() == other.timeout()
    }

    /// Every part of the transaction other than the roles
    /// ledger is unchanged.
    pub open spec fn same_except_roles(self, other: Self) -> bool {
        &&& self.databases() == other.databases()
        &&& self.schemas() == other.schemas()
        &&& self.items() == other.items()
        &&& self.comments() == other.comments()
        &&& self.clusters() == other.clusters()
        &&& self.cluster_replicas() == other.cluster_replicas()
        &&& self.introspection_sources() == other.introspection_sources()
        &&& self.id_allocator() == other.id_allocator()
        &&& self.configs() == other.configs()
        &&& self.settings() == other.settings()
        &&& self.timestamps() == other.timestamps()
        &&& self.system_gid_mapping() == other.system_gid_mapping()
        &&& self.system_configurations() == other.system_configurations()
        &&& self.default_privileges() == other.default_privileges()
        &&& self.system_privileges() == other.system_privileges()
        &&& self.audit_log() == other.audit_log()
        &&& self.storage_usage() == other.storage_usage()
        &&& self.timeout() == other.timeout()
    }

    /// Every part of the transaction other than the clusters
    /// ledger is unchanged.
    pub open spec fn same_except_clusters(self, other: Self) -> bool {
        &&& self.databases() == other.databases()
        &&& self.schemas() == other.schemas()
        &&& self.items() == other.items()
        &&& self.comments() == other.comments()
        &&& self.roles() == other.roles()
        &&& self.cluster_replicas() == other.cluster_replicas()
        &&& self.introspection_sources() == other.introspection_sources()
        &&& self.id_allocator() == other.id_allocator()
        &&& self.configs() == other.configs()
        &&& self.settings() == other.settings()
        &&& self.timestamps() == other.timestamps()
        &&& self.system_gid_mapping() == other.system_gid_mapping()
        &&& self.system_configurations() == other.system_configurations()
        &&& self.default_privileges() == other.default_privileges()
        &&& self.system_privileges() == other.system_privileges()
        &&& self.audit_log() == other.audit_log()
        &&& self.storage_usage() == other.storage_usage()
        &&& self.timeout() == other.timeout()
    }

    /// Every part of the transaction other than the cluster replicas
    /// ledger is unchanged.
    pub open spec fn same_except_cluster_replicas(self, other: Self) -> bool {
        &&& self.databases() == other.databases()
        &&& self.schemas() == other.schemas()
        &&& self.items() == other.items()
        &&& self.comments() == other.comments()
        &&& self.roles() == other.roles()
        &&& self.clusters() == other.clusters()
        &&& self.introspection_sources() == other.introspection_sources()
        &&& self.id_allocator() == other.id_allocator()
        &&& self.configs() == other.configs()
        &&& self.settings() == other.settings()
        &&& self.timestamps() == other.timestamps()
        &&& self.system_gid_mapping() == other.system_gid_mapping()
        &&& self.system_configurations() == other.system_configurations()
        &&& self.default_privileges() == other.default_privileges()
        &&& self.system_privileges() == other.system_privileges()
        &&& self.audit_log() == other.audit_log()
        &&& self.storage_usage() == other.storage_usage()
        &&& self.timeout() == other.timeout()
    }

    /// Every part of the transaction other than the introspection sources
    /// ledger is unchanged.
    pub open spec fn same_except_introspection_sources(self, other: Self) -> bool {
        &&& self.databases() == other.databases()
        &&& self.schemas() == other.schemas()
        &&& self.items() == other.items()
        &&& self.comments() == other.comments()
        &&& self.roles() == other.roles()
        &&& self.clusters() == other.clusters()
        &&& self.cluster_replicas() == other.cluster_replicas()
        &&& self.id_allocator() == other.id_allocator()
        &&& self.configs() == other.configs()
        &&& self.settings() == other.settings()
        &&& self.timestamps() == other.timestamps()
        &&& self.system_gid_mapping() == other.system_gid_mapping()
        &&& self.system_configurations() == other.system_configurations()
        &&& self.default_privileges() == other.default_privileges()
        &&& self.system_privileges() == other.system_privileges()
        &&& self.audit_log() == other.audit_log()
        &&& self.storage_usage() == other.storage_usage()
        &&& self.timeout() == other.timeout()
    }

    /// Every part of the transaction other than the id allocator
    /// ledger is unchanged.
    pub open spec fn same_except_id_allocator(self, other: Self) -> bool {
        &&& self.databases() == other.databases()
        &&& self.schemas() == other.schemas()
        &&& self.items() == other.items()
        &&& self.comments() == other.comments()
        &&& self.roles() == other.roles()
        &&& self.clusters() == other.clusters()
        &&& self.cluster_replicas() == other.cluster_replicas()
        &&& self.introspection_sources() == other.introspection_sources()
        &&& self.configs() == other.configs()
        &&& self.settings() == other.settings()
        &&& self.timestamps() == other.timestamps()
        &&& self.system_gid_mapping() == other.system_gid_mapping()
        &&& self.system_configurations() == other.system_configurations()
        &&& self.default_privileges() == other.default_privileges()
        &&& self.system_privileges() == other.system_privileges()
        &&& self.audit_log() == other.audit_log()
        &&& self.storage_usage() == other.storage_usage()
        &&& self.timeout() == other.timeout()
    }

    /// Every part of the transaction other than the configs
    /// ledger is unchanged.
    pub open spec fn same_except_configs(self, other: Self) -> bool {
        &&& self.databases() == other.databases()
        &&& self.schemas() == other.schemas()
        &&& self.items() == other.items()
        &&& self.comments() == other.comments()
        &&& self.roles() == other.roles()
        &&& self.clusters() == other.clusters()
        &&& self.cluster_replicas() == other.cluster_replicas()
        &&& self.introspection_sources() == other.introspection_sources()
        &&& self.id_allocator() == other.id_allocator()
        &&& self.settings() == other.settings()
        &&& self.timestamps() == other.timestamps()
        &&& self.system_gid_mapping() == other.system_gid_mapping()
        &&& self.system_configurations() == other.system_configurations()
        &&& self.default_privileges() == other.default_privileges()
        &&& self.system_privileges() == other.system_privileges()
        &&& self.audit_log() == other.audit_log()
        &&& self.storage_usage() == other.storage_usage()
        &&& self.timeout() == other.timeout()
    }

    /// Every part of the transaction other than the settings
    /// ledger is unchanged.
    pub open spec fn same_except_settings(self, other: Self) -> bool {
        &&& self.databases() == other.databases()
        &&& self.schemas() == other.schemas()
        &&& self.items() == other.items()
        &&& self.comments() == other.comments()
        &&& self.roles() == other.roles()
        &&& self.clusters() == other.clusters()
        &&& self.cluster_replicas() == other.cluster_replicas()
        &&& self.introspection_sources() == other.introspection_sources()
        &&& self.id_allocator() == other.id_allocator()
        &&& self.configs() == other.configs()
        &&& self.timestamps() == other.timestamps()
        &&& self.system_gid_mapping() == other.system_gid_mapping()
        &&& self.system_configurations() == other.system_configurations()
        &&& self.default_privileges() == other.default_privileges()
        &&& self.system_privileges() == other.system_privileges()
        &&& self.audit_log() == other.audit_log()
        &&& self.storage_usage() == other.storage_usage()
        &&& self.timeout() == other.timeout()
    }

    /// Every part of the transaction other than the timestamps
    /// ledger is unchanged.
    pub open spec fn same_except_timestamps(self, other: Self) -> bool {
        &&& self.databases() == other.databases()
        &&& self.schemas() == other.schemas()
        &&& self.items() == other.items()
        &&& self.comments() == other.comments()
        &&& self.roles() == other.roles()
        &&& self.clusters() == other.clusters()
        &&& self.cluster_replicas() == other.cluster_replicas()
        &&& self.introspection_sources() == other.introspection_sources()
        &&& self.id_allocator() == other.id_allocator()
        &&& self.configs() == other.configs()
        &&& self.settings() == other.settings()
        &&& self.system_gid_mapping() == other.system_gid_mapping()
        &&& self.system_configurations() == other.system_configurations()
        &&& self.default_privileges() == other.default_privileges()
        &&& self.system_privileges() == other.system_privileges()
        &&& self.audit_log() == other.audit_log()
        &&& self.storage_usage() == other.storage_usage()
        &&& self.timeout() == other.timeout()
    }

    /// Every part of the transaction other than the system gid mapping
    /// ledger is unchanged.
    pub open spec fn same_except_system_gid_mapping(self, other: Self) -> bool {
        &&& self.databases() == other.databases()
        &&& self.schemas() == other.schemas()
        &&& self.items() == other.items()
        &&& self.comments() == other.comments()
        &&& self.roles() == other.roles()
        &&& self.clusters() == other.clusters()
        &&& self.cluster_replicas() == other.cluster_replicas()
        &&& self.introspection_sources() == other.introspection_sources()
        &&& self.id_allocator() == other.id_allocator()
        &&& self.configs() == other.configs()
        &&& self.settings() == other.settings()
        &&& self.timestamps() == other.timestamps()
        &&& self.system_configurations() == other.system_configurations()
        &&& self.default_privileges() == other.default_privileges()
        &&& self.system_privileges() == other.system_privileges()
        &&& self.audit_log() == other.audit_log()
        &&& self.storage_usage() == other.storage_usage()
        &&& self.timeout() == other.timeout()
    }

    /// Every part of the transaction other than the system configurations
    /// ledger is unchanged.
    pub open spec fn same_except_system_configurations(self, other: Self) -> bool {
        &&& self.databases() == other.databases()
        &&& self.schemas() == other.schemas()
        &&& self.items() == other.items()
        &&& self.comments() == other.comments()
        &&& self.roles() == other.roles()
        &&& self.clusters() == other.clusters()
        &&& self.cluster_replicas() == other.cluster_replicas()
        &&& self.introspection_sources() == other.introspection_sources()
        &&& self.id_allocator() == other.id_allocator()
        &&& self.configs() == other.configs()
        &&& self.settings() == other.settings()
        &&& self.timestamps() == other.timestamps()
        &&& self.system_gid_mapping() == other.system_gid_mapping()
        &&& self.default_privileges() == other.default_privileges()
        &&& self.system_privileges() == other.system_privileges()
        &&& self.audit_log() == other.audit_log()
        &&& self.storage_usage() == other.storage_usage()
        &&& self.timeout() == other.timeout()
    }

    /// Every part of the transaction other than the default privileges
    /// ledger is unchanged.
    pub open spec fn same_except_default_privileges(self, other: Self) -> bool {
        &&& self.databases() == other.databases()
        &&& self.schemas() == other.schemas()
        &&& self.items() == other.items()
        &&& self.comments() == other.comments()
        &&& self.roles() == other.roles()
        &&& self.clusters() == other.clusters()
        &&& self.cluster_replicas() == other.cluster_replicas()
        &&& self.introspection_sources() == other.introspection_sources()
        &&& self.id_allocator() == other.id_allocator()
        &&& self.configs() == other.configs()
        &&& self.settings() == other.settings()
        &&& self.timestamps() == other.timestamps()
        &&& self.system_gid_mapping() == other.system_gid_mapping()
        &&& self.system_configurations() == other.system_configurations()
        &&& self.system_privileges() == other.system_privileges()
        &&& self.audit_log() == other.audit_log()
        &&& self.storage_usage() == other.storage_usage()
        &&& self.timeout() == other.timeout()
    }

    /// Every part of the transaction other than the system privileges
    /// ledger is unchanged.
    pub open spec fn same_except_system_privileges(self, other: Self) -> bool {
        &&& self.databases() == other.databases()
        &&& self.schemas() == other.schemas()
        &&& self.items() == other.items()
        &&& self.comments() == other.comments()
        &&& self.roles() == other.roles()
        &&& self.clusters() == other.clusters()
        &&& self.cluster_replicas() == other.cluster_replicas()
        &&& self.introspection_sources() == other.introspection_sources()
        &&& self.id_allocator() == other.id_allocator()
        &&& self.configs() == other.configs()
        &&& self.settings() == other.settings()
        &&& self.timestamps() == other.timestamps()
        &&& self.system_gid_mapping() == other.system_gid_mapping()
        &&& self.system_configurations() == other.system_configurations()
        &&& self.default_privileges() == other.default_privileges()
        &&& self.audit_log() == other.audit_log()
        &&& self.storage_usage() == other.storage_usage()
        &&& self.timeout() == other.timeout()
    }

    /// Every part other than the cluster, replica and introspection source
    /// ledgers is unchanged.
    pub open spec fn same_except_cluster_family(self, other: Self) -> bool {
        &&& self.databases() == other.databases()
        &&& self.schemas() == other.schemas()
        &&& self.items() == other.items()
        &&& self.comments() == other.comments()
        &&& self.roles() == other.roles()
        &&& self.id_allocator() == other.id_allocator()
        &&& self.configs() == other.configs()
        &&& self.settings() == other.settings()
        &&& self.timestamps() == other.timestamps()
        &&& self.system_gid_mapping() == other.system_gid_mapping()
        &&& self.system_configurations() == other.system_configurations()
        &&& self.default_privileges() == other.default_privileges()
        &&& self.system_privileges() == other.system_privileges()
        &&& self.audit_log() == other.audit_log()
        &&& self.storage_usage() == other.storage_usage()
        &&& self.timeout() == other.timeout()
    }

    /// Every part other than the databases and id allocator
    /// ledgers is unchanged.
    pub open spec fn same_except_databases_and_id_allocator(self, other: Self) -> bool {
        &&& self.schemas() == other.schemas()
        &&& self.items() == other.items()
        &&& self.comments() == other.comments()
        &&& self.roles() == other.roles()
        &&& self.clusters() == other.clusters()
        &&& self.cluster_replicas() == other.cluster_replicas()
        &&& self.introspection_sources() == other.introspection_sources()
        &&& self.configs() == other.configs()
        &&& self.settings() == other.settings()
        &&& self.timestamps() == other.timestamps()
        &&& self.system_gid_mapping() == other.system_gid_mapping()
        &&& self.system_configurations() == other.system_configurations()
        &&& self.default_privileges() == other.default_privileges()
        &&& self.system_privileges() == other.system_privileges()
        &&& self.audit_log() == other.audit_log()
        &&& self.storage_usage() == other.storage_usage()
        &&& self.timeout() == other.timeout()
    }

    /// Every part other than the schemas and id allocator
    /// ledgers is unchanged.
    pub open spec fn same_except_schemas_and_id_allocator(self, other: Self) -> bool {
        &&& self.databases() == other.databases()
        &&& self.items() == other.items()
        &&& self.comments() == other.comments()
        &&& self.roles() == other.roles()
        &&& self.clusters() == other.clusters()
        &&& self.cluster_replicas() == other.cluster_replicas()
        &&& self.introspection_sources() == other.introspection_sources()
        &&& self.configs() == other.configs()
        &&& self.settings() == other.settings()
        &&& self.timestamps() == other.timestamps()
        &&& self.system_gid_mapping() == other.system_gid_mapping()
        &&& self.system_configurations() == other.system_configurations()
        &&& self.default_privileges() == other.default_privileges()
        &&& self.system_privileges() == other.system_privileges()
        &&& self.audit_log() == other.audit_log()
        &&& self.storage_usage() == other.storage_usage()
        &&& self.timeout() == other.timeout()
    }

    /// Every part other than the roles and id allocator
    /// ledgers is unchanged.
    pub open spec fn same_except_roles_and_id_allocator(self, other: Self) -> bool {
        &&& self.databases() == other.databases()
        &&& self.schemas() == other.schemas()
        &&& self.items() == other.items()
        &&& self.comments() == other.comments()
        &&& self.clusters() == other.clusters()
        &&& self.cluster_replicas() == other.cluster_replicas()
        &&& self.introspection_sources() == other.introspection_sources()
        &&& self.configs() == other.configs()
        &&& self.settings() == other.settings()
        &&& self.timestamps() == other.timestamps()
        &&& self.system_gid_mapping() == other.system_gid_mapping()
        &&& self.system_configurations() == other.system_configurations()
        &&& self.default_privileges() == other.default_privileges()
        &&& self.system_privileges() == other.system_privileges()
        &&& self.audit_log() == other.audit_log()
        &&& self.storage_usage() == other.storage_usage()
        &&& self.timeout() == other.timeout()
    }

    /// Every part other than the audit log is unchanged.
    pub open spec fn same_except_audit_log(self, other: Self) -> bool {
        &&& self.databases() == other.databases()
        &&& self.schemas() == other.schemas()
        &&& self.items() == other.items()
        &&& self.comments() == other.comments()
        &&& self.roles() == other.roles()
        &&& self.clusters() == other.clusters()
        &&& self.cluster_replicas() == other.cluster_replicas()
        &&& self.introspection_sources() == other.introspection_sources()
        &&& self.id_allocator() == other.id_allocator()
        &&& self.configs() == other.configs()
        &&& self.settings() == other.settings()
        &&& self.timestamps() == other.timestamps()
        &&& self.system_gid_mapping() == other.system_gid_mapping()
        &&& self.system_configurations() == other.system_configurations()
        &&& self.default_privileges() == other.default_privileges()
        &&& self.system_privileges() == other.system_privileges()
        &&& self.storage_usage() == other.storage_usage()
        &&& self.timeout() == other.timeout()
    }

    /// Every part other than the storage usage is unchanged.
    pub open spec fn same_except_storage_usage(self, other: Self) -> bool {
        &&& self.databases() == other.databases()
        &&& self.schemas() == other.schemas()
        &&& self.items() == other.items()
        &&& self.comments() == other.comments()
        &&& self.roles() == other.roles()
        &&& self.clusters() == other.clusters()
        &&& self.cluster_replicas() == other.cluster_replicas()
        &&& self.introspection_sources() == other.introspection_sources()
        &&& self.id_allocator() == other.id_allocator()
        &&& self.configs() == other.configs()
        &&& self.settings() == other.settings()
        &&& self.timestamps() == other.timestamps()
        &&& self.system_gid_mapping() == other.system_gid_mapping()
        &&& self.system_configurations() == other.system_configurations()
        &&& self.default_privileges() == other.default_privileges()
        &&& self.system_privileges() == other.system_privileges()
        &&& self.audit_log() == other.audit_log()
        &&& self.timeout() == other.timeout()
    }

    /// Every part other than the timeout is unchanged.
    pub open spec fn same_except_timeout(self, other: Self) -> bool {
        &&& self.databases() == other.databases()
        &&& self.schemas() == other.schemas()
        &&& self.items() == other.items()
        &&& self.comments() == other.comments()
        &&& self.roles() == other.roles()
        &&& self.clusters() == other.clusters()
        &&& self.cluster_replicas() == other.cluster_replicas()
        &&& self.introspection_sources() == other.introspection_sources()
        &&& self.id_allocator() == other.id_allocator()
        &&& self.configs() == other.configs()
        &&& self.settings() == other.settings()
        &&& self.timestamps() == other.timestamps()
        &&& self.system_gid_mapping() == other.system_gid_mapping()
        &&& self.system_configurations() == other.system_configurations()
        &&& self.default_privileges() == other.default_privileges()
        &&& self.system_privileges() == other.system_privileges()
        &&& self.audit_log() == other.audit_log()
        &&& self.storage_usage() == other.storage_usage()
    }

    /// Builds a transaction over a snapshot. Fails with a uniqueness
    /// violation if any table of the snapshot holds a duplicate key or two
    /// rows that its uniqueness strategy counts as colliding.
    pub fn new(snapshot: Snapshot) -> (r: Result<Transaction, CatalogError>)
        ensures
            match r {
                Ok(t) => {
                    &&& snapshot_ok(snapshot)
                    &&& t.wf()
                    &&& t.databases().live() == map_of(views_of(snapshot.databases@))
                    &&& t.databases().base() == t.databases().live()
                    &&& t.schemas().live() == map_of(views_of(snapshot.schemas@))
                    &&& t.schemas().base() == t.schemas().live()
                    &&& t.items().live() == map_of(views_of(snapshot.items@))
                    &&& t.items().base() == t.items().live()
                    &&& t.comments().live() == map_of(views_of(snapshot.comments@))
                    &&& t.comments().base() == t.comments().live()
                    &&& t.roles().live() == map_of(views_of(snapshot.roles@))
                    &&& t.roles().base() == t.roles().live()
                    &&& t.clusters().live() == map_of(views_of(snapshot.clusters@))
                    &&& t.clusters().base() == t.clusters().live()
                    &&& t.cluster_replicas().live() == map_of(views_of(snapshot.cluster_replicas@))
                    &&& t.cluster_replicas().base() == t.cluster_replicas().live()
                    &&& t.introspection_sources().live() == map_of(views_of(snapshot.introspection_sources@))
                    &&& t.introspection_sources().base() == t.introspection_sources().live()
                    &&& t.id_allocator().live() == map_of(views_of(snapshot.id_allocator@))
                    &&& t.id_allocator().base() == t.id_allocator().live()
                    &&& t.configs().live() == map_of(views_of(snapshot.configs@))
                    &&& t.configs().base() == t.configs().live()
                    &&& t.settings().live() == map_of(views_of(snapshot.settings@))
                    &&& t.settings().base() == t.settings().live()
                    &&& t.timestamps().live() == map_of(views_of(snapshot.timestamps@))
                    &&& t.timestamps().base() == t.timestamps().live()
                    &&& t.system_gid_mapping().live() == map_of(views_of(snapshot.system_object_mappings@))
                    &&& t.system_gid_mapping().base() == t.system_gid_mapping().live()
                    &&& t.system_configurations().live() == map_of(views_of(snapshot.system_configurations@))
                    &&& t.system_configurations().base() == t.system_configurations().live()
                    &&& t.default_privileges().live() == map_of(views_of(snapshot.default_privileges@))
                    &&& t.default_privileges().base() == t.default_privileges().live()
                    &&& t.system_privileges().live() == map_of(views_of(snapshot.system_privileges@))
                    &&& t.system_privileges().base() == t.system_privileges().live()
                    &&& t.audit_log() == Seq::<(AuditLogKey, i64)>::empty()
                    &&& t.storage_usage() == Seq::<(StorageUsageKey, i64)>::empty()
                    &&& t.timeout() is None
                },
                Err(e) => !snapshot_ok(snapshot) && e == CatalogError::UniquenessViolation,
            },
    {
        let databases = match VersionedTable::new(snapshot.databases, DatabaseNameConflict) {
            Ok(t) => t,
            Err(_) => {
                return Err(CatalogError::UniquenessViolation);
            },
        };
        let schemas = match VersionedTable::new(snapshot.schemas, SchemaNameConflict) {
            Ok(t) => t,
            Err(_) => {
                return Err(CatalogError::UniquenessViolation);
            },
        };
        let items = match VersionedTable::new(snapshot.items, ItemNameConflict) {
            Ok(t) => t,
            Err(_) => {
                return Err(CatalogError::UniquenessViolation);
            },
        };
        let comments = match VersionedTable::new(snapshot.comments, NoConflict) {
            Ok(t) => t,
            Err(_) => {
                return Err(CatalogError::UniquenessViolation);
            },
        };
        let roles = match VersionedTable::new(snapshot.roles, RoleNameConflict) {
            Ok(t) => t,
            Err(_) => {
                return Err(CatalogError::UniquenessViolation);
            },
        };
        let clusters = match VersionedTable::new(snapshot.clusters, ClusterNameConflict) {
            Ok(t) => t,
            Err(_) => {
                return Err(CatalogError::UniquenessViolation);
            },
        };
        let cluster_replicas = match VersionedTable::new(snapshot.cluster_replicas, ReplicaNameConflict) {
            Ok(t) => t,
            Err(_) => {
                return Err(CatalogError::UniquenessViolation);
            },
        };
        let introspection_sources = match VersionedTable::new(snapshot.introspection_sources, NoConflict) {
            Ok(t) => t,
            Err(_) => {
                return Err(CatalogError::UniquenessViolation);
            },
        };
        let id_allocator = match VersionedTable::new(snapshot.id_allocator, NoConflict) {
            Ok(t) => t,
            Err(_) => {
                return Err(CatalogError::UniquenessViolation);
            },
        };
        let configs = match VersionedTable::new(snapshot.configs, NoConflict) {
            Ok(t) => t,
            Err(_) => {
                return Err(CatalogError::UniquenessViolation);
            },
        };
        let settings = match VersionedTable::new(snapshot.settings, NoConflict) {
            Ok(t) => t,
            Err(_) => {
                return Err(CatalogError::UniquenessViolation);
            },
        };
        let timestamps = match VersionedTable::new(snapshot.timestamps, NoConflict) {
            Ok(t) => t,
            Err(_) => {
                return Err(CatalogError::UniquenessViolation);
            },
        };
        let system_gid_mapping = match VersionedTable::new(snapshot.system_object_mappings, NoConflict) {
            Ok(t) => t,
            Err(_) => {
                return Err(CatalogError::UniquenessViolation);
            },
        };
        let system_configurations = match VersionedTable::new(snapshot.system_configurations, NoConflict) {
            Ok(t) => t,
            Err(_) => {
                return Err(CatalogError::UniquenessViolation);
            },
        };
        let default_privileges = match VersionedTable::new(snapshot.default_privileges, NoConflict) {
            Ok(t) => t,
            Err(_) => {
                return Err(CatalogError::UniquenessViolation);
            },
        };
        let system_privileges = match VersionedTable::new(snapshot.system_privileges, NoConflict) {
            Ok(t) => t,
            Err(_) => {
                return Err(CatalogError::UniquenessViolation);
            },
        };
        Ok(Transaction {
            databases,
            schemas,
            items,
            comments,
            roles,
            clusters,
            cluster_replicas,
            introspection_sources,
            id_allocator,
            configs,
            settings,
            timestamps,
            system_gid_mapping,
            system_configurations,
            default_privileges,
            system_privileges,
            audit_log_updates: Vec::new(),
            storage_usage_updates: Vec::new(),
            connection_timeout: None,
        })
    }

    /// Appends an audit event to the audit log with diff `+1`.
    pub fn insert_audit_log_event(&mut self, event: VersionedEvent)
        ensures
            final(self).same_except_audit_log(*old(self)),
            final(self).audit_log() == old(self).audit_log().push(
                (AuditLogKey { event }, 1i64),
            ),
            final(self).wf() == old(self).wf(),
    {
        self.audit_log_updates.push((AuditLogKey { event }, 1i64));
    }

    /// Appends a storage usage event to the usage log with diff `+1`.
    pub fn insert_storage_usage_event(&mut self, metric: VersionedStorageUsage)
        ensures
            final(self).same_except_storage_usage(*old(self)),
            final(self).storage_usage() == old(self).storage_usage().push(
                (StorageUsageKey { metric }, 1i64),
            ),
            final(self).wf() == old(self).wf(),
    {
        self.storage_usage_updates.push((StorageUsageKey { metric }, 1i64));
    }

    /// Appends a retraction (diff `-1`) of every given storage usage event.
    pub fn remove_storage_usage_events(&mut self, events: Vec<VersionedStorageUsage>)
        ensures
            final(self).same_except_storage_usage(*old(self)),
            final(self).storage_usage().len() == old(self).storage_usage().len()
                + events@.len(),
            forall|i: int|
                0 <= i < old(self).storage_usage().len() ==> final(self).storage_usage()[i]
                    == old(self).storage_usage()[i],
            forall|i: int|
                0 <= i < events@.len() ==> #[trigger] final(self).storage_usage()[old(
                    self,
                ).storage_usage().len() + i] == (StorageUsageKey { metric: events@[i] }, -1i64),
            final(self).wf() == old(self).wf(),
    {
        let mut events = events;
        let ghost evs = events@;
        let ghost n0 = self.storage_usage_updates@.len();
        while events.len() > 0
            invariant
                events@.len() <= evs.len(),
                events@ == evs.subrange(evs.len() - events@.len(), evs.len() as int),
                self.storage_usage_updates@.len() == n0 + evs.len() - events@.len(),
                n0 == old(self).storage_usage_updates@.len(),
                self.databases == old(self).databases,
                self.schemas == old(self).schemas,
                self.items == old(self).items,
                self.comments == old(self).comments,
                self.roles == old(self).roles,
                self.clusters == old(self).clusters,
                self.cluster_replicas == old(self).cluster_replicas,
                self.introspection_sources == old(self).introspection_sources,
                self.id_allocator == old(self).id_allocator,
                self.configs == old(self).configs,
                self.settings == old(self).settings,
                self.timestamps == old(self).timestamps,
                self.system_gid_mapping == old(self).system_gid_mapping,
                self.system_configurations == old(self).system_configurations,
                self.default_privileges == old(self).default_privileges,
                self.system_privileges == old(self).system_privileges,
                self.audit_log_updates == old(self).audit_log_updates,
                self.connection_timeout == old(self).connection_timeout,
                forall|j: int|
                    0 <= j < n0 ==> self.storage_usage_updates@[j] == old(
                        self,
                    ).storage_usage_updates@[j],
                forall|j: int|
                    0 <= j < evs.len() - events@.len() ==> #[trigger] self.storage_usage_updates@[n0
                        + j] == (StorageUsageKey { metric: evs[j] }, -1i64),
            decreases events@.len(),
        {
            let ghost done = evs.len() - events@.len();
            let ghost pre = events@;
            proof {
                assert(pre[0] == evs.subrange(done, evs.len() as int)[0]);
            }
            let ev = events.remove(0);
            proof {
                assert(pre == evs.subrange(done, evs.len() as int));
                assert(events@ == pre.remove(0));
                pre.remove_ensures(0);
                assert forall|j: int| 0 <= j < events@.len() implies events@[j] == evs[done + 1
                    + j] by {
                    assert(events@[j] == pre.remove(0)[j]);
                    assert(pre.remove(0)[j] == pre[j + 1]);
                    assert(pre[j + 1] == evs.subrange(done, evs.len() as int)[j + 1]);
                    assert(evs.subrange(done, evs.len() as int)[j + 1] == evs[done + j + 1]);
                    assert(evs[done + j + 1] == evs[done + 1 + j]);
                }
                assert(events@ =~= evs.subrange(done + 1, evs.len() as int));
            }
            self.storage_usage_updates.push((StorageUsageKey { metric: ev }, -1i64));
        }
        proof {
            assert(evs.subrange(evs.len() - 0, evs.len() as int).len() == 0);
        }
    }

    /// Records a timeout hint, in milliseconds, for the durable commit.
    pub fn set_connection_timeout(&mut self, timeout_ms: u64)
        ensures
            final(self).same_except_timeout(*old(self)),
            final(self).timeout() == Some(timeout_ms),
            final(self).wf() == old(self).wf(),
    {
        self.connection_timeout = Some(timeout_ms);
    }

    /// Hands out `amount` fresh contiguous ids from the named counter and
    /// advances it; the counter must exist. Fails without changing the
    /// counter if it would overflow.
    pub fn get_and_increment_id_by(&mut self, key: String, amount: u64) -> (r: Result<
        Vec<u64>,
        CatalogError,
    >)
        requires
            old(self).wf(),
            old(self).id_allocator().live().contains_key(key@),
        ensures
            final(self).wf(),
            final(self).same_except_id_allocator(*old(self)),
            final(self).id_allocator().base() == old(self).id_allocator().base(),
            ({
                let cur = old(self).id_allocator().live()[key@].next_id;
                match r {
                    Ok(ids) => {
                        &&& cur + amount <= u64::MAX
                        &&& ids@.len() == amount
                        &&& forall|i: int| 0 <= i < amount ==> ids@[i] == cur + i
                        &&& final(self).id_allocator().live() == old(
                            self,
                        ).id_allocator().live().insert(
                            key@,
                            IdAllocValue { next_id: (cur + amount) as u64 },
                        )
                    },
                    Err(e) => {
                        &&& e == CatalogError::IdExhaustion
                        &&& cur + amount > u64::MAX
                        &&& *final(self) == *old(self)
                    },
                }
            }),
    {
        let lookup = IdAllocKey { name: key.clone() };
        let current: u64 = match self.id_allocator.get(&lookup) {
            Some(v) => v.next_id,
            None => {
                proof {
                    assert(false);
                }
                0
            },
        };
        let next: u64 = match current.checked_add(amount) {
            Some(n) => n,
            None => {
                return Err(CatalogError::IdExhaustion);
            },
        };
        match self.id_allocator.set(IdAllocKey { name: key }, Some(IdAllocValue { next_id: next })) {
            Ok(_) => {},
            Err(_) => {
                proof {
                    assert(false);
                }
                return Err(CatalogError::UniquenessViolation);
            },
        }
        let mut ids: Vec<u64> = Vec::new();
        let mut c: u64 = current;
        while c < next
            invariant
                current <= c <= next,
                ids@.len() == c - current,
                forall|i: int| 0 <= i < ids@.len() ==> ids@[i] == current + i,
            decreases next - c,
        {
            ids.push(c);
            c = c + 1;
        }
        Ok(ids)
    }

    /// Hands out one fresh id from the named counter; the counter must
    /// exist. Fails without changing the counter if it would overflow.
    pub fn get_and_increment_id(&mut self, key: String) -> (r: Result<u64, CatalogError>)
        requires
            old(self).wf(),
            old(self).id_allocator().live().contains_key(key@),
        ensures
            final(self).wf(),
            final(self).same_except_id_allocator(*old(self)),
            final(self).id_allocator().base() == old(self).id_allocator().base(),
            ({
                let cur = old(self).id_allocator().live()[key@].next_id;
                match r {
                    Ok(id) => {
                        &&& cur + 1 <= u64::MAX
                        &&& id == cur
                        &&& final(self).id_allocator().live() == old(
                            self,
                        ).id_allocator().live().insert(
                            key@,
                            IdAllocValue { next_id: (cur + 1) as u64 },
                        )
                    },
                    Err(e) => {
                        &&& e == CatalogError::IdExhaustion
                        &&& cur + 1 > u64::MAX
                        &&& *final(self) == *old(self)
                    },
                }
            }),
    {
        match self.get_and_increment_id_by(key, 1) {
            Ok(ids) => Ok(ids[0]),
            Err(e) => Err(e),
        }
    }

    /// Creates a named id counter starting at `next_id`. Fails if a counter
    /// of that name already exists.
    pub(crate) fn insert_id_allocator(&mut self, name: String, next_id: u64) -> (r: Result<
        (),
        CatalogError,
    >)
        requires
            old(self).wf(),
        ensures
            final(self).wf(),
            final(self).same_except_id_allocator(*old(self)),
            final(self).id_allocator().base() == old(self).id_allocator().base(),
            match r {
                Ok(_) => {
                    &&& !old(self).id_allocator().live().contains_key(name@)
                    &&& final(self).id_allocator().live() == old(
                        self,
                    ).id_allocator().live().insert(name@, IdAllocValue { next_id })
                },
                Err(e) => {
                    &&& *final(self) == *old(self)
                    &&& old(self).id_allocator().live().contains_key(name@)
                    &&& e is IdAllocatorAlreadyExists
                    &&& e->IdAllocatorAlreadyExists_0@ == name@
                },
            },
    {
        let key_name = name.clone();
        match self.id_allocator.insert(IdAllocKey { name }, IdAllocValue { next_id }) {
            Ok(_) => Ok(()),
            Err(_) => Err(CatalogError::IdAllocatorAlreadyExists(key_name)),
        }
    }

    /// Inserts a database row under the given id. Fails exactly when the id
    /// is taken or the name is already in use.
    pub(crate) fn insert_database(
        &mut self,
        id: DatabaseId,
        database_name: &str,
        owner_id: RoleId,
        privileges: Vec<AclItem>,
    ) -> (r: Result<(), CatalogError>)
        requires
            old(self).wf(),
        ensures
            final(self).wf(),
            final(self).same_except_databases(*old(self)),
            final(self).databases().base() == old(self).databases().base(),
            ({
                let value = DatabaseValueView {
                    name: database_name@,
                    owner_id,
                    privileges: privileges@,
                };
                match r {
                    Ok(_) => {
                        &&& old(self).databases().may_insert(DatabaseKey { id }, value)
                        &&& final(self).databases().live() == old(self).databases().live().insert(
                            DatabaseKey { id },
                            value,
                        )
                    },
                    Err(e) => {
                        &&& *final(self) == *old(self)
                        &&& !old(self).databases().may_insert(DatabaseKey { id }, value)
                        &&& e is DatabaseAlreadyExists
                        &&& e->DatabaseAlreadyExists_0@ == database_name@
                    },
                }
            }),
    {
        match self.databases.insert(
            DatabaseKey { id },
            DatabaseValue { name: database_name.to_string(), owner_id, privileges },
        ) {
            Ok(_) => Ok(()),
            Err(_) => Err(CatalogError::DatabaseAlreadyExists(database_name.to_string())),
        }
    }

    /// Creates a user database under a freshly allocated id. The database id
    /// counter must exist. On a name collision the id allocation keeps its
    /// effect inside the transaction buffer.
    pub fn insert_user_database(
        &mut self,
        database_name: &str,
        owner_id: RoleId,
        privileges: Vec<AclItem>,
    ) -> (r: Result<DatabaseId, CatalogError>)
        requires
            old(self).wf(),
            old(self).id_allocator().live().contains_key(spec_database_id_alloc_key()),
        ensures
            final(self).wf(),
            final(self).same_except_databases_and_id_allocator(*old(self)),
            final(self).databases().base() == old(self).databases().base(),
            final(self).id_allocator().base() == old(self).id_allocator().base(),
            ({
                let cur = old(self).id_allocator().live()[spec_database_id_alloc_key()].next_id;
                let value = DatabaseValueView {
                    name: database_name@,
                    owner_id,
                    privileges: privileges@,
                };
                let bumped = old(self).id_allocator().live().insert(
                    spec_database_id_alloc_key(),
                    IdAllocValue { next_id: (cur + 1) as u64 },
                );
                match r {
                    Ok(id) => {
                        &&& cur + 1 <= u64::MAX
                        &&& id == DatabaseId::User(cur)
                        &&& final(self).id_allocator().live() == bumped
                        &&& old(self).databases().may_insert(DatabaseKey { id }, value)
                        &&& final(self).databases().live() == old(self).databases().live().insert(
                            DatabaseKey { id },
                            value,
                        )
                    },
                    Err(e) => {
                        ||| {
                            &&& e == CatalogError::IdExhaustion
                            &&& cur + 1 > u64::MAX
                            &&& *final(self) == *old(self)
                        }
                        ||| {
                            &&& e is DatabaseAlreadyExists
                            &&& e->DatabaseAlreadyExists_0@ == database_name@
                            &&& cur + 1 <= u64::MAX
                            &&& !old(self).databases().may_insert(
                                DatabaseKey { id: DatabaseId::User(cur) },
                                value,
                            )
                            &&& final(self).id_allocator().live() == bumped
                            &&& final(self).databases() == old(self).databases()
                        }
                    },
                }
            }),
    {
        let id_num = match self.get_and_increment_id(database_id_alloc_key().to_string()) {
            Ok(n) => n,
            Err(e) => {
                return Err(e);
            },
        };
        let id = DatabaseId::User(id_num);
        match self.insert_database(id, database_name, owner_id, privileges) {
            Ok(_) => Ok(id),
            Err(e) => Err(e),
        }
    }

    /// Inserts a schema row under the given id. Fails exactly when the id is
    /// taken or the name is already in use inside the same database.
    pub(crate) fn insert_schema(
        &mut self,
        schema_id: SchemaId,
        database_id: Option<DatabaseId>,
        schema_name: String,
        owner_id: RoleId,
        privileges: Vec<AclItem>,
    ) -> (r: Result<(), CatalogError>)
        requires
            old(self).wf(),
        ensures
            final(self).wf(),
            final(self).same_except_schemas(*old(self)),
            final(self).schemas().base() == old(self).schemas().base(),
            ({
                let value = SchemaValueView {
                    database_id,
                    name: schema_name@,
                    owner_id,
                    privileges: privileges@,
                };
                match r {
                    Ok(_) => {
                        &&& old(self).schemas().may_insert(SchemaKey { id: schema_id }, value)
                        &&& final(self).schemas().live() == old(self).schemas().live().insert(
                            SchemaKey { id: schema_id },
                            value,
                        )
                    },
                    Err(e) => {
                        &&& *final(self) == *old(self)
                        &&& !old(self).schemas().may_insert(SchemaKey { id: schema_id }, value)
                        &&& e is SchemaAlreadyExists
                        &&& e->SchemaAlreadyExists_0@ == schema_name@
                    },
                }
            }),
    {
        let err_name = schema_name.clone();
        match self.schemas.insert(
            SchemaKey { id: schema_id },
            SchemaValue { database_id, name: schema_name, owner_id, privileges },
        ) {
            Ok(_) => Ok(()),
            Err(_) => Err(CatalogError::SchemaAlreadyExists(err_name)),
        }
    }

    /// Inserts a system schema row under the given id.
    pub fn insert_system_schema(
        &mut self,
        id: SchemaId,
        schema_name: &str,
        owner_id: RoleId,
        privileges: Vec<AclItem>,
    ) -> (r: Result<SchemaId, CatalogError>)
        requires
            old(self).wf(),
        ensures
            final(self).wf(),
            final(self).same_except_schemas(*old(self)),
            final(self).schemas().base() == old(self).schemas().base(),
            ({
                let value = SchemaValueView {
                    database_id: None,
                    name: schema_name@,
                    owner_id,
                    privileges: privileges@,
                };
                match r {
                    Ok(rid) => {
                        &&& rid == id
                        &&& old(self).schemas().may_insert(SchemaKey { id }, value)
                        &&& final(self).schemas().live() == old(self).schemas().live().insert(
                            SchemaKey { id },
                            value,
                        )
                    },
                    Err(e) => {
                        &&& *final(self) == *old(self)
                        &&& !old(self).schemas().may_insert(SchemaKey { id }, value)
                        &&& e is SchemaAlreadyExists
                        &&& e->SchemaAlreadyExists_0@ == schema_name@
                    },
                }
            }),
    {
        match self.insert_schema(id, None, schema_name.to_string(), owner_id, privileges) {
            Ok(_) => Ok(id),
            Err(e) => Err(e),
        }
    }

    /// Creates a user schema under a freshly allocated id inside the given
    /// database. The schema id counter must exist.
    pub fn insert_user_schema(
        &mut self,
        database_id: DatabaseId,
        schema_name: &str,
        owner_id: RoleId,
        privileges: Vec<AclItem>,
    ) -> (r: Result<SchemaId, CatalogError>)
        requires
            old(self).wf(),
            old(self).id_allocator().live().contains_key(spec_schema_id_alloc_key()),
        ensures
            final(self).wf(),
            final(self).same_except_schemas_and_id_allocator(*old(self)),
            final(self).schemas().base() == old(self).schemas().base(),
            final(self).id_allocator().base() == old(self).id_allocator().base(),
            ({
                let cur = old(self).id_allocator().live()[spec_schema_id_alloc_key()].next_id;
                let value = SchemaValueView {
                    database_id: Some(database_id),
                    name: schema_name@,
                    owner_id,
                    privileges: privileges@,
                };
                let bumped = old(self).id_allocator().live().insert(
                    spec_schema_id_alloc_key(),
                    IdAllocValue { next_id: (cur + 1) as u64 },
                );
                match r {
                    Ok(id) => {
                        &&& cur + 1 <= u64::MAX
                        &&& id == SchemaId::User(cur)
                        &&& final(self).id_allocator().live() == bumped
                        &&& old(self).schemas().may_insert(SchemaKey { id }, value)
                        &&& final(self).schemas().live() == old(self).schemas().live().insert(
                            SchemaKey { id },
                            value,
                        )
                    },
                    Err(e) => {
                        ||| {
                            &&& e == CatalogError::IdExhaustion
                            &&& cur + 1 > u64::MAX
                            &&& *final(self) == *old(self)
                        }
                        ||| {
                            &&& e is SchemaAlreadyExists
                            &&& e->SchemaAlreadyExists_0@ == schema_name@
                            &&& cur + 1 <= u64::MAX
                            &&& !old(self).schemas().may_insert(
                                SchemaKey { id: SchemaId::User(cur) },
                                value,
                            )
                            &&& final(self).id_allocator().live() == bumped
                            &&& final(self).schemas() == old(self).schemas()
                        }
                    },
                }
            }),
    {
        let id_num = match self.get_and_increment_id(schema_id_alloc_key().to_string()) {
            Ok(n) => n,
            Err(e) => {
                return Err(e);
            },
        };
        let id = SchemaId::User(id_num);
        match self.insert_schema(
            id,
            Some(database_id),
            schema_name.to_string(),
            owner_id,
            privileges,
        ) {
            Ok(_) => Ok(id),
            Err(e) => Err(e),
        }
    }

    /// Inserts a role row under the given id. Fails exactly when the id is
    /// taken or the name is already in use.
    pub(crate) fn insert_role(
        &mut self,
        id: RoleId,
        name: String,
        attributes: RoleAttributes,
        membership: RoleMembership,
        vars: RoleVars,
    ) -> (r: Result<(), CatalogError>)
        requires
            old(self).wf(),
        ensures
            final(self).wf(),
            final(self).same_except_roles(*old(self)),
            final(self).roles().base() == old(self).roles().base(),
            ({
                let value = RoleValueView {
                    name: name@,
                    attributes,
                    membership: membership.map@,
                    vars: crate::objects::string_pair_views(vars.vars@),
                };
                match r {
                    Ok(_) => {
                        &&& old(self).roles().may_insert(RoleKey { id }, value)
                        &&& final(self).roles().live() == old(self).roles().live().insert(
                            RoleKey { id },
                            value,
                        )
                    },
                    Err(e) => {
                        &&& *final(self) == *old(self)
                        &&& !old(self).roles().may_insert(RoleKey { id }, value)
                        &&& e is RoleAlreadyExists
                        &&& e->RoleAlreadyExists_0@ == name@
                    },
                }
            }),
    {
        let err_name = name.clone();
        match self.roles.insert(RoleKey { id }, RoleValue { name, attributes, membership, vars }) {
            Ok(_) => Ok(()),
            Err(_) => Err(CatalogError::RoleAlreadyExists(err_name)),
        }
    }

    /// Creates a user role under a freshly allocated id. The user role id
    /// counter must exist.
    pub fn insert_user_role(
        &mut self,
        name: String,
        attributes: RoleAttributes,
        membership: RoleMembership,
        vars: RoleVars,
    ) -> (r: Result<RoleId, CatalogError>)
        requires
            old(self).wf(),
            old(self).id_allocator().live().contains_key(spec_user_role_id_alloc_key()),
        ensures
            final(self).wf(),
            final(self).same_except_roles_and_id_allocator(*old(self)),
            final(self).roles().base() == old(self).roles().base(),
            final(self).id_allocator().base() == old(self).id_allocator().base(),
            ({
                let cur = old(self).id_allocator().live()[spec_user_role_id_alloc_key()].next_id;
                let value = RoleValueView {
                    name: name@,
                    attributes,
                    membership: membership.map@,
                    vars: crate::objects::string_pair_views(vars.vars@),
                };
                let bumped = old(self).id_allocator().live().insert(
                    spec_user_role_id_alloc_key(),
                    IdAllocValue { next_id: (cur + 1) as u64 },
                );
                match r {
                    Ok(id) => {
                        &&& cur + 1 <= u64::MAX
                        &&& id == RoleId::User(cur)
                        &&& final(self).id_allocator().live() == bumped
                        &&& old(self).roles().may_insert(RoleKey { id }, value)
                        &&& final(self).roles().live() == old(self).roles().live().insert(
                            RoleKey { id },
                            value,
                        )
                    },
                    Err(e) => {
                        ||| {
                            &&& e == CatalogError::IdExhaustion
                            &&& cur + 1 > u64::MAX
                            &&& *final(self) == *old(self)
                        }
                        ||| {
                            &&& e is RoleAlreadyExists
                            &&& e->RoleAlreadyExists_0@ == name@
                            &&& cur + 1 <= u64::MAX
                            &&& !old(self).roles().may_insert(
                                RoleKey { id: RoleId::User(cur) },
                                value,
                            )
                            &&& final(self).id_allocator().live() == bumped
                            &&& final(self).roles() == old(self).roles()
                        }
                    },
                }
            }),
    {
        let id_num = match self.get_and_increment_id(user_role_id_alloc_key().to_string()) {
            Ok(n) => n,
            Err(e) => {
                return Err(e);
            },
        };
        let id = RoleId::User(id_num);
        match self.insert_role(id, name, attributes, membership, vars) {
            Ok(_) => Ok(id),
            Err(e) => Err(e),
        }
    }

    /// Inserts an item row under the given id. Fails exactly when the id is
    /// taken or the name is already in use inside the same schema.
    pub fn insert_item(
        &mut self,
        id: GlobalId,
        schema_id: SchemaId,
        item_name: &str,
        create_sql: String,
        owner_id: RoleId,
        privileges: Vec<AclItem>,
    ) -> (r: Result<(), CatalogError>)
        requires
            old(self).wf(),
        ensures
            final(self).wf(),
            final(self).same_except_items(*old(self)),
            final(self).items().base() == old(self).items().base(),
            ({
                let value = ItemValueView {
                    schema_id,
                    name: item_name@,
                    create_sql: create_sql@,
                    owner_id,
                    privileges: privileges@,
                };
                match r {
                    Ok(_) => {
                        &&& old(self).items().may_insert(ItemKey { gid: id }, value)
                        &&& final(self).items().live() == old(self).items().live().insert(
                            ItemKey { gid: id },
                            value,
                        )
                    },
                    Err(e) => {
                        &&& *final(self) == *old(self)
                        &&& !old(self).items().may_insert(ItemKey { gid: id }, value)
                        &&& e is ItemAlreadyExists
                        &&& e->ItemAlreadyExists_0 == id
                        &&& e->ItemAlreadyExists_1@ == item_name@
                    },
                }
            }),
    {
        match self.items.insert(
            ItemKey { gid: id },
            ItemValue {
                schema_id,
                name: item_name.to_string(),
                create_sql,
                owner_id,
                privileges,
            },
        ) {
            Ok(_) => Ok(()),
            Err(_) => Err(CatalogError::ItemAlreadyExists(id, item_name.to_string())),
        }
    }

    /// Inserts a timeline read timestamp. Fails exactly when the timeline
    /// already has one.
    pub fn insert_timestamp(&mut self, timeline: String, ts: u64) -> (r: Result<
        (),
        CatalogError,
    >)
        requires
            old(self).wf(),
        ensures
            final(self).wf(),
            final(self).same_except_timestamps(*old(self)),
            final(self).timestamps().base() == old(self).timestamps().base(),
            match r {
                Ok(_) => {
                    &&& !old(self).timestamps().live().contains_key(timeline@)
                    &&& final(self).timestamps().live() == old(self).timestamps().live().insert(
                        timeline@,
                        TimestampValue { ts },
                    )
                },
                Err(e) => {
                    &&& *final(self) == *old(self)
                    &&& old(self).timestamps().live().contains_key(timeline@)
                    &&& e is TimelineAlreadyExists
                    &&& e->TimelineAlreadyExists_0@ == timeline@
                },
            },
    {
        let err_name = timeline.clone();
        match self.timestamps.insert(TimestampKey { id: timeline }, TimestampValue { ts }) {
            Ok(_) => Ok(()),
            Err(_) => Err(CatalogError::TimelineAlreadyExists(err_name)),
        }
    }

    /// Inserts a config row. Fails exactly when the key already exists.
    pub(crate) fn insert_config(&mut self, key: String, value: u64) -> (r: Result<
        (),
        CatalogError,
    >)
        requires
            old(self).wf(),
        ensures
            final(self).wf(),
            final(self).same_except_configs(*old(self)),
            final(self).configs().base() == old(self).configs().base(),
            match r {
                Ok(_) => {
                    &&& !old(self).configs().live().contains_key(key@)
                    &&& final(self).configs().live() == old(self).configs().live().insert(
                        key@,
                        ConfigValue { value },
                    )
                },
                Err(e) => {
                    &&& *final(self) == *old(self)
                    &&& old(self).configs().live().contains_key(key@)
                    &&& e is ConfigAlreadyExists
                    &&& e->ConfigAlreadyExists_0@ == key@
                },
            },
    {
        let err_name = key.clone();
        match self.configs.insert(ConfigKey { key }, ConfigValue { value }) {
            Ok(_) => Ok(()),
            Err(_) => Err(CatalogError::ConfigAlreadyExists(err_name)),
        }
    }

    /// Allocates `amount` fresh system item ids. The system item id counter
    /// must exist.
    pub fn allocate_system_item_ids(&mut self, amount: u64) -> (r: Result<
        Vec<GlobalId>,
        CatalogError,
    >)
        requires
            old(self).wf(),
            old(self).id_allocator().live().contains_key(spec_system_item_alloc_key()),
        ensures
            final(self).wf(),
            final(self).same_except_id_allocator(*old(self)),
            final(self).id_allocator().base() == old(self).id_allocator().base(),
            ({
                let cur = old(self).id_allocator().live()[spec_system_item_alloc_key()].next_id;
                match r {
                    Ok(ids) => {
                        &&& cur + amount <= u64::MAX
                        &&& ids@.len() == amount
                        &&& forall|i: int|
                            0 <= i < amount ==> ids@[i] == GlobalId::System((cur + i) as u64)
                        &&& final(self).id_allocator().live() == old(
                            self,
                        ).id_allocator().live().insert(
                            spec_system_item_alloc_key(),
                            IdAllocValue { next_id: (cur + amount) as u64 },
                        )
                    },
                    Err(e) => {
                        &&& e == CatalogError::IdExhaustion
                        &&& cur + amount > u64::MAX
                        &&& *final(self) == *old(self)
                    },
                }
            }),
    {
        let nums = match self.get_and_increment_id_by(system_item_alloc_key().to_string(), amount) {
            Ok(ns) => ns,
            Err(e) => {
                return Err(e);
            },
        };
        let mut ids: Vec<GlobalId> = Vec::new();
        let mut i: usize = 0;
        while i < nums.len()
            invariant
                i <= nums@.len(),
                ids@.len() == i,
                forall|j: int| 0 <= j < i ==> ids@[j] == GlobalId::System(nums@[j]),
            decreases nums@.len() - i,
        {
            ids.push(GlobalId::System(nums[i]));
            i += 1;
        }
        Ok(ids)
    }

    /// Allocates `amount` fresh user item ids. The user item id counter must
    /// exist.
    pub fn allocate_user_item_ids(&mut self, amount: u64) -> (r: Result<
        Vec<GlobalId>,
        CatalogError,
    >)
        requires
            old(self).wf(),
            old(self).id_allocator().live().contains_key(spec_user_item_alloc_key()),
        ensures
            final(self).wf(),
            final(self).same_except_id_allocator(*old(self)),
            final(self).id_allocator().base() == old(self).id_allocator().base(),
            ({
                let cur = old(self).id_allocator().live()[spec_user_item_alloc_key()].next_id;
                match r {
                    Ok(ids) => {
                        &&& cur + amount <= u64::MAX
                        &&& ids@.len() == amount
                        &&& forall|i: int|
                            0 <= i < amount ==> ids@[i] == GlobalId::User((cur + i) as u64)
                        &&& final(self).id_allocator().live() == old(
                            self,
                        ).id_allocator().live().insert(
                            spec_user_item_alloc_key(),
                            IdAllocValue { next_id: (cur + amount) as u64 },
                        )
                    },
                    Err(e) => {
                        &&& e == CatalogError::IdExhaustion
                        &&& cur + amount > u64::MAX
                        &&& *final(self) == *old(self)
                    },
                }
            }),
    {
        let nums = match self.get_and_increment_id_by(user_item_alloc_key().to_string(), amount) {
            Ok(ns) => ns,
            Err(e) => {
                return Err(e);
            },
        };
        let mut ids: Vec<GlobalId> = Vec::new();
        let mut i: usize = 0;
        while i < nums.len()
            invariant
                i <= nums@.len(),
                ids@.len() == i,
                forall|j: int| 0 <= j < i ==> ids@[j] == GlobalId::User(nums@[j]),
            decreases nums@.len() - i,
        {
            ids.push(GlobalId::User(nums[i]));
            i += 1;
        }
        Ok(ids)
    }

    /// Inserts a cluster row, then one introspection source index row per
    /// supplied builtin log, all tied to the new cluster id. A failure of
    /// the cluster insert aborts before any introspection row is written.
    /// Every supplied index id must be a system id, the log names must be
    /// distinct, and no introspection row may yet reference the cluster id.
    fn insert_cluster(
        &mut self,
        cluster_id: ClusterId,
        cluster_name: &str,
        linked_object_id: Option<GlobalId>,
        introspection_source_indexes: Vec<(BuiltinLog, GlobalId)>,
        owner_id: RoleId,
        privileges: Vec<AclItem>,
        config: ClusterConfig,
    ) -> (r: Result<(), CatalogError>)
        requires
            old(self).wf(),
            forall|i: int|
                0 <= i < introspection_source_indexes@.len() ==> (
                #[trigger] introspection_source_indexes@[i]).1 is System,
            forall|i: int, j: int|
                0 <= i < j < introspection_source_indexes@.len() ==> (
                #[trigger] introspection_source_indexes@[i]).0.name@ != (
                #[trigger] introspection_source_indexes@[j]).0.name@,
            forall|k: ClusterIntrospectionSourceIndexKeyView| #[trigger]
                old(self).introspection_sources().live().contains_key(k) ==> k.cluster_id
                    != cluster_id,
        ensures
            final(self).wf(),
            final(self).same_except_cluster_family(*old(self)),
            final(self).cluster_replicas() == old(self).cluster_replicas(),
            final(self).clusters().base() == old(self).clusters().base(),
            final(self).introspection_sources().base() == old(
                self,
            ).introspection_sources().base(),
            ({
                let value = ClusterValueView {
                    name: cluster_name@,
                    linked_object_id,
                    owner_id,
                    privileges: privileges@,
                    config: config@,
                };
                match r {
                    Ok(_) => {
                        &&& old(self).clusters().may_insert(ClusterKey { id: cluster_id }, value)
                        &&& final(self).clusters().live() == old(self).clusters().live().insert(
                            ClusterKey { id: cluster_id },
                            value,
                        )
                        &&& final(self).introspection_sources().live() == old(
                            self,
                        ).introspection_sources().live().union_prefer_right(
                            intro_rows(cluster_id, introspection_source_indexes@),
                        )
                    },
                    Err(e) => {
                        &&& *final(self) == *old(self)
                        &&& !old(self).clusters().may_insert(ClusterKey { id: cluster_id }, value)
                        &&& e is ClusterAlreadyExists
                        &&& e->ClusterAlreadyExists_0@ == cluster_name@
                    },
                }
            }),
    {
        match self.clusters.insert(
            ClusterKey { id: cluster_id },
            ClusterValue {
                name: cluster_name.to_string(),
                linked_object_id,
                owner_id,
                privileges,
                config,
            },
        ) {
            Ok(_) => {},
            Err(_) => {
                return Err(CatalogError::ClusterAlreadyExists(cluster_name.to_string()));
            },
        }
        let ghost pairs = introspection_source_indexes@;
        let ghost old_live = self.introspection_sources.live();
        let mut i: usize = 0;
        while i < introspection_source_indexes.len()
            invariant
                self.wf(),
                pairs == introspection_source_indexes@,
                i <= pairs.len(),
                forall|x: int| 0 <= x < pairs.len() ==> (#[trigger] pairs[x]).1 is System,
                forall|x: int, y: int|
                    0 <= x < y < pairs.len() ==> (#[trigger] pairs[x]).0.name@ != (
                    #[trigger] pairs[y]).0.name@,
                forall|k: ClusterIntrospectionSourceIndexKeyView| #[trigger]
                    old_live.contains_key(k) ==> k.cluster_id != cluster_id,
                self.introspection_sources.live() == old_live.union_prefer_right(
                    intro_rows(cluster_id, pairs.take(i as int)),
                ),
                self.introspection_sources.base() == old(self).introspection_sources.base(),
                self.introspection_sources.predicate() == old(
                    self,
                ).introspection_sources.predicate(),
                self.databases == old(self).databases,
                self.schemas == old(self).schemas,
                self.items == old(self).items,
                self.comments == old(self).comments,
                self.roles == old(self).roles,
                self.cluster_replicas == old(self).cluster_replicas,
                self.id_allocator == old(self).id_allocator,
                self.configs == old(self).configs,
                self.settings == old(self).settings,
                self.timestamps == old(self).timestamps,
                self.system_gid_mapping == old(self).system_gid_mapping,
                self.system_configurations == old(self).system_configurations,
                self.default_privileges == old(self).default_privileges,
                self.system_privileges == old(self).system_privileges,
                self.audit_log_updates == old(self).audit_log_updates,
                self.storage_usage_updates == old(self).storage_usage_updates,
                self.connection_timeout == old(self).connection_timeout,
                self.clusters.live() == old(self).clusters.live().insert(
                    ClusterKey { id: cluster_id },
                    ClusterValueView {
                        name: cluster_name@,
                        linked_object_id,
                        owner_id,
                        privileges: privileges@,
                        config: config@,
                    },
                ),
                self.clusters.base() == old(self).clusters.base(),
                self.clusters.predicate() == old(self).clusters.predicate(),
            decreases pairs.len() - i,
        {
            let log_name = introspection_source_indexes[i].0.name.clone();
            let index_id: u64 = match introspection_source_indexes[i].1 {
                GlobalId::System(n) => n,
                GlobalId::User(_) => {
                    proof {
                        assert(false);
                    }
                    0
                },
            };
            let ghost key_v = ClusterIntrospectionSourceIndexKeyView {
                cluster_id,
                name: pairs[i as int].0.name@,
            };
            proof {
                lemma_intro_rows_contains(cluster_id, pairs.take(i as int), key_v);
                if old_live.contains_key(key_v) {
                    assert(false);
                }
                assert(!self.introspection_sources.live().contains_key(key_v));
            }
            match self.introspection_sources.insert(
                ClusterIntrospectionSourceIndexKey { cluster_id, name: log_name },
                ClusterIntrospectionSourceIndexValue { index_id },
            ) {
                Ok(_) => {},
                Err(_) => {
                    proof {
                        assert(false);
                    }
                    return Err(CatalogError::UniquenessViolation);
                },
            }
            proof {
                assert(pairs.take(i + 1 as int).drop_last() =~= pairs.take(i as int));
                assert(pairs.take(i + 1 as int).last() == pairs[i as int]);
                assert(self.introspection_sources.live() =~= old_live.union_prefer_right(
                    intro_rows(cluster_id, pairs.take(i + 1 as int)),
                ));
            }
            i += 1;
        }
        proof {
            assert(pairs.take(pairs.len() as int) =~= pairs);
        }
        Ok(())
    }

    /// Creates a user cluster with its introspection source indexes. Every
    /// supplied index id must be a system id, the log names must be
    /// distinct, and no introspection row may yet reference the cluster id.
    pub fn insert_user_cluster(
        &mut self,
        cluster_id: ClusterId,
        cluster_name: &str,
        linked_object_id: Option<GlobalId>,
        introspection_source_indexes: Vec<(BuiltinLog, GlobalId)>,
        owner_id: RoleId,
        privileges: Vec<AclItem>,
        config: ClusterConfig,
    ) -> (r: Result<(), CatalogError>)
        requires
            old(self).wf(),
            forall|i: int|
                0 <= i < introspection_source_indexes@.len() ==> (
                #[trigger] introspection_source_indexes@[i]).1 is System,
            forall|i: int, j: int|
                0 <= i < j < introspection_source_indexes@.len() ==> (
                #[trigger] introspection_source_indexes@[i]).0.name@ != (
                #[trigger] introspection_source_indexes@[j]).0.name@,
            forall|k: ClusterIntrospectionSourceIndexKeyView| #[trigger]
                old(self).introspection_sources().live().contains_key(k) ==> k.cluster_id
                    != cluster_id,
        ensures
            final(self).wf(),
            final(self).same_except_cluster_family(*old(self)),
            final(self).cluster_replicas() == old(self).cluster_replicas(),
            final(self).clusters().base() == old(self).clusters().base(),
            final(self).introspection_sources().base() == old(
                self,
            ).introspection_sources().base(),
            ({
                let value = ClusterValueView {
                    name: cluster_name@,
                    linked_object_id,
                    owner_id,
                    privileges: privileges@,
                    config: config@,
                };
                match r {
                    Ok(_) => {
                        &&& old(self).clusters().may_insert(ClusterKey { id: cluster_id }, value)
                        &&& final(self).clusters().live() == old(self).clusters().live().insert(
                            ClusterKey { id: cluster_id },
                            value,
                        )
                        &&& final(self).introspection_sources().live() == old(
                            self,
                        ).introspection_sources().live().union_prefer_right(
                            intro_rows(cluster_id, introspection_source_indexes@),
                        )
                    },
                    Err(e) => {
                        &&& *final(self) == *old(self)
                        &&& !old(self).clusters().may_insert(ClusterKey { id: cluster_id }, value)
                        &&& e is ClusterAlreadyExists
                        &&& e->ClusterAlreadyExists_0@ == cluster_name@
                    },
                }
            }),
    {
        self.insert_cluster(
            cluster_id,
            cluster_name,
            linked_object_id,
            introspection_source_indexes,
            owner_id,
            privileges,
            config,
        )
    }

    /// Creates a system cluster, owned by the system role, with its
    /// introspection source indexes. The same preconditions as for a user
    /// cluster apply.
    pub fn insert_system_cluster(
        &mut self,
        cluster_id: ClusterId,
        cluster_name: &str,
        introspection_source_indexes: Vec<(BuiltinLog, GlobalId)>,
        privileges: Vec<AclItem>,
        config: ClusterConfig,
    ) -> (r: Result<(), CatalogError>)
        requires
            old(self).wf(),
            forall|i: int|
                0 <= i < introspection_source_indexes@.len() ==> (
                #[trigger] introspection_source_indexes@[i]).1 is System,
            forall|i: int, j: int|
                0 <= i < j < introspection_source_indexes@.len() ==> (
                #[trigger] introspection_source_indexes@[i]).0.name@ != (
                #[trigger] introspection_source_indexes@[j]).0.name@,
            forall|k: ClusterIntrospectionSourceIndexKeyView| #[trigger]
                old(self).introspection_sources().live().contains_key(k) ==> k.cluster_id
                    != cluster_id,
        ensures
            final(self).wf(),
            final(self).same_except_cluster_family(*old(self)),
            final(self).cluster_replicas() == old(self).cluster_replicas(),
            final(self).clusters().base() == old(self).clusters().base(),
            final(self).introspection_sources().base() == old(
                self,
            ).introspection_sources().base(),
            ({
                let value = ClusterValueView {
                    name: cluster_name@,
                    linked_object_id: None,
                    owner_id: RoleId::System(1),
                    privileges: privileges@,
                    config: config@,
                };
                match r {
                    Ok(_) => {
                        &&& old(self).clusters().may_insert(ClusterKey { id: cluster_id }, value)
                        &&& final(self).clusters().live() == old(self).clusters().live().insert(
                            ClusterKey { id: cluster_id },
                            value,
                        )
                        &&& final(self).introspection_sources().live() == old(
                            self,
                        ).introspection_sources().live().union_prefer_right(
                            intro_rows(cluster_id, introspection_source_indexes@),
                        )
                    },
                    Err(e) => {
                        &&& *final(self) == *old(self)
                        &&& !old(self).clusters().may_insert(ClusterKey { id: cluster_id }, value)
                        &&& e is ClusterAlreadyExists
                        &&& e->ClusterAlreadyExists_0@ == cluster_name@
                    },
                }
            }),
    {
        self.insert_cluster(
            cluster_id,
            cluster_name,
            None,
            introspection_source_indexes,
            crate::ids::system_role_id(),
            privileges,
            config,
        )
    }

    /// Inserts a replica row for an existing cluster. Fails exactly when
    /// the replica id is taken or the cluster already has a replica of that
    /// name; the cluster must exist whenever that failure can occur.
    pub fn insert_cluster_replica(
        &mut self,
        cluster_id: ClusterId,
        replica_id: ReplicaId,
        replica_name: &str,
        config: ReplicaConfig,
        owner_id: RoleId,
    ) -> (r: Result<(), CatalogError>)
        requires
            old(self).wf(),
            old(self).clusters().live().contains_key(ClusterKey { id: cluster_id })
                || old(self).cluster_replicas().may_insert(
                ClusterReplicaKey { id: replica_id },
                ClusterReplicaValueView {
                    cluster_id,
                    name: replica_name@,
                    config: config@,
                    owner_id,
                },
            ),
        ensures
            final(self).wf(),
            final(self).same_except_cluster_replicas(*old(self)),
            final(self).cluster_replicas().base() == old(self).cluster_replicas().base(),
            ({
                let value = ClusterReplicaValueView {
                    cluster_id,
                    name: replica_name@,
                    config: config@,
                    owner_id,
                };
                match r {
                    Ok(_) => {
                        &&& old(self).cluster_replicas().may_insert(
                            ClusterReplicaKey { id: replica_id },
                            value,
                        )
                        &&& final(self).cluster_replicas().live() == old(
                            self,
                        ).cluster_replicas().live().insert(
                            ClusterReplicaKey { id: replica_id },
                            value,
                        )
                    },
                    Err(e) => {
                        &&& *final(self) == *old(self)
                        &&& !old(self).cluster_replicas().may_insert(
                            ClusterReplicaKey { id: replica_id },
                            value,
                        )
                        &&& e is DuplicateReplica
                        &&& e->DuplicateReplica_0@ == replica_name@
                        &&& e->DuplicateReplica_1@ == old(self).clusters().live()[ClusterKey {
                            id: cluster_id,
                        }].name
                    },
                }
            }),
    {
        match self.cluster_replicas.insert(
            ClusterReplicaKey { id: replica_id },
            ClusterReplicaValue {
                cluster_id,
                name: replica_name.to_string(),
                config,
                owner_id,
            },
        ) {
            Ok(_) => Ok(()),
            Err(_) => {
                let cluster_name: String = match self.clusters.get(&ClusterKey {
                    id: cluster_id,
                }) {
                    Some(v) => v.name.clone(),
                    None => {
                        proof {
                            assert(false);
                        }
                        String::new()
                    },
                };
                Err(CatalogError::DuplicateReplica(replica_name.to_string(), cluster_name))
            },
        }
    }

    /// Renames the cluster with the given id. Fails with `UnknownCluster`
    /// when the id is not live, and with `UniquenessViolation` when the new
    /// name is already taken; nothing changes on failure.
    pub fn rename_cluster(
        &mut self,
        cluster_id: ClusterId,
        cluster_name: &str,
        cluster_to_name: &str,
    ) -> (r: Result<(), CatalogError>)
        requires
            old(self).wf(),
        ensures
            final(self).wf(),
            final(self).same_except_clusters(*old(self)),
            final(self).clusters().base() == old(self).clusters().base(),
            ({
                let key = ClusterKey { id: cluster_id };
                let m0 = old(self).clusters().live();
                let nv = ClusterValueView {
                    name: cluster_to_name@,
                    linked_object_id: m0[key].linked_object_id,
                    owner_id: m0[key].owner_id,
                    privileges: m0[key].privileges,
                    config: m0[key].config,
                };
                match r {
                    Ok(_) => {
                        &&& m0.contains_key(key)
                        &&& old(self).clusters().may_set(key, nv)
                        &&& final(self).clusters().live() == m0.insert(key, nv)
                    },
                    Err(e) => {
                        ||| {
                            &&& e == CatalogError::UnknownCluster(cluster_id)
                            &&& !m0.contains_key(key)
                            &&& final(self).clusters().live() == m0
                        }
                        ||| {
                            &&& e == CatalogError::UniquenessViolation
                            &&& m0.contains_key(key)
                            &&& !old(self).clusters().may_set(key, nv)
                            &&& *final(self) == *old(self)
                        }
                    },
                }
            }),
    {
        let ghost m0 = self.clusters.live();
        let ghost key_v = ClusterKey { id: cluster_id };
        let _ = cluster_name;
        let t = ClusterRename { id: cluster_id, to_name: cluster_to_name.to_string() };
        let ghost nv_g = ClusterValueView {
            name: cluster_to_name@,
            linked_object_id: m0[key_v].linked_object_id,
            owner_id: m0[key_v].owner_id,
            privileges: m0[key_v].privileges,
            config: m0[key_v].config,
        };
        proof {
            self.clusters.lemma_live_conflict_free();
            crate::table::lemma_single_update(m0, self.clusters.predicate(), t, key_v, nv_g);
        }
        match self.clusters.update(&t) {
            Ok(n) => {
                if n == 1 {
                    Ok(())
                } else {
                    Err(CatalogError::UnknownCluster(cluster_id))
                }
            },
            Err(_) => Err(CatalogError::UniquenessViolation),
        }
    }

    /// Renames the cluster replica with the given id. Fails with
    /// `UnknownClusterReplica` when the id is not live, and with
    /// `UniquenessViolation` when the new name is already taken inside the
    /// same cluster; nothing changes on failure.
    pub fn rename_cluster_replica(
        &mut self,
        replica_id: ReplicaId,
        replica_name: &str,
        replica_to_name: &str,
    ) -> (r: Result<(), CatalogError>)
        requires
            old(self).wf(),
        ensures
            final(self).wf(),
            final(self).same_except_cluster_replicas(*old(self)),
            final(self).cluster_replicas().base() == old(self).cluster_replicas().base(),
            ({
                let key = ClusterReplicaKey { id: replica_id };
                let m0 = old(self).cluster_replicas().live();
                let nv = ClusterReplicaValueView {
                    cluster_id: m0[key].cluster_id,
                    name: replica_to_name@,
                    config: m0[key].config,
                    owner_id: m0[key].owner_id,
                };
                match r {
                    Ok(_) => {
                        &&& m0.contains_key(key)
                        &&& old(self).cluster_replicas().may_set(key, nv)
                        &&& final(self).cluster_replicas().live() == m0.insert(key, nv)
                    },
                    Err(e) => {
                        ||| {
                            &&& e == CatalogError::UnknownClusterReplica(replica_id)
                            &&& !m0.contains_key(key)
                            &&& final(self).cluster_replicas().live() == m0
                        }
                        ||| {
                            &&& e == CatalogError::UniquenessViolation
                            &&& m0.contains_key(key)
                            &&& !old(self).cluster_replicas().may_set(key, nv)
                            &&& *final(self) == *old(self)
                        }
                    },
                }
            }),
    {
        let ghost m0 = self.cluster_replicas.live();
        let ghost key_v = ClusterReplicaKey { id: replica_id };
        let _ = replica_name;
        let t = ReplicaRename { id: replica_id, to_name: replica_to_name.to_string() };
        let ghost nv_g = ClusterReplicaValueView {
            cluster_id: m0[key_v].cluster_id,
            name: replica_to_name@,
            config: m0[key_v].config,
            owner_id: m0[key_v].owner_id,
        };
        proof {
            self.cluster_replicas.lemma_live_conflict_free();
            crate::table::lemma_single_update(
                m0,
                self.cluster_replicas.predicate(),
                t,
                key_v,
                nv_g,
            );
        }
        match self.cluster_replicas.update(&t) {
            Ok(n) => {
                if n == 1 {
                    Ok(())
                } else {
                    Err(CatalogError::UnknownClusterReplica(replica_id))
                }
            },
            Err(_) => Err(CatalogError::UniquenessViolation),
        }
    }
    /// Replaces the item row under `id` with the given item's payload; the
    /// item's schema id must equal the live row's, since an item can never
    /// move between schemas. Fails with `UnknownItem` when the id is not
    /// live, leaving the item table unchanged.
    pub fn update_item(&mut self, id: GlobalId, item: Item) -> (r: Result<
        (),
        CatalogError,
    >)
        requires
            old(self).wf(),
            old(self).items().live().contains_key(ItemKey { gid: id }) ==> item.schema_id
                == old(self).items().live()[ItemKey { gid: id }].schema_id,
        ensures
            final(self).wf(),
            final(self).same_except_items(*old(self)),
            final(self).items().base() == old(self).items().base(),
            ({
                let key = ItemKey { gid: id };
                let m0 = old(self).items().live();
                let nv = ItemValueView {
                    schema_id: item.schema_id,
                    name: item.name@,
                    create_sql: item.create_sql@,
                    owner_id: item.owner_id,
                    privileges: item.privileges@,
                };
                match r {
                    Ok(_) => {
                        &&& m0.contains_key(key)
                        &&& old(self).items().may_set(key, nv)
                        &&& final(self).items().live() == m0.insert(key, nv)
                    },
                    Err(e) => {
                        ||| {
                            &&& e == CatalogError::UnknownItem(id)
                            &&& !m0.contains_key(key)
                            &&& final(self).items().live() == m0
                        }
                        ||| {
                            &&& e == CatalogError::UniquenessViolation
                            &&& m0.contains_key(key)
                            &&& !old(self).items().may_set(key, nv)
                            &&& *final(self) == *old(self)
                        }
                    },
                }
            }),
    {
        let ghost m0 = self.items.live();
        let ghost key_v: ItemKey = ItemKey { gid: id };
        let (_ignored, value) = item.into_key_value();
        let t = ItemSet { id: id, value };
        let ghost nv_g = t.value@;
        proof {
            self.items.lemma_live_conflict_free();
            crate::table::lemma_single_update(m0, self.items.predicate(), t, key_v, nv_g);
        }
        match self.items.update(&t) {
            Ok(n) => {
                if n == 1 {
                    Ok(())
                } else {
                    Err(CatalogError::UnknownItem(id))
                }
            },
            Err(_) => Err(CatalogError::UniquenessViolation),
        }
    }
    /// Replaces the role row under `id` with the given role's payload.
    /// Fails with `UnknownRoleId` when the id is not live, and with
    /// `UniquenessViolation` when the new name is already taken.
    pub fn update_role(&mut self, id: RoleId, role: Role) -> (r: Result<
        (),
        CatalogError,
    >)
        requires
            old(self).wf(),
        ensures
            final(self).wf(),
            final(self).same_except_roles(*old(self)),
            final(self).roles().base() == old(self).roles().base(),
            ({
                let key = RoleKey { id };
                let m0 = old(self).roles().live();
                let nv = RoleValueView {
                    name: role.name@,
                    attributes: role.attributes,
                    membership: role.membership.map@,
                    vars: crate::objects::string_pair_views(role.vars.vars@),
                };
                match r {
                    Ok(_) => {
                        &&& m0.contains_key(key)
                        &&& old(self).roles().may_set(key, nv)
                        &&& final(self).roles().live() == m0.insert(key, nv)
                    },
                    Err(e) => {
                        ||| {
                            &&& e == CatalogError::UnknownRoleId(id)
                            &&& !m0.contains_key(key)
                            &&& final(self).roles().live() == m0
                        }
                        ||| {
                            &&& e == CatalogError::UniquenessViolation
                            &&& m0.contains_key(key)
                            &&& !old(self).roles().may_set(key, nv)
                            &&& *final(self) == *old(self)
                        }
                    },
                }
            }),
    {
        let ghost m0 = self.roles.live();
        let ghost key_v: RoleKey = RoleKey { id };
        let (_ignored, value) = role.into_key_value();
        let t = RoleSet { id: id, value };
        let ghost nv_g = t.value@;
        proof {
            self.roles.lemma_live_conflict_free();
            crate::table::lemma_single_update(m0, self.roles.predicate(), t, key_v, nv_g);
        }
        match self.roles.update(&t) {
            Ok(n) => {
                if n == 1 {
                    Ok(())
                } else {
                    Err(CatalogError::UnknownRoleId(id))
                }
            },
            Err(_) => Err(CatalogError::UniquenessViolation),
        }
    }
    /// Replaces the cluster row under `id` with the given cluster's
    /// payload. Fails with `UnknownCluster` when the id is not live, and
    /// with `UniquenessViolation` when the new name is already taken.
    pub fn update_cluster(&mut self, id: ClusterId, cluster: Cluster) -> (r: Result<
        (),
        CatalogError,
    >)
        requires
            old(self).wf(),
        ensures
            final(self).wf(),
            final(self).same_except_clusters(*old(self)),
            final(self).clusters().base() == old(self).clusters().base(),
            ({
                let key = ClusterKey { id };
                let m0 = old(self).clusters().live();
                let nv = ClusterValueView {
                    name: cluster.name@,
                    linked_object_id: cluster.linked_object_id,
                    owner_id: cluster.owner_id,
                    privileges: cluster.privileges@,
                    config: cluster.config@,
                };
                match r {
                    Ok(_) => {
                        &&& m0.contains_key(key)
                        &&& old(self).clusters().may_set(key, nv)
                        &&& final(self).clusters().live() == m0.insert(key, nv)
                    },
                    Err(e) => {
                        ||| {
                            &&& e == CatalogError::UnknownCluster(id)
                            &&& !m0.contains_key(key)
                            &&& final(self).clusters().live() == m0
                        }
                        ||| {
                            &&& e == CatalogError::UniquenessViolation
                            &&& m0.contains_key(key)
                            &&& !old(self).clusters().may_set(key, nv)
                            &&& *final(self) == *old(self)
                        }
                    },
                }
            }),
    {
        let ghost m0 = self.clusters.live();
        let ghost key_v: ClusterKey = ClusterKey { id };
        let (_ignored, value) = cluster.into_key_value();
        let t = ClusterSet { id: id, value };
        let ghost nv_g = t.value@;
        proof {
            self.clusters.lemma_live_conflict_free();
            crate::table::lemma_single_update(m0, self.clusters.predicate(), t, key_v, nv_g);
        }
        match self.clusters.update(&t) {
            Ok(n) => {
                if n == 1 {
                    Ok(())
                } else {
                    Err(CatalogError::UnknownCluster(id))
                }
            },
            Err(_) => Err(CatalogError::UniquenessViolation),
        }
    }
    /// Replaces the replica row under `replica_id` with the given
    /// replica's payload. Fails with `UnknownClusterReplica` when the id is
    /// not live, and with `UniquenessViolation` when the new name is
    /// already taken inside the same cluster.
    pub fn update_cluster_replica(&mut self, replica_id: ReplicaId, replica: ClusterReplica) -> (r: Result<
        (),
        CatalogError,
    >)
        requires
            old(self).wf(),
        ensures
            final(self).wf(),
            final(self).same_except_cluster_replicas(*old(self)),
            final(self).cluster_replicas().base() == old(self).cluster_replicas().base(),
            ({
                let key = ClusterReplicaKey { id: replica_id };
                let m0 = old(self).cluster_replicas().live();
                let nv = ClusterReplicaValueView {
                    cluster_id: replica.cluster_id,
                    name: replica.name@,
                    config: replica.config@,
                    owner_id: replica.owner_id,
                };
                match r {
                    Ok(_) => {
                        &&& m0.contains_key(key)
                        &&& old(self).cluster_replicas().may_set(key, nv)
                        &&& final(self).cluster_replicas().live() == m0.insert(key, nv)
                    },
                    Err(e) => {
                        ||| {
                            &&& e == CatalogError::UnknownClusterReplica(replica_id)
                            &&& !m0.contains_key(key)
                            &&& final(self).cluster_replicas().live() == m0
                        }
                        ||| {
                            &&& e == CatalogError::UniquenessViolation
                            &&& m0.contains_key(key)
                            &&& !old(self).cluster_replicas().may_set(key, nv)
                            &&& *final(self) == *old(self)
                        }
                    },
                }
            }),
    {
        let ghost m0 = self.cluster_replicas.live();
        let ghost key_v: ClusterReplicaKey = ClusterReplicaKey { id: replica_id };
        let (_ignored, value) = replica.into_key_value();
        let t = ReplicaSet { id: replica_id, value };
        let ghost nv_g = t.value@;
        proof {
            self.cluster_replicas.lemma_live_conflict_free();
            crate::table::lemma_single_update(m0, self.cluster_replicas.predicate(), t, key_v, nv_g);
        }
        match self.cluster_replicas.update(&t) {
            Ok(n) => {
                if n == 1 {
                    Ok(())
                } else {
                    Err(CatalogError::UnknownClusterReplica(replica_id))
                }
            },
            Err(_) => Err(CatalogError::UniquenessViolation),
        }
    }
    /// Replaces the database row under `id` with the given database's
    /// payload. Fails with `UnknownDatabase` when the id is not live, and
    /// with `UniquenessViolation` when the new name is already taken.
    pub fn update_database(&mut self, id: DatabaseId, database: Database) -> (r: Result<
        (),
        CatalogError,
    >)
        requires
            old(self).wf(),
        ensures
            final(self).wf(),
            final(self).same_except_databases(*old(self)),
            final(self).databases().base() == old(self).databases().base(),
            ({
                let key = DatabaseKey { id };
                let m0 = old(self).databases().live();
                let nv = DatabaseValueView {
                    name: database.name@,
                    owner_id: database.owner_id,
                    privileges: database.privileges@,
                };
                match r {
                    Ok(_) => {
                        &&& m0.contains_key(key)
                        &&& old(self).databases().may_set(key, nv)
                        &&& final(self).databases().live() == m0.insert(key, nv)
                    },
                    Err(e) => {
                        ||| {
                            &&& e == CatalogError::UnknownDatabase(id)
                            &&& !m0.contains_key(key)
                            &&& final(self).databases().live() == m0
                        }
                        ||| {
                            &&& e == CatalogError::UniquenessViolation
                            &&& m0.contains_key(key)
                            &&& !old(self).databases().may_set(key, nv)
                            &&& *final(self) == *old(self)
                        }
                    },
                }
            }),
    {
        let ghost m0 = self.databases.live();
        let ghost key_v: DatabaseKey = DatabaseKey { id };
        let (_ignored, value) = database.into_key_value();
        let t = DatabaseSet { id: id, value };
        let ghost nv_g = t.value@;
        proof {
            self.databases.lemma_live_conflict_free();
            crate::table::lemma_single_update(m0, self.databases.predicate(), t, key_v, nv_g);
        }
        match self.databases.update(&t) {
            Ok(n) => {
                if n == 1 {
                    Ok(())
                } else {
                    Err(CatalogError::UnknownDatabase(id))
                }
            },
            Err(_) => Err(CatalogError::UniquenessViolation),
        }
    }
    /// Replaces the schema row under `schema_id` with the given schema's
    /// payload. Fails with `UnknownSchema` when the id is not live, and
    /// with `UniquenessViolation` when the new name is already taken inside
    /// the same database.
    pub fn update_schema(&mut self, schema_id: SchemaId, schema: Schema) -> (r: Result<
        (),
        CatalogError,
    >)
        requires
            old(self).wf(),
        ensures
            final(self).wf(),
            final(self).same_except_schemas(*old(self)),
            final(self).schemas().base() == old(self).schemas().base(),
            ({
                let key = SchemaKey { id: schema_id };
                let m0 = old(self).schemas().live();
                let nv = SchemaValueView {
                    database_id: schema.database_id,
                    name: schema.name@,
                    owner_id: schema.owner_id,
                    privileges: schema.privileges@,
                };
                match r {
                    Ok(_) => {
                        &&& m0.contains_key(key)
                        &&& old(self).schemas().may_set(key, nv)
                        &&& final(self).schemas().live() == m0.insert(key, nv)
                    },
                    Err(e) => {
                        ||| {
                            &&& e == CatalogError::UnknownSchema(schema_id)
                            &&& !m0.contains_key(key)
                            &&& final(self).schemas().live() == m0
                        }
                        ||| {
                            &&& e == CatalogError::UniquenessViolation
                            &&& m0.contains_key(key)
                            &&& !old(self).schemas().may_set(key, nv)
                            &&& *final(self) == *old(self)
                        }
                    },
                }
            }),
    {
        let ghost m0 = self.schemas.live();
        let ghost key_v: SchemaKey = SchemaKey { id: schema_id };
        let (_ignored, value) = schema.into_key_value();
        let t = SchemaSet { id: schema_id, value };
        let ghost nv_g = t.value@;
        proof {
            self.schemas.lemma_live_conflict_free();
            crate::table::lemma_single_update(m0, self.schemas.predicate(), t, key_v, nv_g);
        }
        match self.schemas.update(&t) {
            Ok(n) => {
                if n == 1 {
                    Ok(())
                } else {
                    Err(CatalogError::UnknownSchema(schema_id))
                }
            },
            Err(_) => Err(CatalogError::UniquenessViolation),
        }
    }

    /// Replaces every item row named in `items` with its new payload, which
    /// must keep its schema id; the named ids must be distinct. If some ids
    /// are not live, the rows that matched are still replaced and the error
    /// names exactly the missing ids. If two new payloads would collide,
    /// nothing changes.
    pub fn update_items(&mut self, items: Vec<(GlobalId, Item)>) -> (r: Result<(), CatalogError>)
        requires
            old(self).wf(),
            forall|i: int, j: int|
                0 <= i < j < items@.len() ==> (#[trigger] items@[i]).0 != (#[trigger] items@[j]).0,
            forall|i: int|
                0 <= i < items@.len() && old(self).items().live().contains_key(
                    ItemKey { gid: (#[trigger] items@[i]).0 },
                ) ==> items@[i].1.schema_id == old(self).items().live()[ItemKey {
                    gid: items@[i].0,
                }].schema_id,
        ensures
            final(self).wf(),
            final(self).same_except_items(*old(self)),
            final(self).items().base() == old(self).items().base(),
            ({
                let m0 = old(self).items().live();
                let tm = transformed_map::<ItemKey, ItemValue, ItemsSet>(
                    m0,
                    ItemsSet { items },
                );
                match r {
                    Ok(_) => {
                        &&& forall|i: int|
                            0 <= i < items@.len() ==> m0.contains_key(
                                ItemKey { gid: (#[trigger] items@[i]).0 },
                            )
                        &&& final(self).items().live() == tm
                        &&& map_conflict_free(ItemNameConflict, tm)
                    },
                    Err(e) => {
                        ||| {
                            &&& e is UnknownItems
                            &&& e->UnknownItems_0@.no_duplicates()
                            &&& forall|g: GlobalId|
                                #[trigger] e->UnknownItems_0@.contains(g) <==> ((exists|i: int|
                                    0 <= i < items@.len() && (#[trigger] items@[i]).0 == g)
                                    && !m0.contains_key(ItemKey { gid: g }))
                            &&& e->UnknownItems_0@.len() > 0
                            &&& final(self).items().live() == tm
                            &&& map_conflict_free(ItemNameConflict, tm)
                        }
                        ||| {
                            &&& e == CatalogError::UniquenessViolation
                            &&& !map_conflict_free(ItemNameConflict, tm)
                            &&& *final(self) == *old(self)
                        }
                    },
                }
            }),
    {
        let ghost m0 = self.items.live();
        let ghost in_views = items@;
        let item_count = items.len();
        let t = ItemsSet { items };
        let ghost ks_seq = Seq::new(in_views.len(), |i: int| ItemKey { gid: in_views[i].0 });
        proof {
            self.items.lemma_live_conflict_free();
            assert(ks_seq.no_duplicates()) by {
                assert forall|i: int, j: int|
                    0 <= i < ks_seq.len() && 0 <= j < ks_seq.len() && i != j implies ks_seq[i]
                    != ks_seq[j] by {
                    if i < j {
                        assert(in_views[i].0 != in_views[j].0);
                    } else {
                        assert(in_views[j].0 != in_views[i].0);
                    }
                }
            }
            ks_seq.unique_seq_to_set();
            vstd::seq_lib::seq_to_set_is_finite(ks_seq);
            assert forall|k: ItemKey| #[trigger] m0.contains_key(k) implies (decides_some::<
                ItemKey,
                ItemValue,
                ItemsSet,
            >(t)(k, m0[k]) <==> ks_seq.to_set().contains(k)) by {
                lemma_item_lookup_some(in_views, k.gid);
                if exists|i: int| 0 <= i < in_views.len() && (#[trigger] in_views[i]).0
                    == k.gid {
                    let i = choose|i: int|
                        0 <= i < in_views.len() && (#[trigger] in_views[i]).0 == k.gid;
                    assert(ks_seq[i] == k);
                    assert(ks_seq.to_set().contains(k));
                }
                if ks_seq.to_set().contains(k) {
                    let i = choose|i: int| 0 <= i < ks_seq.len() && ks_seq[i] == k;
                    assert(in_views[i].0 == k.gid);
                }
            }
            crate::table::lemma_picked_keys_set(
                m0,
                decides_some::<ItemKey, ItemValue, ItemsSet>(t),
                ks_seq.to_set(),
            );
        }
        let n = match self.items.update(&t) {
            Ok(n) => n,
            Err(_) => {
                return Err(CatalogError::UniquenessViolation);
            },
        };
        if n == item_count {
            proof {
                assert forall|i: int| 0 <= i < in_views.len() implies m0.contains_key(
                    ItemKey { gid: (#[trigger] in_views[i]).0 },
                ) by {
                    assert(ks_seq.to_set().contains(ks_seq[i]));
                }
            }
            Ok(())
        } else {
            proof {
                assert(self.items.live().dom() =~= m0.dom());
            }
            let mut missing: Vec<GlobalId> = Vec::new();
            let mut i: usize = 0;
            while i < t.items.len()
                invariant
                    self.wf(),
                    i <= in_views.len(),
                    t.items@ == in_views,
                    self.items().live().dom() == m0.dom(),
                    forall|i2: int, j2: int|
                        0 <= i2 < j2 < in_views.len() ==> (#[trigger] in_views[i2]).0 != (
                        #[trigger] in_views[j2]).0,
                    missing@.no_duplicates(),
                    forall|g: GlobalId|
                        #[trigger] missing@.contains(g) <==> ((exists|j: int|
                            0 <= j < i && (#[trigger] in_views[j]).0 == g) && !m0.contains_key(
                            ItemKey { gid: g },
                        )),
                decreases in_views.len() - i,
            {
                let gid = t.items[i].0;
                let ghost mpre = missing@;
                if self.items.get(&ItemKey { gid }).is_none() {
                    proof {
                        assert(!m0.contains_key(ItemKey { gid: in_views[i as int].0 }));
                        if mpre.contains(gid) {
                            let j = choose|j: int|
                                0 <= j < i && (#[trigger] in_views[j]).0 == gid;
                        }
                    }
                    missing.push(gid);
                    proof {
                        assert forall|g: GlobalId| #[trigger] missing@.contains(g) implies ((
                        exists|j: int| 0 <= j < i + 1 && (#[trigger] in_views[j]).0 == g)
                            && !m0.contains_key(ItemKey { gid: g })) by {
                            let x = choose|x: int| 0 <= x < missing@.len() && missing@[x] == g;
                            if x < mpre.len() {
                                assert(mpre[x] == g);
                                assert(mpre.contains(g));
                            } else {
                                assert(g == gid);
                                assert(in_views[i as int].0 == g);
                            }
                        }
                        assert forall|g: GlobalId|
                            ((exists|j: int| 0 <= j < i + 1 && (#[trigger] in_views[j]).0 == g)
                                && !m0.contains_key(ItemKey { gid: g })) implies #[trigger] missing@.contains(
                            g,
                        ) by {
                            let j = choose|j: int|
                                0 <= j < i + 1 && (#[trigger] in_views[j]).0 == g;
                            if j < i {
                                assert(mpre.contains(g));
                                let x = choose|x: int| 0 <= x < mpre.len() && mpre[x] == g;
                                assert(missing@[x] == g);
                            } else {
                                assert(missing@[missing@.len() - 1] == g);
                            }
                        }
                        assert(missing@.no_duplicates()) by {
                            assert forall|a: int, b: int|
                                0 <= a < missing@.len() && 0 <= b < missing@.len() && a != b implies missing@[a]
                                != missing@[b] by {
                                if a < mpre.len() && b < mpre.len() {
                                    assert(mpre[a] == missing@[a] && mpre[b] == missing@[b]);
                                } else if a < mpre.len() {
                                    assert(missing@[b] == gid);
                                    if mpre[a] == gid {
                                        assert(mpre.contains(gid));
                                    }
                                } else {
                                    assert(missing@[a] == gid);
                                    if mpre[b] == gid {
                                        assert(mpre.contains(gid));
                                    }
                                }
                            }
                        }
                    }
                } else {
                    proof {
                        assert(m0.contains_key(ItemKey { gid: in_views[i as int].0 }));
                        assert forall|g: GlobalId|
                            ((exists|j: int| 0 <= j < i + 1 && (#[trigger] in_views[j]).0 == g)
                                && !m0.contains_key(ItemKey { gid: g })) implies #[trigger] missing@.contains(
                            g,
                        ) by {
                            let j = choose|j: int|
                                0 <= j < i + 1 && (#[trigger] in_views[j]).0 == g;
                            assert(j < i) by {
                                if j == i {
                                    assert(m0.contains_key(ItemKey { gid: g }));
                                }
                            }
                        }
                    }
                }
                i += 1;
            }
            proof {
                assert(missing@.len() > 0) by {
                    if missing@.len() == 0 {
                        assert forall|k: ItemKey| ks_seq.to_set().contains(k) implies m0.dom().contains(
                            k,
                        ) by {
                            let x = choose|x: int| 0 <= x < ks_seq.len() && ks_seq[x] == k;
                            if !m0.contains_key(ItemKey { gid: in_views[x].0 }) {
                                assert((exists|j: int|
                                    0 <= j < in_views.len() && (#[trigger] in_views[j]).0
                                        == in_views[x].0) && !m0.contains_key(
                                    ItemKey { gid: in_views[x].0 },
                                ));
                                assert(missing@.contains(in_views[x].0));
                            }
                        }
                        assert(ks_seq.to_set().subset_of(m0.dom()));
                    }
                }
            }
            Err(CatalogError::UnknownItems(missing))
        }
    }

    /// Rewrites the system object mapping rows whose current system ids are
    /// named in `mappings`, which must name distinct ids and map each to a
    /// system id. Fails, with every row that matched still rewritten, when
    /// the count of matched rows differs from the batch size.
    pub fn update_system_object_mappings(
        &mut self,
        mappings: Vec<(GlobalId, SystemObjectMapping)>,
    ) -> (r: Result<(), CatalogError>)
        requires
            old(self).wf(),
            forall|i: int|
                0 <= i < mappings@.len() ==> (
                #[trigger] mappings@[i]).1.unique_identifier.id is System,
            forall|i: int, j: int|
                0 <= i < j < mappings@.len() ==> (#[trigger] mappings@[i]).0 != (
                #[trigger] mappings@[j]).0,
        ensures
            final(self).wf(),
            final(self).same_except_system_gid_mapping(*old(self)),
            final(self).system_gid_mapping().base() == old(self).system_gid_mapping().base(),
            ({
                let m0 = old(self).system_gid_mapping().live();
                let tm = transformed_map::<GidMappingKey, GidMappingValue, GidRemapSet>(
                    m0,
                    GidRemapSet { mappings },
                );
                let touched = picked_keys(
                    m0,
                    decides_some::<GidMappingKey, GidMappingValue, GidRemapSet>(
                        GidRemapSet { mappings },
                    ),
                );
                match r {
                    Ok(_) => {
                        &&& touched.len() == mappings@.len()
                        &&& final(self).system_gid_mapping().live() == tm
                    },
                    Err(e) => {
                        &&& touched.len() != mappings@.len()
                        &&& final(self).system_gid_mapping().live() == tm
                        &&& e is FailedBuiltinSchemaMigration
                        &&& e->FailedBuiltinSchemaMigration_0@.len() == mappings@.len()
                        &&& forall|i: int|
                            0 <= i < mappings@.len() ==> #[trigger] e->FailedBuiltinSchemaMigration_0@[i]
                                == mappings@[i].0
                    },
                }
            }),
    {
        let mapping_count = mappings.len();
        let t = GidRemapSet { mappings };
        proof {
            self.system_gid_mapping.lemma_live_conflict_free();
        }
        let n = match self.system_gid_mapping.update(&t) {
            Ok(n) => n,
            Err(_) => {
                proof {
                    assert(false);
                }
                return Err(CatalogError::UniquenessViolation);
            },
        };
        if n == mapping_count {
            Ok(())
        } else {
            let mut ids: Vec<GlobalId> = Vec::new();
            let mut i: usize = 0;
            while i < t.mappings.len()
                invariant
                    i <= t.mappings@.len(),
                    ids@.len() == i,
                    forall|j: int| 0 <= j < i ==> ids@[j] == (#[trigger] t.mappings@[j]).0,
                decreases t.mappings@.len() - i,
            {
                ids.push(t.mappings[i].0);
                i += 1;
            }
            Err(CatalogError::FailedBuiltinSchemaMigration(ids))
        }
    }

    /// Overwrites the recorded index id of each named introspection source,
    /// in order. Every entry's index id must be a system id. If an entry's
    /// key is not live at its turn, the entries up to and including it are
    /// applied and the error names that entry's index id.
    pub fn update_introspection_source_index_gids(
        &mut self,
        mappings: Vec<(ClusterId, String, GlobalId)>,
    ) -> (r: Result<(), CatalogError>)
        requires
            old(self).wf(),
            forall|i: int| 0 <= i < mappings@.len() ==> (#[trigger] mappings@[i]).2 is System,
        ensures
            final(self).wf(),
            final(self).same_except_introspection_sources(*old(self)),
            final(self).introspection_sources().base() == old(
                self,
            ).introspection_sources().base(),
            intro_upd_result(
                old(self).introspection_sources().live(),
                final(self).introspection_sources().live(),
                mappings@,
                r,
            ),
    {
        intro_apply_updates(&mut self.introspection_sources, &mappings)
    }

    /// Deletes the database row under `id`. Fails with `UnknownDatabase`
    /// when the id is not live.
    pub fn remove_database(&mut self, id: &DatabaseId) -> (r: Result<(), CatalogError>)
        requires
            old(self).wf(),
        ensures
            final(self).wf(),
            final(self).same_except_databases(*old(self)),
            final(self).databases().base() == old(self).databases().base(),
            ({
                let key = DatabaseKey { id: *id };
                let m0 = old(self).databases().live();
                match r {
                    Ok(_) => m0.contains_key(key) && final(self).databases().live() == m0.remove(
                        key,
                    ),
                    Err(e) => {
                        &&& e == CatalogError::UnknownDatabase(*id)
                        &&& !m0.contains_key(key)
                        &&& final(self).databases().live() == m0
                    },
                }
            }),
    {
        let prev = match self.databases.set(DatabaseKey { id: *id }, None) {
            Ok(p) => p,
            Err(_) => {
                proof {
                    assert(false);
                }
                return Err(CatalogError::UniquenessViolation);
            },
        };
        proof {
            if !old(self).databases().live().contains_key(DatabaseKey { id: *id }) {
                assert(old(self).databases().live().remove(DatabaseKey { id: *id }) =~= old(
                    self,
                ).databases().live());
            }
        }
        if prev.is_some() {
            Ok(())
        } else {
            Err(CatalogError::UnknownDatabase(*id))
        }
    }

    /// Deletes the schema row under `schema_id`. Fails with `UnknownSchema`
    /// when the id is not live.
    pub fn remove_schema(
        &mut self,
        database_id: &Option<DatabaseId>,
        schema_id: &SchemaId,
    ) -> (r: Result<(), CatalogError>)
        requires
            old(self).wf(),
        ensures
            final(self).wf(),
            final(self).same_except_schemas(*old(self)),
            final(self).schemas().base() == old(self).schemas().base(),
            ({
                let key = SchemaKey { id: *schema_id };
                let m0 = old(self).schemas().live();
                match r {
                    Ok(_) => m0.contains_key(key) && final(self).schemas().live() == m0.remove(
                        key,
                    ),
                    Err(e) => {
                        &&& e == CatalogError::UnknownSchema(*schema_id)
                        &&& !m0.contains_key(key)
                        &&& final(self).schemas().live() == m0
                    },
                }
            }),
    {
        let _ = database_id;
        let prev = match self.schemas.set(SchemaKey { id: *schema_id }, None) {
            Ok(p) => p,
            Err(_) => {
                proof {
                    assert(false);
                }
                return Err(CatalogError::UniquenessViolation);
            },
        };
        proof {
            if !old(self).schemas().live().contains_key(SchemaKey { id: *schema_id }) {
                assert(old(self).schemas().live().remove(SchemaKey { id: *schema_id }) =~= old(
                    self,
                ).schemas().live());
            }
        }
        if prev.is_some() {
            Ok(())
        } else {
            Err(CatalogError::UnknownSchema(*schema_id))
        }
    }

    /// Deletes the item row under `id`. Fails with `UnknownItem` when the
    /// id is not live.
    pub fn remove_item(&mut self, id: GlobalId) -> (r: Result<(), CatalogError>)
        requires
            old(self).wf(),
        ensures
            final(self).wf(),
            final(self).same_except_items(*old(self)),
            final(self).items().base() == old(self).items().base(),
            ({
                let key = ItemKey { gid: id };
                let m0 = old(self).items().live();
                match r {
                    Ok(_) => m0.contains_key(key) && final(self).items().live() == m0.remove(key),
                    Err(e) => {
                        &&& e == CatalogError::UnknownItem(id)
                        &&& !m0.contains_key(key)
                        &&& final(self).items().live() == m0
                    },
                }
            }),
    {
        let prev = match self.items.set(ItemKey { gid: id }, None) {
            Ok(p) => p,
            Err(_) => {
                proof {
                    assert(false);
                }
                return Err(CatalogError::UniquenessViolation);
            },
        };
        proof {
            if !old(self).items().live().contains_key(ItemKey { gid: id }) {
                assert(old(self).items().live().remove(ItemKey { gid: id }) =~= old(
                    self,
                ).items().live());
            }
        }
        if prev.is_some() {
            Ok(())
        } else {
            Err(CatalogError::UnknownItem(id))
        }
    }

    /// Deletes the single user role carrying `name`. Fails with
    /// `UnknownRole` when no live role has that name. Only user roles may
    /// be removed.
    pub fn remove_role(&mut self, name: &str) -> (r: Result<(), CatalogError>)
        requires
            old(self).wf(),
            forall|k: RoleKey| #[trigger]
                old(self).roles().live().contains_key(k) && old(self).roles().live()[k].name
                    == name@ ==> k.id is User,
        ensures
            final(self).wf(),
            final(self).same_except_roles(*old(self)),
            final(self).roles().base() == old(self).roles().base(),
            ({
                let m0 = old(self).roles().live();
                match r {
                    Ok(_) => exists|k: RoleKey|
                        {
                            &&& #[trigger] m0.contains_key(k)
                            &&& m0[k].name == name@
                            &&& final(self).roles().live() == m0.remove(k)
                        },
                    Err(e) => {
                        &&& e is UnknownRole
                        &&& e->UnknownRole_0@ == name@
                        &&& forall|k: RoleKey| #[trigger]
                            m0.contains_key(k) ==> m0[k].name != name@
                        &&& final(self).roles().live() == m0
                    },
                }
            }),
    {
        let ghost m0 = self.roles.live();
        let f = RoleNamed { name: name.to_string() };
        proof {
            self.roles.lemma_live_conflict_free();
            assert forall|k: RoleKey| #[trigger] m0.contains_key(k) implies (selected_by::<
                RoleKey,
                RoleValue,
                RoleNamed,
            >(f)(k, m0[k]) <==> m0[k].name == name@) by {}
        }
        let deleted = self.roles.delete(&f);
        proof {
            if exists|k: RoleKey| #[trigger] m0.contains_key(k) && m0[k].name == name@ {
                let k0 = choose|k: RoleKey| #[trigger] m0.contains_key(k) && m0[k].name == name@;
                crate::table::lemma_picked_keys_single(
                    m0,
                    selected_by::<RoleKey, RoleValue, RoleNamed>(f),
                    k0,
                );
                assert forall|k: RoleKey| #[trigger] m0.contains_key(k) implies (m0[k].name
                    == name@ <==> k == k0) by {
                    if m0[k].name == name@ && k != k0 {
                        assert(RoleNameConflict.conflicts(m0[k], m0[k0]));
                    }
                }
                assert(deleted@.len() == 1);
                assert(crate::table::picked_map(
                    m0,
                    not_selected_by::<RoleKey, RoleValue, RoleNamed>(f),
                ) =~= m0.remove(k0));
            } else {
                assert(crate::table::picked_keys(
                    m0,
                    selected_by::<RoleKey, RoleValue, RoleNamed>(f),
                ) =~= Set::<RoleKey>::empty());
            }
        }
        if deleted.len() == 1 {
            Ok(())
        } else {
            proof {
                if exists|k: RoleKey| #[trigger] m0.contains_key(k) && m0[k].name == name@ {
                    assert(false);
                }
                assert(crate::table::picked_map(
                    m0,
                    not_selected_by::<RoleKey, RoleValue, RoleNamed>(f),
                ) =~= m0);
            }
            Err(CatalogError::UnknownRole(name.to_string()))
        }
    }

    /// Deletes the cluster row under `id` together with every replica and
    /// introspection source row that references it; no orphan rows remain.
    /// Fails with `UnknownCluster`, changing nothing, when the id is not
    /// live.
    pub fn remove_cluster(&mut self, id: ClusterId) -> (r: Result<(), CatalogError>)
        requires
            old(self).wf(),
        ensures
            final(self).wf(),
            final(self).same_except_cluster_family(*old(self)),
            final(self).clusters().base() == old(self).clusters().base(),
            final(self).cluster_replicas().base() == old(self).cluster_replicas().base(),
            final(self).introspection_sources().base() == old(
                self,
            ).introspection_sources().base(),
            ({
                let key = ClusterKey { id };
                let m0 = old(self).clusters().live();
                let r0 = old(self).cluster_replicas().live();
                let i0 = old(self).introspection_sources().live();
                match r {
                    Ok(_) => {
                        &&& m0.contains_key(key)
                        &&& final(self).clusters().live() == m0.remove(key)
                        &&& final(self).cluster_replicas().live() == crate::table::picked_map(
                            r0,
                            not_selected_by::<ClusterReplicaKey, ClusterReplicaValue, ReplicaOfCluster>(
                                ReplicaOfCluster { id },
                            ),
                        )
                        &&& final(self).introspection_sources().live()
                            == crate::table::picked_map(
                            i0,
                            not_selected_by::<
                                ClusterIntrospectionSourceIndexKey,
                                ClusterIntrospectionSourceIndexValue,
                                IntroOfCluster,
                            >(IntroOfCluster { id }),
                        )
                    },
                    Err(e) => {
                        &&& e == CatalogError::UnknownCluster(id)
                        &&& !m0.contains_key(key)
                        &&& final(self).clusters().live() == m0
                        &&& final(self).cluster_replicas() == old(self).cluster_replicas()
                        &&& final(self).introspection_sources() == old(
                            self,
                        ).introspection_sources()
                    },
                }
            }),
    {
        let ghost m0 = self.clusters.live();
        let ghost key_v = ClusterKey { id };
        let fc = ClusterKeyIs { id };
        proof {
            self.clusters.lemma_live_conflict_free();
            crate::table::lemma_picked_keys_single(
                m0,
                selected_by::<ClusterKey, ClusterValue, ClusterKeyIs>(fc),
                key_v,
            );
        }
        let deleted = self.clusters.delete(&fc);
        if deleted.len() == 0 {
            proof {
                assert(crate::table::picked_map(
                    m0,
                    not_selected_by::<ClusterKey, ClusterValue, ClusterKeyIs>(fc),
                ) =~= m0);
            }
            return Err(CatalogError::UnknownCluster(id));
        }
        proof {
            assert(m0.contains_key(key_v));
            assert(crate::table::picked_map(
                m0,
                not_selected_by::<ClusterKey, ClusterValue, ClusterKeyIs>(fc),
            ) =~= m0.remove(key_v));
        }
        let fr = ReplicaOfCluster { id };
        self.cluster_replicas.delete(&fr);
        let fi = IntroOfCluster { id };
        self.introspection_sources.delete(&fi);
        Ok(())
    }

    /// Deletes the replica row under `id`. Fails with
    /// `UnknownClusterReplica` when the id is not live.
    pub fn remove_cluster_replica(&mut self, id: ReplicaId) -> (r: Result<(), CatalogError>)
        requires
            old(self).wf(),
        ensures
            final(self).wf(),
            final(self).same_except_cluster_replicas(*old(self)),
            final(self).cluster_replicas().base() == old(self).cluster_replicas().base(),
            ({
                let key = ClusterReplicaKey { id };
                let m0 = old(self).cluster_replicas().live();
                match r {
                    Ok(_) => m0.contains_key(key) && final(self).cluster_replicas().live()
                        == m0.remove(key),
                    Err(e) => {
                        &&& e == CatalogError::UnknownClusterReplica(id)
                        &&& !m0.contains_key(key)
                        &&& final(self).cluster_replicas().live() == m0
                    },
                }
            }),
    {
        let ghost m0 = self.cluster_replicas.live();
        let ghost key_v = ClusterReplicaKey { id };
        let f = ReplicaKeyIs { id };
        proof {
            self.cluster_replicas.lemma_live_conflict_free();
            crate::table::lemma_picked_keys_single(
                m0,
                selected_by::<ClusterReplicaKey, ClusterReplicaValue, ReplicaKeyIs>(f),
                key_v,
            );
        }
        let deleted = self.cluster_replicas.delete(&f);
        if deleted.len() == 1 {
            proof {
                assert(crate::table::picked_map(
                    m0,
                    not_selected_by::<ClusterReplicaKey, ClusterReplicaValue, ReplicaKeyIs>(f),
                ) =~= m0.remove(key_v));
            }
            Ok(())
        } else {
            proof {
                assert(crate::table::picked_map(
                    m0,
                    not_selected_by::<ClusterReplicaKey, ClusterReplicaValue, ReplicaKeyIs>(f),
                ) =~= m0);
            }
            Err(CatalogError::UnknownClusterReplica(id))
        }
    }

    /// Deletes every item row whose id lies in `ids`, which must be
    /// distinct. If some ids are not live the rows that matched are still
    /// deleted and the error names exactly the missing ids.
    pub fn remove_items(&mut self, ids: Vec<GlobalId>) -> (r: Result<(), CatalogError>)
        requires
            old(self).wf(),
            forall|i: int, j: int|
                0 <= i < j < ids@.len() ==> (#[trigger] ids@[i]) != (#[trigger] ids@[j]),
        ensures
            final(self).wf(),
            final(self).same_except_items(*old(self)),
            final(self).items().base() == old(self).items().base(),
            ({
                let m0 = old(self).items().live();
                let kept = crate::table::picked_map(
                    m0,
                    not_selected_by::<ItemKey, ItemValue, ItemInSet>(ItemInSet { ids }),
                );
                match r {
                    Ok(_) => {
                        &&& forall|i: int|
                            0 <= i < ids@.len() ==> m0.contains_key(
                                ItemKey { gid: (#[trigger] ids@[i]) },
                            )
                        &&& final(self).items().live() == kept
                    },
                    Err(e) => {
                        &&& e is UnknownItems
                        &&& e->UnknownItems_0@.no_duplicates()
                        &&& forall|g: GlobalId|
                            #[trigger] e->UnknownItems_0@.contains(g) <==> (ids@.contains(g)
                                && !m0.contains_key(ItemKey { gid: g }))
                        &&& e->UnknownItems_0@.len() > 0
                        &&& final(self).items().live() == kept
                    },
                }
            }),
    {
        let ghost m0 = self.items.live();
        let id_count = ids.len();
        let f = ItemInSet { ids };
        let ghost in_views = f.ids@;
        let ghost ks_seq = Seq::new(in_views.len(), |i: int| ItemKey { gid: in_views[i] });
        proof {
            self.items.lemma_live_conflict_free();
            assert(ks_seq.no_duplicates()) by {
                assert forall|i: int, j: int|
                    0 <= i < ks_seq.len() && 0 <= j < ks_seq.len() && i != j implies ks_seq[i]
                    != ks_seq[j] by {
                    if i < j {
                        assert(in_views[i] != in_views[j]);
                    } else {
                        assert(in_views[j] != in_views[i]);
                    }
                }
            }
            ks_seq.unique_seq_to_set();
            vstd::seq_lib::seq_to_set_is_finite(ks_seq);
            assert forall|k: ItemKey| #[trigger] m0.contains_key(k) implies (selected_by::<
                ItemKey,
                ItemValue,
                ItemInSet,
            >(f)(k, m0[k]) <==> ks_seq.to_set().contains(k)) by {
                if in_views.contains(k.gid) {
                    let i = choose|i: int| 0 <= i < in_views.len() && in_views[i] == k.gid;
                    assert(ks_seq[i] == k);
                    assert(ks_seq.to_set().contains(k));
                }
                if ks_seq.to_set().contains(k) {
                    let i = choose|i: int| 0 <= i < ks_seq.len() && ks_seq[i] == k;
                    assert(in_views[i] == k.gid);
                }
            }
            crate::table::lemma_picked_keys_set(
                m0,
                selected_by::<ItemKey, ItemValue, ItemInSet>(f),
                ks_seq.to_set(),
            );
        }
        let deleted = self.items.delete(&f);
        if deleted.len() == id_count {
            proof {
                assert forall|i: int| 0 <= i < in_views.len() implies m0.contains_key(
                    ItemKey { gid: (#[trigger] in_views[i]) },
                ) by {
                    assert(ks_seq.to_set().contains(ks_seq[i]));
                }
            }
            Ok(())
        } else {
            let ghost dv = crate::table::views_of(deleted@);
            let ghost removed = crate::table::picked_map(
                m0,
                selected_by::<ItemKey, ItemValue, ItemInSet>(f),
            );
            let mut missing: Vec<GlobalId> = Vec::new();
            let mut i: usize = 0;
            while i < f.ids.len()
                invariant
                    i <= in_views.len(),
                    f.ids@ == in_views,
                    dv == crate::table::views_of(deleted@),
                    crate::table::map_of(dv) == removed,
                    removed == crate::table::picked_map(
                        m0,
                        selected_by::<ItemKey, ItemValue, ItemInSet>(f),
                    ),
                    forall|i2: int, j2: int|
                        0 <= i2 < j2 < in_views.len() ==> (#[trigger] in_views[i2]) != (
                        #[trigger] in_views[j2]),
                    missing@.no_duplicates(),
                    forall|g: GlobalId|
                        #[trigger] missing@.contains(g) <==> ((exists|j: int|
                            0 <= j < i && (#[trigger] in_views[j]) == g) && !m0.contains_key(
                            ItemKey { gid: g },
                        )),
                decreases in_views.len() - i,
            {
                let gid = f.ids[i];
                let ghost mpre = missing@;
                let mut found = false;
                let mut j: usize = 0;
                while j < deleted.len()
                    invariant
                        j <= deleted@.len(),
                        dv == crate::table::views_of(deleted@),
                        found <==> exists|x: int|
                            0 <= x < j && (#[trigger] dv[x]).0 == (ItemKey { gid }),
                    decreases deleted@.len() - j,
                {
                    if deleted[j].0.gid.eq_id(&gid) {
                        found = true;
                        proof {
                            assert(dv[j as int].0 == ItemKey { gid });
                        }
                    }
                    j += 1;
                }
                proof {
                    crate::table::lemma_map_of_contains(dv, ItemKey { gid });
                    assert(in_views.contains(gid)) by {
                        assert(in_views[i as int] == gid);
                    }
                    assert(removed.contains_key(ItemKey { gid }) <==> m0.contains_key(
                        ItemKey { gid },
                    ));
                    assert(found <==> crate::table::seq_has_key(dv, ItemKey { gid }));
                }
                if !found {
                    proof {
                        if mpre.contains(gid) {
                            let x = choose|x: int|
                                0 <= x < i && (#[trigger] in_views[x]) == gid;
                        }
                    }
                    missing.push(gid);
                    proof {
                        assert forall|g: GlobalId| #[trigger] missing@.contains(g) implies ((
                        exists|x: int| 0 <= x < i + 1 && (#[trigger] in_views[x]) == g)
                            && !m0.contains_key(ItemKey { gid: g })) by {
                            let x = choose|x: int| 0 <= x < missing@.len() && missing@[x] == g;
                            if x < mpre.len() {
                                assert(mpre[x] == g);
                                assert(mpre.contains(g));
                            } else {
                                assert(g == gid);
                                assert(in_views[i as int] == g);
                            }
                        }
                        assert forall|g: GlobalId|
                            ((exists|x: int| 0 <= x < i + 1 && (#[trigger] in_views[x]) == g)
                                && !m0.contains_key(ItemKey { gid: g })) implies #[trigger] missing@.contains(
                            g,
                        ) by {
                            let x = choose|x: int|
                                0 <= x < i + 1 && (#[trigger] in_views[x]) == g;
                            if x < i {
                                assert(mpre.contains(g));
                                let y = choose|y: int| 0 <= y < mpre.len() && mpre[y] == g;
                                assert(missing@[y] == g);
                            } else {
                                assert(missing@[missing@.len() - 1] == g);
                            }
                        }
                        assert(missing@.no_duplicates()) by {
                            assert forall|a: int, b: int|
                                0 <= a < missing@.len() && 0 <= b < missing@.len() && a != b implies missing@[a]
                                != missing@[b] by {
                                if a < mpre.len() && b < mpre.len() {
                                    assert(mpre[a] == missing@[a] && mpre[b] == missing@[b]);
                                } else if a < mpre.len() {
                                    assert(missing@[b] == gid);
                                    if mpre[a] == gid {
                                        assert(mpre.contains(gid));
                                    }
                                } else {
                                    assert(missing@[a] == gid);
                                    if mpre[b] == gid {
                                        assert(mpre.contains(gid));
                                    }
                                }
                            }
                        }
                    }
                } else {
                    proof {
                        assert(m0.contains_key(ItemKey { gid: in_views[i as int] }));
                        assert forall|g: GlobalId|
                            ((exists|x: int| 0 <= x < i + 1 && (#[trigger] in_views[x]) == g)
                                && !m0.contains_key(ItemKey { gid: g })) implies #[trigger] missing@.contains(
                            g,
                        ) by {
                            let x = choose|x: int|
                                0 <= x < i + 1 && (#[trigger] in_views[x]) == g;
                            assert(x < i) by {
                                if x == i {
                                    assert(m0.contains_key(ItemKey { gid: g }));
                                }
                            }
                        }
                    }
                }
                i += 1;
            }
            proof {
                assert(missing@.len() > 0) by {
                    if missing@.len() == 0 {
                        assert forall|k: ItemKey| ks_seq.to_set().contains(k) implies m0.dom().contains(
                            k,
                        ) by {
                            let x = choose|x: int| 0 <= x < ks_seq.len() && ks_seq[x] == k;
                            if !m0.contains_key(ItemKey { gid: in_views[x] }) {
                                assert((exists|j: int|
                                    0 <= j < in_views.len() && (#[trigger] in_views[j])
                                        == in_views[x]) && !m0.contains_key(
                                    ItemKey { gid: in_views[x] },
                                ));
                                assert(missing@.contains(in_views[x]));
                            }
                        }
                        assert(ks_seq.to_set().subset_of(m0.dom()));
                    }
                }
            }
            Err(CatalogError::UnknownItems(missing))
        }
    }

    /// Upserts (for `Some`) or deletes (for `None`) one default privilege.
    pub fn set_default_privilege(
        &mut self,
        role_id: RoleId,
        database_id: Option<DatabaseId>,
        schema_id: Option<SchemaId>,
        object_type: ObjectType,
        grantee: RoleId,
        privileges: Option<AclMode>,
    ) -> (r: Result<(), CatalogError>)
        requires
            old(self).wf(),
        ensures
            final(self).wf(),
            final(self).same_except_default_privileges(*old(self)),
            final(self).default_privileges().base() == old(self).default_privileges().base(),
            r is Ok,
            ({
                let key = DefaultPrivilegesKey {
                    role_id,
                    database_id,
                    schema_id,
                    object_type,
                    grantee,
                };
                match privileges {
                    Some(p) => final(self).default_privileges().live() == old(
                        self,
                    ).default_privileges().live().insert(key, DefaultPrivilegesValue {
                        privileges: p,
                    }),
                    None => final(self).default_privileges().live() == old(
                        self,
                    ).default_privileges().live().remove(key),
                }
            }),
    {
        let key = DefaultPrivilegesKey { role_id, database_id, schema_id, object_type, grantee };
        let value = match privileges {
            Some(p) => Some(DefaultPrivilegesValue { privileges: p }),
            None => None,
        };
        match self.default_privileges.set(key, value) {
            Ok(_) => Ok(()),
            Err(_) => {
                proof {
                    assert(false);
                }
                Err(CatalogError::UniquenessViolation)
            },
        }
    }

    /// Upserts a batch of default privileges, in order.
    pub fn set_default_privileges(&mut self, default_privileges: Vec<DefaultPrivilege>) -> (r:
        Result<(), CatalogError>)
        requires
            old(self).wf(),
        ensures
            final(self).wf(),
            final(self).same_except_default_privileges(*old(self)),
            final(self).default_privileges().base() == old(self).default_privileges().base(),
            r is Ok,
            final(self).default_privileges().live() == dp_upd_map(
                old(self).default_privileges().live(),
                default_privileges@,
            ),
    {
        let ghost m0 = self.default_privileges.live();
        let ghost dps = default_privileges@;
        let mut i: usize = 0;
        while i < default_privileges.len()
            invariant
                self.wf(),
                dps == default_privileges@,
                i <= dps.len(),
                self.default_privileges().live() == dp_upd_map(m0, dps.take(i as int)),
                self.default_privileges().base() == old(self).default_privileges().base(),
                self.default_privileges().predicate() == old(
                    self,
                ).default_privileges().predicate(),
                self.databases == old(self).databases,
                self.schemas == old(self).schemas,
                self.items == old(self).items,
                self.comments == old(self).comments,
                self.roles == old(self).roles,
                self.clusters == old(self).clusters,
                self.cluster_replicas == old(self).cluster_replicas,
                self.introspection_sources == old(self).introspection_sources,
                self.id_allocator == old(self).id_allocator,
                self.configs == old(self).configs,
                self.settings == old(self).settings,
                self.timestamps == old(self).timestamps,
                self.system_gid_mapping == old(self).system_gid_mapping,
                self.system_configurations == old(self).system_configurations,
                self.system_privileges == old(self).system_privileges,
                self.audit_log_updates == old(self).audit_log_updates,
                self.storage_usage_updates == old(self).storage_usage_updates,
                self.connection_timeout == old(self).connection_timeout,
            decreases dps.len() - i,
        {
            let dp = default_privileges[i];
            let (key, value) = dp.into_key_value();
            match self.default_privileges.set(key, Some(value)) {
                Ok(_) => {},
                Err(_) => {
                    proof {
                        assert(false);
                    }
                    return Err(CatalogError::UniquenessViolation);
                },
            }
            proof {
                assert(dps.take(i + 1 as int).drop_last() =~= dps.take(i as int));
                assert(dps.take(i + 1 as int).last() == dps[i as int]);
            }
            i += 1;
        }
        proof {
            assert(dps.take(dps.len() as int) =~= dps);
        }
        Ok(())
    }

    /// Upserts (for `Some`) or deletes (for `None`) one system privilege.
    pub fn set_system_privilege(
        &mut self,
        grantee: RoleId,
        grantor: RoleId,
        acl_mode: Option<AclMode>,
    ) -> (r: Result<(), CatalogError>)
        requires
            old(self).wf(),
        ensures
            final(self).wf(),
            final(self).same_except_system_privileges(*old(self)),
            final(self).system_privileges().base() == old(self).system_privileges().base(),
            r is Ok,
            ({
                let key = SystemPrivilegesKey { grantee, grantor };
                match acl_mode {
                    Some(p) => final(self).system_privileges().live() == old(
                        self,
                    ).system_privileges().live().insert(key, SystemPrivilegesValue {
                        acl_mode: p,
                    }),
                    None => final(self).system_privileges().live() == old(
                        self,
                    ).system_privileges().live().remove(key),
                }
            }),
    {
        let key = SystemPrivilegesKey { grantee, grantor };
        let value = match acl_mode {
            Some(p) => Some(SystemPrivilegesValue { acl_mode: p }),
            None => None,
        };
        match self.system_privileges.set(key, value) {
            Ok(_) => Ok(()),
            Err(_) => {
                proof {
                    assert(false);
                }
                Err(CatalogError::UniquenessViolation)
            },
        }
    }

    /// Upserts a batch of system privileges, in order.
    pub fn set_system_privileges(&mut self, system_privileges: Vec<AclItem>) -> (r: Result<
        (),
        CatalogError,
    >)
        requires
            old(self).wf(),
        ensures
            final(self).wf(),
            final(self).same_except_system_privileges(*old(self)),
            final(self).system_privileges().base() == old(self).system_privileges().base(),
            r is Ok,
            final(self).system_privileges().live() == sp_upd_map(
                old(self).system_privileges().live(),
                system_privileges@,
            ),
    {
        let ghost m0 = self.system_privileges.live();
        let ghost sps = system_privileges@;
        let mut i: usize = 0;
        while i < system_privileges.len()
            invariant
                self.wf(),
                sps == system_privileges@,
                i <= sps.len(),
                self.system_privileges().live() == sp_upd_map(m0, sps.take(i as int)),
                self.system_privileges().base() == old(self).system_privileges().base(),
                self.system_privileges().predicate() == old(self).system_privileges().predicate(),
                self.databases == old(self).databases,
                self.schemas == old(self).schemas,
                self.items == old(self).items,
                self.comments == old(self).comments,
                self.roles == old(self).roles,
                self.clusters == old(self).clusters,
                self.cluster_replicas == old(self).cluster_replicas,
                self.introspection_sources == old(self).introspection_sources,
                self.id_allocator == old(self).id_allocator,
                self.configs == old(self).configs,
                self.settings == old(self).settings,
                self.timestamps == old(self).timestamps,
                self.system_gid_mapping == old(self).system_gid_mapping,
                self.system_configurations == old(self).system_configurations,
                self.default_privileges == old(self).default_privileges,
                self.audit_log_updates == old(self).audit_log_updates,
                self.storage_usage_updates == old(self).storage_usage_updates,
                self.connection_timeout == old(self).connection_timeout,
            decreases sps.len() - i,
        {
            let item = system_privileges[i];
            match self.system_privileges.set(
                SystemPrivilegesKey { grantee: item.grantee, grantor: item.grantor },
                Some(SystemPrivilegesValue { acl_mode: item.acl_mode }),
            ) {
                Ok(_) => {},
                Err(_) => {
                    proof {
                        assert(false);
                    }
                    return Err(CatalogError::UniquenessViolation);
                },
            }
            proof {
                assert(sps.take(i + 1 as int).drop_last() =~= sps.take(i as int));
                assert(sps.take(i + 1 as int).last() == sps[i as int]);
            }
            i += 1;
        }
        proof {
            assert(sps.take(sps.len() as int) =~= sps);
        }
        Ok(())
    }

    /// Upserts (for `Some`) or deletes (for `None`) one setting.
    pub(crate) fn set_setting(&mut self, name: String, value: Option<String>) -> (r: Result<
        (),
        CatalogError,
    >)
        requires
            old(self).wf(),
        ensures
            final(self).wf(),
            final(self).same_except_settings(*old(self)),
            final(self).settings().base() == old(self).settings().base(),
            r is Ok,
            match value {
                Some(v) => final(self).settings().live() == old(self).settings().live().insert(
                    name@,
                    v@,
                ),
                None => final(self).settings().live() == old(self).settings().live().remove(
                    name@,
                ),
            },
    {
        let v = match value {
            Some(v) => Some(SettingValue { value: v }),
            None => None,
        };
        match self.settings.set(SettingKey { name }, v) {
            Ok(_) => Ok(()),
            Err(_) => {
                proof {
                    assert(false);
                }
                Err(CatalogError::UniquenessViolation)
            },
        }
    }

    /// Records the catalog content version setting.
    pub fn set_catalog_content_version(&mut self, version: String) -> (r: Result<
        (),
        CatalogError,
    >)
        requires
            old(self).wf(),
        ensures
            final(self).wf(),
            final(self).same_except_settings(*old(self)),
            final(self).settings().base() == old(self).settings().base(),
            r is Ok,
            final(self).settings().live() == old(self).settings().live().insert(
                spec_catalog_content_version_key(),
                version@,
            ),
    {
        self.set_setting(catalog_content_version_key().to_string(), Some(version))
    }

    /// Upserts the read timestamp of a timeline.
    pub fn set_timestamp(&mut self, timeline: String, ts: u64) -> (r: Result<(), CatalogError>)
        requires
            old(self).wf(),
        ensures
            final(self).wf(),
            final(self).same_except_timestamps(*old(self)),
            final(self).timestamps().base() == old(self).timestamps().base(),
            r is Ok,
            final(self).timestamps().live() == old(self).timestamps().live().insert(
                timeline@,
                TimestampValue { ts },
            ),
    {
        let timeline_timestamp = TimelineTimestamp { timeline, ts };
        let (key, value) = timeline_timestamp.into_key_value();
        match self.timestamps.set(key, Some(value)) {
            Ok(_) => Ok(()),
            Err(_) => {
                proof {
                    assert(false);
                }
                Err(CatalogError::UniquenessViolation)
            },
        }
    }

    /// Upserts one config row.
    pub(crate) fn set_config(&mut self, key: String, value: u64) -> (r: Result<(), CatalogError>)
        requires
            old(self).wf(),
        ensures
            final(self).wf(),
            final(self).same_except_configs(*old(self)),
            final(self).configs().base() == old(self).configs().base(),
            r is Ok,
            final(self).configs().live() == old(self).configs().live().insert(
                key@,
                ConfigValue { value },
            ),
    {
        let config = Config { key, value };
        let (k, v) = config.into_key_value();
        match self.configs.set(k, Some(v)) {
            Ok(_) => Ok(()),
            Err(_) => {
                proof {
                    assert(false);
                }
                Err(CatalogError::UniquenessViolation)
            },
        }
    }

    /// Mirrors the persist-txn-tables system variable into the config table.
    pub fn set_persist_txn_tables(&mut self, value: PersistTxnTablesImpl) -> (r: Result<
        (),
        CatalogError,
    >)
        requires
            old(self).wf(),
        ensures
            final(self).wf(),
            final(self).same_except_configs(*old(self)),
            final(self).configs().base() == old(self).configs().base(),
            r is Ok,
            final(self).configs().live() == old(self).configs().live().insert(
                spec_persist_txn_tables_key(),
                ConfigValue { value: value.spec_u64() },
            ),
    {
        self.set_config(persist_txn_tables_key().to_string(), value.to_u64())
    }

    /// Records that system configuration has been synced at least once.
    pub fn set_system_config_synced_once(&mut self) -> (r: Result<(), CatalogError>)
        requires
            old(self).wf(),
        ensures
            final(self).wf(),
            final(self).same_except_configs(*old(self)),
            final(self).configs().base() == old(self).configs().base(),
            r is Ok,
            final(self).configs().live() == old(self).configs().live().insert(
                spec_system_config_synced_key(),
                ConfigValue { value: 1 },
            ),
    {
        self.set_config(system_config_synced_key().to_string(), 1)
    }

    /// Upserts (for `Some`) or deletes (for `None`) the comment attached to
    /// one object component.
    pub fn update_comment(
        &mut self,
        object_id: CommentObjectId,
        sub_component: Option<usize>,
        comment: Option<String>,
    ) -> (r: Result<(), CatalogError>)
        requires
            old(self).wf(),
        ensures
            final(self).wf(),
            final(self).same_except_comments(*old(self)),
            final(self).comments().base() == old(self).comments().base(),
            r is Ok,
            ({
                let key = CommentKey { object_id, sub_component };
                match comment {
                    Some(c) => final(self).comments().live() == old(
                        self,
                    ).comments().live().insert(key, c@),
                    None => final(self).comments().live() == old(self).comments().live().remove(
                        key,
                    ),
                }
            }),
    {
        let key = CommentKey { object_id, sub_component };
        let value = match comment {
            Some(c) => Some(CommentValue { comment: c }),
            None => None,
        };
        match self.comments.set(key, value) {
            Ok(_) => Ok(()),
            Err(_) => {
                proof {
                    assert(false);
                }
                Err(CatalogError::UniquenessViolation)
            },
        }
    }

    /// Deletes every comment attached to the given object and returns the
    /// deleted rows.
    pub fn drop_comments(&mut self, object_id: CommentObjectId) -> (r: Result<
        Vec<(CommentObjectId, Option<usize>, String)>,
        CatalogError,
    >)
        requires
            old(self).wf(),
        ensures
            final(self).wf(),
            final(self).same_except_comments(*old(self)),
            final(self).comments().base() == old(self).comments().base(),
            ({
                let m0 = old(self).comments().live();
                match r {
                    Ok(out) => {
                        &&& final(self).comments().live() == crate::table::picked_map(
                            m0,
                            not_selected_by::<CommentKey, CommentValue, CommentOfObject>(
                                CommentOfObject { object_id },
                            ),
                        )
                        &&& forall|i: int|
                            0 <= i < out@.len() ==> {
                                let key = CommentKey {
                                    object_id: (#[trigger] out@[i]).0,
                                    sub_component: out@[i].1,
                                };
                                &&& out@[i].0 == object_id
                                &&& m0.contains_key(key)
                                &&& m0[key] == out@[i].2@
                            }
                        &&& forall|k: CommentKey| #[trigger]
                            m0.contains_key(k) && k.object_id == object_id ==> exists|i: int|
                                0 <= i < out@.len() && (#[trigger] out@[i]).1 == k.sub_component
                    },
                    Err(_) => false,
                }
            }),
    {
        let ghost m0 = self.comments.live();
        let f = CommentOfObject { object_id };
        let deleted = self.comments.delete(&f);
        let ghost dv = crate::table::views_of(deleted@);
        let ghost removed = crate::table::picked_map(
            m0,
            selected_by::<CommentKey, CommentValue, CommentOfObject>(f),
        );
        let mut out: Vec<(CommentObjectId, Option<usize>, String)> = Vec::new();
        let mut i: usize = 0;
        while i < deleted.len()
            invariant
                i <= deleted@.len(),
                dv == crate::table::views_of(deleted@),
                crate::table::map_of(dv) == removed,
                removed == crate::table::picked_map(
                    m0,
                    selected_by::<CommentKey, CommentValue, CommentOfObject>(
                        CommentOfObject { object_id },
                    ),
                ),
                crate::table::keys_unique(dv),
                out@.len() == i,
                forall|j: int|
                    0 <= j < i ==> (#[trigger] out@[j]) == (
                        dv[j].0.object_id,
                        dv[j].0.sub_component,
                        out@[j].2,
                    ) && out@[j].2@ == dv[j].1,
            decreases deleted@.len() - i,
        {
            let pair = &deleted[i];
            out.push((pair.0.object_id, pair.0.sub_component, pair.1.comment.clone()));
            i += 1;
        }
        proof {
            assert forall|j: int| 0 <= j < out@.len() implies {
                let key = CommentKey {
                    object_id: (#[trigger] out@[j]).0,
                    sub_component: out@[j].1,
                };
                &&& out@[j].0 == object_id
                &&& m0.contains_key(key)
                &&& m0[key] == out@[j].2@
            } by {
                crate::table::lemma_map_of_index(dv, j);
                assert(dv[j].0 == (CommentKey { object_id: out@[j].0, sub_component: out@[j].1 }));
                assert(removed.contains_key(dv[j].0));
            }
            assert forall|k: CommentKey| #[trigger]
                m0.contains_key(k) && k.object_id == object_id implies exists|i2: int|
                0 <= i2 < out@.len() && (#[trigger] out@[i2]).1 == k.sub_component by {
                assert(removed.contains_key(k));
                crate::table::lemma_map_of_contains(dv, k);
                let j = choose|j: int| 0 <= j < dv.len() && dv[j].0 == k;
                assert(out@[j].1 == k.sub_component);
            }
        }
        Ok(out)
    }

    /// Upserts one system configuration row.
    pub fn upsert_system_config(&mut self, name: &str, value: String) -> (r: Result<
        (),
        CatalogError,
    >)
        requires
            old(self).wf(),
        ensures
            final(self).wf(),
            final(self).same_except_system_configurations(*old(self)),
            final(self).system_configurations().base() == old(
                self,
            ).system_configurations().base(),
            r is Ok,
            final(self).system_configurations().live() == old(
                self,
            ).system_configurations().live().insert(name@, value@),
    {
        let key = ServerConfigurationKey { name: name.to_string() };
        let v = ServerConfigurationValue { value };
        match self.system_configurations.set(key, Some(v)) {
            Ok(_) => Ok(()),
            Err(_) => {
                proof {
                    assert(false);
                }
                Err(CatalogError::UniquenessViolation)
            },
        }
    }

    /// Deletes one system configuration row, if present.
    pub fn remove_system_config(&mut self, name: &str)
        requires
            old(self).wf(),
        ensures
            final(self).wf(),
            final(self).same_except_system_configurations(*old(self)),
            final(self).system_configurations().base() == old(
                self,
            ).system_configurations().base(),
            final(self).system_configurations().live() == old(
                self,
            ).system_configurations().live().remove(name@),
    {
        let key = ServerConfigurationKey { name: name.to_string() };
        match self.system_configurations.set(key, None) {
            Ok(_) => {},
            Err(_) => {
                proof {
                    assert(false);
                }
            },
        }
    }

    /// Deletes every system configuration row.
    pub fn clear_system_configs(&mut self)
        requires
            old(self).wf(),
        ensures
            final(self).wf(),
            final(self).same_except_system_configurations(*old(self)),
            final(self).system_configurations().base() == old(
                self,
            ).system_configurations().base(),
            final(self).system_configurations().live() == Map::<Seq<char>, Seq<char>>::empty(),
    {
        let f = AllRows;
        self.system_configurations.delete(&f);
        proof {
            assert(crate::table::picked_map(
                old(self).system_configurations().live(),
                not_selected_by::<ServerConfigurationKey, ServerConfigurationValue, AllRows>(f),
            ) =~= Map::<Seq<char>, Seq<char>>::empty());
        }
    }

    /// Whether the named migration has been marked as run.
    pub fn check_migration_has_run(&mut self, name: String) -> (r: Result<bool, CatalogError>)
        requires
            old(self).wf(),
        ensures
            *final(self) == *old(self),
            r == Ok::<bool, CatalogError>(old(self).settings().live().contains_key(name@)),
    {
        let key = SettingKey { name };
        Ok(self.settings.get(&key).is_some())
    }

    /// Marks the named migration as run. Fails exactly when it was already
    /// marked.
    pub fn mark_migration_has_run(&mut self, name: String) -> (r: Result<(), CatalogError>)
        requires
            old(self).wf(),
        ensures
            final(self).wf(),
            final(self).same_except_settings(*old(self)),
            final(self).settings().base() == old(self).settings().base(),
            match r {
                Ok(_) => {
                    &&& !old(self).settings().live().contains_key(name@)
                    &&& final(self).settings().live() == old(self).settings().live().insert(
                        name@,
                        "true"@,
                    )
                },
                Err(e) => {
                    &&& *final(self) == *old(self)
                    &&& old(self).settings().live().contains_key(name@)
                    &&& e == CatalogError::UniquenessViolation
                },
            },
    {
        let key = SettingKey { name };
        let val = SettingValue { value: "true".to_string() };
        match self.settings.insert(key, val) {
            Ok(_) => Ok(()),
            Err(_) => Err(CatalogError::UniquenessViolation),
        }
    }

    /// Upserts a batch of introspection source index rows, in order. Every
    /// index id must be a system id.
    pub fn set_introspection_source_indexes(
        &mut self,
        introspection_source_indexes: Vec<IntrospectionSourceIndex>,
    ) -> (r: Result<(), CatalogError>)
        requires
            old(self).wf(),
            forall|i: int|
                0 <= i < introspection_source_indexes@.len() ==> (
                #[trigger] introspection_source_indexes@[i]).index_id is System,
        ensures
            final(self).wf(),
            final(self).same_except_introspection_sources(*old(self)),
            final(self).introspection_sources().base() == old(
                self,
            ).introspection_sources().base(),
            r is Ok,
            final(self).introspection_sources().live() == isi_upd_map(
                old(self).introspection_sources().live(),
                introspection_source_indexes@,
            ),
    {
        let ghost m0 = self.introspection_sources.live();
        let ghost isis = introspection_source_indexes@;
        let mut rest = introspection_source_indexes;
        let n_total = rest.len();
        proof {
            assert(isis.len() == n_total);
        }
        let mut i: usize = 0;
        while rest.len() > 0
            invariant
                self.wf(),
                isis.len() <= usize::MAX,
                i == isis.len() - rest@.len(),
                rest@.len() <= isis.len(),
                rest@ == isis.subrange(isis.len() - rest@.len(), isis.len() as int),
                forall|x: int| 0 <= x < isis.len() ==> (#[trigger] isis[x]).index_id is System,
                self.introspection_sources().live() == isi_upd_map(m0, isis.take(i as int)),
                self.introspection_sources().base() == old(self).introspection_sources().base(),
                self.introspection_sources().predicate() == old(
                    self,
                ).introspection_sources().predicate(),
                self.databases == old(self).databases,
                self.schemas == old(self).schemas,
                self.items == old(self).items,
                self.comments == old(self).comments,
                self.roles == old(self).roles,
                self.clusters == old(self).clusters,
                self.cluster_replicas == old(self).cluster_replicas,
                self.id_allocator == old(self).id_allocator,
                self.configs == old(self).configs,
                self.settings == old(self).settings,
                self.timestamps == old(self).timestamps,
                self.system_gid_mapping == old(self).system_gid_mapping,
                self.system_configurations == old(self).system_configurations,
                self.default_privileges == old(self).default_privileges,
                self.system_privileges == old(self).system_privileges,
                self.audit_log_updates == old(self).audit_log_updates,
                self.storage_usage_updates == old(self).storage_usage_updates,
                self.connection_timeout == old(self).connection_timeout,
            decreases rest@.len(),
        {
            let ghost done = isis.len() - rest@.len();
            let ghost pre = rest@;
            proof {
                assert(pre[0] == isis.subrange(done, isis.len() as int)[0]);
            }
            let isi = rest.remove(0);
            proof {
                assert(rest@ == pre.remove(0));
                pre.remove_ensures(0);
                assert forall|j: int| 0 <= j < rest@.len() implies rest@[j] == isis[done + 1
                    + j] by {
                    assert(rest@[j] == pre.remove(0)[j]);
                    assert(pre.remove(0)[j] == pre[j + 1]);
                    assert(pre[j + 1] == isis.subrange(done, isis.len() as int)[j + 1]);
                    assert(isis.subrange(done, isis.len() as int)[j + 1] == isis[done + j + 1]);
                }
                assert(rest@ =~= isis.subrange(done + 1, isis.len() as int));
            }
            let (key, value) = isi.into_key_value();
            match self.introspection_sources.set(key, Some(value)) {
                Ok(_) => {},
                Err(_) => {
                    proof {
                        assert(false);
                    }
                    return Err(CatalogError::UniquenessViolation);
                },
            }
            proof {
                assert(isis.take(i + 1 as int).drop_last() =~= isis.take(i as int));
                assert(isis.take(i + 1 as int).last() == isis[i as int]);
            }
            i += 1;
        }
        proof {
            assert(isis.take(isis.len() as int) =~= isis);
        }
        Ok(())
    }

    /// Upserts a batch of system object mapping rows, in order. Every
    /// mapped id must be a system id.
    pub fn set_system_object_mappings(&mut self, mappings: Vec<SystemObjectMapping>) -> (r:
        Result<(), CatalogError>)
        requires
            old(self).wf(),
            forall|i: int|
                0 <= i < mappings@.len() ==> (
                #[trigger] mappings@[i]).unique_identifier.id is System,
        ensures
            final(self).wf(),
            final(self).same_except_system_gid_mapping(*old(self)),
            final(self).system_gid_mapping().base() == old(self).system_gid_mapping().base(),
            r is Ok,
            final(self).system_gid_mapping().live() == som_upd_map(
                old(self).system_gid_mapping().live(),
                mappings@,
            ),
    {
        let ghost m0 = self.system_gid_mapping.live();
        let ghost soms = mappings@;
        let mut rest = mappings;
        let n_total = rest.len();
        proof {
            assert(soms.len() == n_total);
        }
        let mut i: usize = 0;
        while rest.len() > 0
            invariant
                self.wf(),
                soms.len() <= usize::MAX,
                i == soms.len() - rest@.len(),
                rest@.len() <= soms.len(),
                rest@ == soms.subrange(soms.len() - rest@.len(), soms.len() as int),
                forall|x: int|
                    0 <= x < soms.len() ==> (#[trigger] soms[x]).unique_identifier.id is System,
                self.system_gid_mapping().live() == som_upd_map(m0, soms.take(i as int)),
                self.system_gid_mapping().base() == old(self).system_gid_mapping().base(),
                self.system_gid_mapping().predicate() == old(self).system_gid_mapping().predicate(),
                self.databases == old(self).databases,
                self.schemas == old(self).schemas,
                self.items == old(self).items,
                self.comments == old(self).comments,
                self.roles == old(self).roles,
                self.clusters == old(self).clusters,
                self.cluster_replicas == old(self).cluster_replicas,
                self.introspection_sources == old(self).introspection_sources,
                self.id_allocator == old(self).id_allocator,
                self.configs == old(self).configs,
                self.settings == old(self).settings,
                self.timestamps == old(self).timestamps,
                self.system_configurations == old(self).system_configurations,
                self.default_privileges == old(self).default_privileges,
                self.system_privileges == old(self).system_privileges,
                self.audit_log_updates == old(self).audit_log_updates,
                self.storage_usage_updates == old(self).storage_usage_updates,
                self.connection_timeout == old(self).connection_timeout,
            decreases rest@.len(),
        {
            let ghost done = soms.len() - rest@.len();
            let ghost pre = rest@;
            proof {
                assert(pre[0] == soms.subrange(done, soms.len() as int)[0]);
            }
            let som = rest.remove(0);
            proof {
                assert(rest@ == pre.remove(0));
                pre.remove_ensures(0);
                assert forall|j: int| 0 <= j < rest@.len() implies rest@[j] == soms[done + 1
                    + j] by {
                    assert(rest@[j] == pre.remove(0)[j]);
                    assert(pre.remove(0)[j] == pre[j + 1]);
                    assert(pre[j + 1] == soms.subrange(done, soms.len() as int)[j + 1]);
                    assert(soms.subrange(done, soms.len() as int)[j + 1] == soms[done + j + 1]);
                }
                assert(rest@ =~= soms.subrange(done + 1, soms.len() as int));
            }
            let (key, value) = som.into_key_value();
            match self.system_gid_mapping.set(key, Some(value)) {
                Ok(_) => {},
                Err(_) => {
                    proof {
                        assert(false);
                    }
                    return Err(CatalogError::UniquenessViolation);
                },
            }
            proof {
                assert(soms.take(i + 1 as int).drop_last() =~= soms.take(i as int));
                assert(soms.take(i + 1 as int).last() == soms[i as int]);
            }
            i += 1;
        }
        proof {
            assert(soms.take(soms.len() as int) =~= soms);
        }
        Ok(())
    }

    /// Upserts a batch of replica rows, in order. If an upsert would give
    /// two replicas of one cluster the same name, the upserts before it
    /// stay applied and the batch fails.
    pub fn set_replicas(&mut self, replicas: Vec<ClusterReplica>) -> (r: Result<
        (),
        CatalogError,
    >)
        requires
            old(self).wf(),
        ensures
            final(self).wf(),
            final(self).same_except_cluster_replicas(*old(self)),
            final(self).cluster_replicas().base() == old(self).cluster_replicas().base(),
            ({
                let m0 = old(self).cluster_replicas().live();
                let rs = replicas@;
                match r {
                    Ok(_) => {
                        &&& forall|i: int|
                            0 <= i < rs.len() ==> rep_set_ok(
                                rep_upd_map(m0, rs.take(i)),
                                #[trigger] rs[i],
                            )
                        &&& final(self).cluster_replicas().live() == rep_upd_map(m0, rs)
                    },
                    Err(e) => {
                        &&& e == CatalogError::UniquenessViolation
                        &&& exists|f: int|
                            {
                                &&& 0 <= f < rs.len()
                                &&& !rep_set_ok(rep_upd_map(m0, rs.take(f)), #[trigger] rs[f])
                                &&& forall|j: int|
                                    0 <= j < f ==> rep_set_ok(
                                        rep_upd_map(m0, rs.take(j)),
                                        #[trigger] rs[j],
                                    )
                                &&& final(self).cluster_replicas().live() == rep_upd_map(
                                    m0,
                                    rs.take(f),
                                )
                            }
                    },
                }
            }),
    {
        rep_apply_sets(&mut self.cluster_replicas, &replicas)
    }

    /// Every live database row.
    pub fn get_databases(&self) -> (r: Vec<Database>)
        requires
            self.wf(),
        ensures
            r@.len() == self.databases().live().dom().len(),
            forall|i: int|
                0 <= i < r@.len() ==> {
                    let row = #[trigger] r@[i];
                    &&& self.databases().live().contains_key(DatabaseKey { id: row.id })
                    &&& self.databases().live()[DatabaseKey { id: row.id }] == (DatabaseValueView { name: row.name@, owner_id: row.owner_id, privileges: row.privileges@ })
                },
            forall|k| #[trigger]
                self.databases().live().contains_key(k) ==> exists|i: int|
                    0 <= i < r@.len() && ({
                        let row = #[trigger] r@[i];
                        DatabaseKey { id: row.id } == k
                    }),
    {
        let rows = self.databases.items();
        let ghost rv = crate::table::views_of(rows@);
        let mut out: Vec<Database> = Vec::new();
        let mut i: usize = 0;
        while i < rows.len()
            invariant
                self.wf(),
                rv == crate::table::views_of(rows@),
                crate::table::keys_unique(rv),
                crate::table::map_of(rv) == self.databases().live(),
                rows@.len() == self.databases().live().dom().len(),
                i <= rows@.len(),
                out@.len() == i,
                forall|j: int|
                    0 <= j < i ==> {
                        let row = #[trigger] out@[j];
                        (DatabaseKey { id: row.id }, DatabaseValueView { name: row.name@, owner_id: row.owner_id, privileges: row.privileges@ }) == rv[j]
                    },
            decreases rows@.len() - i,
        {
            let d = Database::from_key_value(
                crate::table::TableKey::key_clone(&rows[i].0),
                crate::table::TableValue::val_clone(&rows[i].1),
            );
            out.push(d);
            i += 1;
        }
        proof {
            assert forall|i2: int| 0 <= i2 < out@.len() implies {
                let row = #[trigger] out@[i2];
                &&& self.databases().live().contains_key(DatabaseKey { id: row.id })
                &&& self.databases().live()[DatabaseKey { id: row.id }] == (DatabaseValueView { name: row.name@, owner_id: row.owner_id, privileges: row.privileges@ })
            } by {
                crate::table::lemma_map_of_index(rv, i2);
            }
            assert forall|k| #[trigger] self.databases().live().contains_key(k) implies exists|
                i2: int,
            |
                0 <= i2 < out@.len() && ({
                    let row = #[trigger] out@[i2];
                    DatabaseKey { id: row.id } == k
                }) by {
                crate::table::lemma_map_of_contains(rv, k);
                let x = choose|x: int| 0 <= x < rv.len() && rv[x].0 == k;
                assert({
                    let row = out@[x];
                    DatabaseKey { id: row.id } == k
                });
            }
        }
        out
    }
    /// Every live schema row.
    pub fn get_schemas(&self) -> (r: Vec<Schema>)
        requires
            self.wf(),
        ensures
            r@.len() == self.schemas().live().dom().len(),
            forall|i: int|
                0 <= i < r@.len() ==> {
                    let row = #[trigger] r@[i];
                    &&& self.schemas().live().contains_key(SchemaKey { id: row.id })
                    &&& self.schemas().live()[SchemaKey { id: row.id }] == (SchemaValueView {
                        database_id: row.database_id,
                        name: row.name@,
                        owner_id: row.owner_id,
                        privileges: row.privileges@,
                    })
                },
            forall|k| #[trigger]
                self.schemas().live().contains_key(k) ==> exists|i: int|
                    0 <= i < r@.len() && ({
                        let row = #[trigger] r@[i];
                        SchemaKey { id: row.id } == k
                    }),
    {
        let rows = self.schemas.items();
        let ghost rv = crate::table::views_of(rows@);
        let mut out: Vec<Schema> = Vec::new();
        let mut i: usize = 0;
        while i < rows.len()
            invariant
                self.wf(),
                rv == crate::table::views_of(rows@),
                crate::table::keys_unique(rv),
                crate::table::map_of(rv) == self.schemas().live(),
                rows@.len() == self.schemas().live().dom().len(),
                i <= rows@.len(),
                out@.len() == i,
                forall|j: int|
                    0 <= j < i ==> {
                        let row = #[trigger] out@[j];
                        (SchemaKey { id: row.id }, SchemaValueView {
                        database_id: row.database_id,
                        name: row.name@,
                        owner_id: row.owner_id,
                        privileges: row.privileges@,
                    }) == rv[j]
                    },
            decreases rows@.len() - i,
        {
            let d = Schema::from_key_value(
                crate::table::TableKey::key_clone(&rows[i].0),
                crate::table::TableValue::val_clone(&rows[i].1),
            );
            out.push(d);
            i += 1;
        }
        proof {
            assert forall|i2: int| 0 <= i2 < out@.len() implies {
                let row = #[trigger] out@[i2];
                &&& self.schemas().live().contains_key(SchemaKey { id: row.id })
                &&& self.schemas().live()[SchemaKey { id: row.id }] == (SchemaValueView {
                        database_id: row.database_id,
                        name: row.name@,
                        owner_id: row.owner_id,
                        privileges: row.privileges@,
                    })
            } by {
                crate::table::lemma_map_of_index(rv, i2);
            }
            assert forall|k| #[trigger] self.schemas().live().contains_key(k) implies exists|
                i2: int,
            |
                0 <= i2 < out@.len() && ({
                    let row = #[trigger] out@[i2];
                    SchemaKey { id: row.id } == k
                }) by {
                crate::table::lemma_map_of_contains(rv, k);
                let x = choose|x: int| 0 <= x < rv.len() && rv[x].0 == k;
                assert({
                    let row = out@[x];
                    SchemaKey { id: row.id } == k
                });
            }
        }
        out
    }
    /// Every live role row.
    pub fn get_roles(&self) -> (r: Vec<Role>)
        requires
            self.wf(),
        ensures
            r@.len() == self.roles().live().dom().len(),
            forall|i: int|
                0 <= i < r@.len() ==> {
                    let row = #[trigger] r@[i];
                    &&& self.roles().live().contains_key(RoleKey { id: row.id })
                    &&& self.roles().live()[RoleKey { id: row.id }] == (RoleValueView {
                        name: row.name@,
                        attributes: row.attributes,
                        membership: row.membership.map@,
                        vars: crate::objects::string_pair_views(row.vars.vars@),
                    })
                },
            forall|k| #[trigger]
                self.roles().live().contains_key(k) ==> exists|i: int|
                    0 <= i < r@.len() && ({
                        let row = #[trigger] r@[i];
                        RoleKey { id: row.id } == k
                    }),
    {
        let rows = self.roles.items();
        let ghost rv = crate::table::views_of(rows@);
        let mut out: Vec<Role> = Vec::new();
        let mut i: usize = 0;
        while i < rows.len()
            invariant
                self.wf(),
                rv == crate::table::views_of(rows@),
                crate::table::keys_unique(rv),
                crate::table::map_of(rv) == self.roles().live(),
                rows@.len() == self.roles().live().dom().len(),
                i <= rows@.len(),
                out@.len() == i,
                forall|j: int|
                    0 <= j < i ==> {
                        let row = #[trigger] out@[j];
                        (RoleKey { id: row.id }, RoleValueView {
                        name: row.name@,
                        attributes: row.attributes,
                        membership: row.membership.map@,
                        vars: crate::objects::string_pair_views(row.vars.vars@),
                    }) == rv[j]
                    },
            decreases rows@.len() - i,
        {
            let d = Role::from_key_value(
                crate::table::TableKey::key_clone(&rows[i].0),
                crate::table::TableValue::val_clone(&rows[i].1),
            );
            out.push(d);
            i += 1;
        }
        proof {
            assert forall|i2: int| 0 <= i2 < out@.len() implies {
                let row = #[trigger] out@[i2];
                &&& self.roles().live().contains_key(RoleKey { id: row.id })
                &&& self.roles().live()[RoleKey { id: row.id }] == (RoleValueView {
                        name: row.name@,
                        attributes: row.attributes,
                        membership: row.membership.map@,
                        vars: crate::objects::string_pair_views(row.vars.vars@),
                    })
            } by {
                crate::table::lemma_map_of_index(rv, i2);
            }
            assert forall|k| #[trigger] self.roles().live().contains_key(k) implies exists|
                i2: int,
            |
                0 <= i2 < out@.len() && ({
                    let row = #[trigger] out@[i2];
                    RoleKey { id: row.id } == k
                }) by {
                crate::table::lemma_map_of_contains(rv, k);
                let x = choose|x: int| 0 <= x < rv.len() && rv[x].0 == k;
                assert({
                    let row = out@[x];
                    RoleKey { id: row.id } == k
                });
            }
        }
        out
    }
    /// Every live cluster row.
    pub fn get_clusters(&self) -> (r: Vec<Cluster>)
        requires
            self.wf(),
        ensures
            r@.len() == self.clusters().live().dom().len(),
            forall|i: int|
                0 <= i < r@.len() ==> {
                    let row = #[trigger] r@[i];
                    &&& self.clusters().live().contains_key(ClusterKey { id: row.id })
                    &&& self.clusters().live()[ClusterKey { id: row.id }] == (ClusterValueView {
                        name: row.name@,
                        linked_object_id: row.linked_object_id,
                        owner_id: row.owner_id,
                        privileges: row.privileges@,
                        config: row.config@,
                    })
                },
            forall|k| #[trigger]
                self.clusters().live().contains_key(k) ==> exists|i: int|
                    0 <= i < r@.len() && ({
                        let row = #[trigger] r@[i];
                        ClusterKey { id: row.id } == k
                    }),
    {
        let rows = self.clusters.items();
        let ghost rv = crate::table::views_of(rows@);
        let mut out: Vec<Cluster> = Vec::new();
        let mut i: usize = 0;
        while i < rows.len()
            invariant
                self.wf(),
                rv == crate::table::views_of(rows@),
                crate::table::keys_unique(rv),
                crate::table::map_of(rv) == self.clusters().live(),
                rows@.len() == self.clusters().live().dom().len(),
                i <= rows@.len(),
                out@.len() == i,
                forall|j: int|
                    0 <= j < i ==> {
                        let row = #[trigger] out@[j];
                        (ClusterKey { id: row.id }, ClusterValueView {
                        name: row.name@,
                        linked_object_id: row.linked_object_id,
                        owner_id: row.owner_id,
                        privileges: row.privileges@,
                        config: row.config@,
                    }) == rv[j]
                    },
            decreases rows@.len() - i,
        {
            let d = Cluster::from_key_value(
                crate::table::TableKey::key_clone(&rows[i].0),
                crate::table::TableValue::val_clone(&rows[i].1),
            );
            out.push(d);
            i += 1;
        }
        proof {
            assert forall|i2: int| 0 <= i2 < out@.len() implies {
                let row = #[trigger] out@[i2];
                &&& self.clusters().live().contains_key(ClusterKey { id: row.id })
                &&& self.clusters().live()[ClusterKey { id: row.id }] == (ClusterValueView {
                        name: row.name@,
                        linked_object_id: row.linked_object_id,
                        owner_id: row.owner_id,
                        privileges: row.privileges@,
                        config: row.config@,
                    })
            } by {
                crate::table::lemma_map_of_index(rv, i2);
            }
            assert forall|k| #[trigger] self.clusters().live().contains_key(k) implies exists|
                i2: int,
            |
                0 <= i2 < out@.len() && ({
                    let row = #[trigger] out@[i2];
                    ClusterKey { id: row.id } == k
                }) by {
                crate::table::lemma_map_of_contains(rv, k);
                let x = choose|x: int| 0 <= x < rv.len() && rv[x].0 == k;
                assert({
                    let row = out@[x];
                    ClusterKey { id: row.id } == k
                });
            }
        }
        out
    }
    /// Every live cluster replica row.
    pub fn get_cluster_replicas(&self) -> (r: Vec<ClusterReplica>)
        requires
            self.wf(),
        ensures
            r@.len() == self.cluster_replicas().live().dom().len(),
            forall|i: int|
                0 <= i < r@.len() ==> {
                    let row = #[trigger] r@[i];
                    &&& self.cluster_replicas().live().contains_key(ClusterReplicaKey { id: row.replica_id })
                    &&& self.cluster_replicas().live()[ClusterReplicaKey { id: row.replica_id }] == (ClusterReplicaValueView {
                        cluster_id: row.cluster_id,
                        name: row.name@,
                        config: row.config@,
                        owner_id: row.owner_id,
                    })
                },
            forall|k| #[trigger]
                self.cluster_replicas().live().contains_key(k) ==> exists|i: int|
                    0 <= i < r@.len() && ({
                        let row = #[trigger] r@[i];
                        ClusterReplicaKey { id: row.replica_id } == k
                    }),
    {
        let rows = self.cluster_replicas.items();
        let ghost rv = crate::table::views_of(rows@);
        let mut out: Vec<ClusterReplica> = Vec::new();
        let mut i: usize = 0;
        while i < rows.len()
            invariant
                self.wf(),
                rv == crate::table::views_of(rows@),
                crate::table::keys_unique(rv),
                crate::table::map_of(rv) == self.cluster_replicas().live(),
                rows@.len() == self.cluster_replicas().live().dom().len(),
                i <= rows@.len(),
                out@.len() == i,
                forall|j: int|
                    0 <= j < i ==> {
                        let row = #[trigger] out@[j];
                        (ClusterReplicaKey { id: row.replica_id }, ClusterReplicaValueView {
                        cluster_id: row.cluster_id,
                        name: row.name@,
                        config: row.config@,
                        owner_id: row.owner_id,
                    }) == rv[j]
                    },
            decreases rows@.len() - i,
        {
            let d = ClusterReplica::from_key_value(
                crate::table::TableKey::key_clone(&rows[i].0),
                crate::table::TableValue::val_clone(&rows[i].1),
            );
            out.push(d);
            i += 1;
        }
        proof {
            assert forall|i2: int| 0 <= i2 < out@.len() implies {
                let row = #[trigger] out@[i2];
                &&& self.cluster_replicas().live().contains_key(ClusterReplicaKey { id: row.replica_id })
                &&& self.cluster_replicas().live()[ClusterReplicaKey { id: row.replica_id }] == (ClusterReplicaValueView {
                        cluster_id: row.cluster_id,
                        name: row.name@,
                        config: row.config@,
                        owner_id: row.owner_id,
                    })
            } by {
                crate::table::lemma_map_of_index(rv, i2);
            }
            assert forall|k| #[trigger] self.cluster_replicas().live().contains_key(k) implies exists|
                i2: int,
            |
                0 <= i2 < out@.len() && ({
                    let row = #[trigger] out@[i2];
                    ClusterReplicaKey { id: row.replica_id } == k
                }) by {
                crate::table::lemma_map_of_contains(rv, k);
                let x = choose|x: int| 0 <= x < rv.len() && rv[x].0 == k;
                assert({
                    let row = out@[x];
                    ClusterReplicaKey { id: row.replica_id } == k
                });
            }
        }
        out
    }
    /// Every live comment row.
    pub fn get_comments(&self) -> (r: Vec<Comment>)
        requires
            self.wf(),
        ensures
            r@.len() == self.comments().live().dom().len(),
            forall|i: int|
                0 <= i < r@.len() ==> {
                    let row = #[trigger] r@[i];
                    &&& self.comments().live().contains_key(CommentKey { object_id: row.object_id, sub_component: row.sub_component })
                    &&& self.comments().live()[CommentKey { object_id: row.object_id, sub_component: row.sub_component }] == (row.comment@)
                },
            forall|k| #[trigger]
                self.comments().live().contains_key(k) ==> exists|i: int|
                    0 <= i < r@.len() && ({
                        let row = #[trigger] r@[i];
                        CommentKey { object_id: row.object_id, sub_component: row.sub_component } == k
                    }),
    {
        let rows = self.comments.items();
        let ghost rv = crate::table::views_of(rows@);
        let mut out: Vec<Comment> = Vec::new();
        let mut i: usize = 0;
        while i < rows.len()
            invariant
                self.wf(),
                rv == crate::table::views_of(rows@),
                crate::table::keys_unique(rv),
                crate::table::map_of(rv) == self.comments().live(),
                rows@.len() == self.comments().live().dom().len(),
                i <= rows@.len(),
                out@.len() == i,
                forall|j: int|
                    0 <= j < i ==> {
                        let row = #[trigger] out@[j];
                        (CommentKey { object_id: row.object_id, sub_component: row.sub_component }, row.comment@) == rv[j]
                    },
            decreases rows@.len() - i,
        {
            let d = Comment::from_key_value(
                crate::table::TableKey::key_clone(&rows[i].0),
                crate::table::TableValue::val_clone(&rows[i].1),
            );
            out.push(d);
            i += 1;
        }
        proof {
            assert forall|i2: int| 0 <= i2 < out@.len() implies {
                let row = #[trigger] out@[i2];
                &&& self.comments().live().contains_key(CommentKey { object_id: row.object_id, sub_component: row.sub_component })
                &&& self.comments().live()[CommentKey { object_id: row.object_id, sub_component: row.sub_component }] == (row.comment@)
            } by {
                crate::table::lemma_map_of_index(rv, i2);
            }
            assert forall|k| #[trigger] self.comments().live().contains_key(k) implies exists|
                i2: int,
            |
                0 <= i2 < out@.len() && ({
                    let row = #[trigger] out@[i2];
                    CommentKey { object_id: row.object_id, sub_component: row.sub_component } == k
                }) by {
                crate::table::lemma_map_of_contains(rv, k);
                let x = choose|x: int| 0 <= x < rv.len() && rv[x].0 == k;
                assert({
                    let row = out@[x];
                    CommentKey { object_id: row.object_id, sub_component: row.sub_component } == k
                });
            }
        }
        out
    }
    /// Every live default privilege row.
    pub fn get_default_privileges(&self) -> (r: Vec<DefaultPrivilege>)
        requires
            self.wf(),
        ensures
            r@.len() == self.default_privileges().live().dom().len(),
            forall|i: int|
                0 <= i < r@.len() ==> {
                    let row = #[trigger] r@[i];
                    &&& self.default_privileges().live().contains_key(DefaultPrivilegesKey {
                        role_id: row.object.role_id,
                        database_id: row.object.database_id,
                        schema_id: row.object.schema_id,
                        object_type: row.object.object_type,
                        grantee: row.acl_item.grantee,
                    })
                    &&& self.default_privileges().live()[DefaultPrivilegesKey {
                        role_id: row.object.role_id,
                        database_id: row.object.database_id,
                        schema_id: row.object.schema_id,
                        object_type: row.object.object_type,
                        grantee: row.acl_item.grantee,
                    }] == (DefaultPrivilegesValue { privileges: row.acl_item.privileges })
                },
            forall|k| #[trigger]
                self.default_privileges().live().contains_key(k) ==> exists|i: int|
                    0 <= i < r@.len() && ({
                        let row = #[trigger] r@[i];
                        DefaultPrivilegesKey {
                        role_id: row.object.role_id,
                        database_id: row.object.database_id,
                        schema_id: row.object.schema_id,
                        object_type: row.object.object_type,
                        grantee: row.acl_item.grantee,
                    } == k
                    }),
    {
        let rows = self.default_privileges.items();
        let ghost rv = crate::table::views_of(rows@);
        let mut out: Vec<DefaultPrivilege> = Vec::new();
        let mut i: usize = 0;
        while i < rows.len()
            invariant
                self.wf(),
                rv == crate::table::views_of(rows@),
                crate::table::keys_unique(rv),
                crate::table::map_of(rv) == self.default_privileges().live(),
                rows@.len() == self.default_privileges().live().dom().len(),
                i <= rows@.len(),
                out@.len() == i,
                forall|j: int|
                    0 <= j < i ==> {
                        let row = #[trigger] out@[j];
                        (DefaultPrivilegesKey {
                        role_id: row.object.role_id,
                        database_id: row.object.database_id,
                        schema_id: row.object.schema_id,
                        object_type: row.object.object_type,
                        grantee: row.acl_item.grantee,
                    }, DefaultPrivilegesValue { privileges: row.acl_item.privileges }) == rv[j]
                    },
            decreases rows@.len() - i,
        {
            let d = DefaultPrivilege::from_key_value(
                crate::table::TableKey::key_clone(&rows[i].0),
                crate::table::TableValue::val_clone(&rows[i].1),
            );
            out.push(d);
            i += 1;
        }
        proof {
            assert forall|i2: int| 0 <= i2 < out@.len() implies {
                let row = #[trigger] out@[i2];
                &&& self.default_privileges().live().contains_key(DefaultPrivilegesKey {
                        role_id: row.object.role_id,
                        database_id: row.object.database_id,
                        schema_id: row.object.schema_id,
                        object_type: row.object.object_type,
                        grantee: row.acl_item.grantee,
                    })
                &&& self.default_privileges().live()[DefaultPrivilegesKey {
                        role_id: row.object.role_id,
                        database_id: row.object.database_id,
                        schema_id: row.object.schema_id,
                        object_type: row.object.object_type,
                        grantee: row.acl_item.grantee,
                    }] == (DefaultPrivilegesValue { privileges: row.acl_item.privileges })
            } by {
                crate::table::lemma_map_of_index(rv, i2);
            }
            assert forall|k| #[trigger] self.default_privileges().live().contains_key(k) implies exists|
                i2: int,
            |
                0 <= i2 < out@.len() && ({
                    let row = #[trigger] out@[i2];
                    DefaultPrivilegesKey {
                        role_id: row.object.role_id,
                        database_id: row.object.database_id,
                        schema_id: row.object.schema_id,
                        object_type: row.object.object_type,
                        grantee: row.acl_item.grantee,
                    } == k
                }) by {
                crate::table::lemma_map_of_contains(rv, k);
                let x = choose|x: int| 0 <= x < rv.len() && rv[x].0 == k;
                assert({
                    let row = out@[x];
                    DefaultPrivilegesKey {
                        role_id: row.object.role_id,
                        database_id: row.object.database_id,
                        schema_id: row.object.schema_id,
                        object_type: row.object.object_type,
                        grantee: row.acl_item.grantee,
                    } == k
                });
            }
        }
        out
    }
    /// Every live system privilege row, as one privilege item each.
    pub fn get_system_privileges(&self) -> (r: Vec<AclItem>)
        requires
            self.wf(),
        ensures
            r@.len() == self.system_privileges().live().dom().len(),
            forall|i: int|
                0 <= i < r@.len() ==> {
                    let row = #[trigger] r@[i];
                    &&& self.system_privileges().live().contains_key(SystemPrivilegesKey { grantee: row.grantee, grantor: row.grantor })
                    &&& self.system_privileges().live()[SystemPrivilegesKey { grantee: row.grantee, grantor: row.grantor }] == (SystemPrivilegesValue { acl_mode: row.acl_mode })
                },
            forall|k| #[trigger]
                self.system_privileges().live().contains_key(k) ==> exists|i: int|
                    0 <= i < r@.len() && ({
                        let row = #[trigger] r@[i];
                        SystemPrivilegesKey { grantee: row.grantee, grantor: row.grantor } == k
                    }),
    {
        let rows = self.system_privileges.items();
        let ghost rv = crate::table::views_of(rows@);
        let mut out: Vec<AclItem> = Vec::new();
        let mut i: usize = 0;
        while i < rows.len()
            invariant
                self.wf(),
                rv == crate::table::views_of(rows@),
                crate::table::keys_unique(rv),
                crate::table::map_of(rv) == self.system_privileges().live(),
                rows@.len() == self.system_privileges().live().dom().len(),
                i <= rows@.len(),
                out@.len() == i,
                forall|j: int|
                    0 <= j < i ==> {
                        let row = #[trigger] out@[j];
                        (SystemPrivilegesKey { grantee: row.grantee, grantor: row.grantor }, SystemPrivilegesValue { acl_mode: row.acl_mode }) == rv[j]
                    },
            decreases rows@.len() - i,
        {
            let d = AclItem {
                grantee: rows[i].0.grantee,
                grantor: rows[i].0.grantor,
                acl_mode: rows[i].1.acl_mode,
            };
            out.push(d);
            i += 1;
        }
        proof {
            assert forall|i2: int| 0 <= i2 < out@.len() implies {
                let row = #[trigger] out@[i2];
                &&& self.system_privileges().live().contains_key(SystemPrivilegesKey { grantee: row.grantee, grantor: row.grantor })
                &&& self.system_privileges().live()[SystemPrivilegesKey { grantee: row.grantee, grantor: row.grantor }] == (SystemPrivilegesValue { acl_mode: row.acl_mode })
            } by {
                crate::table::lemma_map_of_index(rv, i2);
            }
            assert forall|k| #[trigger] self.system_privileges().live().contains_key(k) implies exists|
                i2: int,
            |
                0 <= i2 < out@.len() && ({
                    let row = #[trigger] out@[i2];
                    SystemPrivilegesKey { grantee: row.grantee, grantor: row.grantor } == k
                }) by {
                crate::table::lemma_map_of_contains(rv, k);
                let x = choose|x: int| 0 <= x < rv.len() && rv[x].0 == k;
                assert({
                    let row = out@[x];
                    SystemPrivilegesKey { grantee: row.grantee, grantor: row.grantor } == k
                });
            }
        }
        out
    }
    /// Every live system configuration row.
    pub fn get_system_configurations(&self) -> (r: Vec<SystemConfiguration>)
        requires
            self.wf(),
        ensures
            r@.len() == self.system_configurations().live().dom().len(),
            forall|i: int|
                0 <= i < r@.len() ==> {
                    let row = #[trigger] r@[i];
                    &&& self.system_configurations().live().contains_key(row.name@)
                    &&& self.system_configurations().live()[row.name@] == (row.value@)
                },
            forall|k| #[trigger]
                self.system_configurations().live().contains_key(k) ==> exists|i: int|
                    0 <= i < r@.len() && ({
                        let row = #[trigger] r@[i];
                        row.name@ == k
                    }),
    {
        let rows = self.system_configurations.items();
        let ghost rv = crate::table::views_of(rows@);
        let mut out: Vec<SystemConfiguration> = Vec::new();
        let mut i: usize = 0;
        while i < rows.len()
            invariant
                self.wf(),
                rv == crate::table::views_of(rows@),
                crate::table::keys_unique(rv),
                crate::table::map_of(rv) == self.system_configurations().live(),
                rows@.len() == self.system_configurations().live().dom().len(),
                i <= rows@.len(),
                out@.len() == i,
                forall|j: int|
                    0 <= j < i ==> {
                        let row = #[trigger] out@[j];
                        (row.name@, row.value@) == rv[j]
                    },
            decreases rows@.len() - i,
        {
            let d = SystemConfiguration::from_key_value(
                crate::table::TableKey::key_clone(&rows[i].0),
                crate::table::TableValue::val_clone(&rows[i].1),
            );
            out.push(d);
            i += 1;
        }
        proof {
            assert forall|i2: int| 0 <= i2 < out@.len() implies {
                let row = #[trigger] out@[i2];
                &&& self.system_configurations().live().contains_key(row.name@)
                &&& self.system_configurations().live()[row.name@] == (row.value@)
            } by {
                crate::table::lemma_map_of_index(rv, i2);
            }
            assert forall|k| #[trigger] self.system_configurations().live().contains_key(k) implies exists|
                i2: int,
            |
                0 <= i2 < out@.len() && ({
                    let row = #[trigger] out@[i2];
                    row.name@ == k
                }) by {
                crate::table::lemma_map_of_contains(rv, k);
                let x = choose|x: int| 0 <= x < rv.len() && rv[x].0 == k;
                assert({
                    let row = out@[x];
                    row.name@ == k
                });
            }
        }
        out
    }
    /// Every live system object mapping row.
    pub fn get_system_items(&self) -> (r: Vec<SystemObjectMapping>)
        requires
            self.wf(),
        ensures
            r@.len() == self.system_gid_mapping().live().dom().len(),
            forall|i: int|
                0 <= i < r@.len() ==> {
                    let row = #[trigger] r@[i];
                    &&& self.system_gid_mapping().live().contains_key(GidMappingKeyView {
                        schema_name: row.description.schema_name@,
                        object_type: row.description.object_type,
                        object_name: row.description.object_name@,
                    })
                    &&& self.system_gid_mapping().live()[GidMappingKeyView {
                        schema_name: row.description.schema_name@,
                        object_type: row.description.object_type,
                        object_name: row.description.object_name@,
                    }] == (GidMappingValueView {
                        id: row.unique_identifier.id->System_0,
                        fingerprint: row.unique_identifier.fingerprint@,
                    })
                    &&& row.unique_identifier.id is System
                },
            forall|k| #[trigger]
                self.system_gid_mapping().live().contains_key(k) ==> exists|i: int|
                    0 <= i < r@.len() && ({
                        let row = #[trigger] r@[i];
                        GidMappingKeyView {
                        schema_name: row.description.schema_name@,
                        object_type: row.description.object_type,
                        object_name: row.description.object_name@,
                    } == k
                    }),
    {
        let rows = self.system_gid_mapping.items();
        let ghost rv = crate::table::views_of(rows@);
        let mut out: Vec<SystemObjectMapping> = Vec::new();
        let mut i: usize = 0;
        while i < rows.len()
            invariant
                self.wf(),
                forall|j: int| 0 <= j < i ==> (#[trigger] out@[j]).unique_identifier.id is System,
                rv == crate::table::views_of(rows@),
                crate::table::keys_unique(rv),
                crate::table::map_of(rv) == self.system_gid_mapping().live(),
                rows@.len() == self.system_gid_mapping().live().dom().len(),
                i <= rows@.len(),
                out@.len() == i,
                forall|j: int|
                    0 <= j < i ==> {
                        let row = #[trigger] out@[j];
                        (GidMappingKeyView {
                        schema_name: row.description.schema_name@,
                        object_type: row.description.object_type,
                        object_name: row.description.object_name@,
                    }, GidMappingValueView {
                        id: row.unique_identifier.id->System_0,
                        fingerprint: row.unique_identifier.fingerprint@,
                    }) == rv[j]
                    },
            decreases rows@.len() - i,
        {
            let d = SystemObjectMapping::from_key_value(
                crate::table::TableKey::key_clone(&rows[i].0),
                crate::table::TableValue::val_clone(&rows[i].1),
            );
            out.push(d);
            i += 1;
        }
        proof {
            assert forall|i2: int| 0 <= i2 < out@.len() implies {
                let row = #[trigger] out@[i2];
                &&& self.system_gid_mapping().live().contains_key(GidMappingKeyView {
                        schema_name: row.description.schema_name@,
                        object_type: row.description.object_type,
                        object_name: row.description.object_name@,
                    })
                &&& self.system_gid_mapping().live()[GidMappingKeyView {
                        schema_name: row.description.schema_name@,
                        object_type: row.description.object_type,
                        object_name: row.description.object_name@,
                    }] == (GidMappingValueView {
                        id: row.unique_identifier.id->System_0,
                        fingerprint: row.unique_identifier.fingerprint@,
                    })
                    &&& row.unique_identifier.id is System
            } by {
                crate::table::lemma_map_of_index(rv, i2);
            }
            assert forall|k| #[trigger] self.system_gid_mapping().live().contains_key(k) implies exists|
                i2: int,
            |
                0 <= i2 < out@.len() && ({
                    let row = #[trigger] out@[i2];
                    GidMappingKeyView {
                        schema_name: row.description.schema_name@,
                        object_type: row.description.object_type,
                        object_name: row.description.object_name@,
                    } == k
                }) by {
                crate::table::lemma_map_of_contains(rv, k);
                let x = choose|x: int| 0 <= x < rv.len() && rv[x].0 == k;
                assert({
                    let row = out@[x];
                    GidMappingKeyView {
                        schema_name: row.description.schema_name@,
                        object_type: row.description.object_type,
                        object_name: row.description.object_name@,
                    } == k
                });
            }
        }
        out
    }

    /// The recorded read timestamp of a timeline, if any.
    pub fn get_timestamp(&self, timeline: &str) -> (r: Option<u64>)
        requires
            self.wf(),
        ensures
            r == (if self.timestamps().live().contains_key(timeline@) {
                Some(self.timestamps().live()[timeline@].ts)
            } else {
                Option::<u64>::None
            }),
    {
        let key = TimestampKey { id: timeline.to_string() };
        match self.timestamps.get(&key) {
            Some(v) => Some(v.ts),
            None => None,
        }
    }

    /// The name and index id of every introspection source of one cluster.
    pub fn get_introspection_source_indexes(&self, cluster_id: ClusterId) -> (r: Vec<
        (String, GlobalId),
    >)
        requires
            self.wf(),
        ensures
            forall|i: int|
                0 <= i < r@.len() ==> {
                    let key = ClusterIntrospectionSourceIndexKeyView {
                        cluster_id,
                        name: (#[trigger] r@[i]).0@,
                    };
                    &&& self.introspection_sources().live().contains_key(key)
                    &&& r@[i].1 == GlobalId::System(
                        self.introspection_sources().live()[key].index_id,
                    )
                },
            forall|k: ClusterIntrospectionSourceIndexKeyView| #[trigger]
                self.introspection_sources().live().contains_key(k) && k.cluster_id == cluster_id
                    ==> exists|i: int| 0 <= i < r@.len() && (#[trigger] r@[i]).0@ == k.name,
    {
        let rows = self.introspection_sources.items();
        let ghost rv = crate::table::views_of(rows@);
        let mut out: Vec<(String, GlobalId)> = Vec::new();
        let mut i: usize = 0;
        while i < rows.len()
            invariant
                self.wf(),
                rv == crate::table::views_of(rows@),
                crate::table::keys_unique(rv),
                crate::table::map_of(rv) == self.introspection_sources().live(),
                i <= rows@.len(),
                forall|j: int|
                    0 <= j < out@.len() ==> {
                        let key = ClusterIntrospectionSourceIndexKeyView {
                            cluster_id,
                            name: (#[trigger] out@[j]).0@,
                        };
                        exists|x: int|
                            0 <= x < rv.len() && (#[trigger] rv[x]) == (
                                key,
                                ClusterIntrospectionSourceIndexValue {
                                    index_id: out@[j].1->System_0,
                                },
                            ) && out@[j].1 is System
                    },
                forall|x: int|
                    0 <= x < i && (#[trigger] rv[x]).0.cluster_id == cluster_id ==> exists|
                        j: int,
                    | 0 <= j < out@.len() && (#[trigger] out@[j]).0@ == rv[x].0.name,
            decreases rows@.len() - i,
        {
            if rows[i].0.cluster_id == cluster_id {
                let ghost out0 = out@;
                out.push((rows[i].0.name.clone(), GlobalId::System(rows[i].1.index_id)));
                proof {
                    let j = out@.len() - 1;
                    assert(rv[i as int] == (
                        ClusterIntrospectionSourceIndexKeyView {
                            cluster_id,
                            name: out@[j].0@,
                        },
                        ClusterIntrospectionSourceIndexValue { index_id: out@[j].1->System_0 },
                    ));
                    assert forall|j2: int| 0 <= j2 < out@.len() - 1 implies out@[j2]
                        == out0[j2] by {}
                }
            }
            i += 1;
        }
        proof {
            assert forall|i2: int| 0 <= i2 < out@.len() implies {
                let key = ClusterIntrospectionSourceIndexKeyView {
                    cluster_id,
                    name: (#[trigger] out@[i2]).0@,
                };
                &&& self.introspection_sources().live().contains_key(key)
                &&& out@[i2].1 == GlobalId::System(
                    self.introspection_sources().live()[key].index_id,
                )
            } by {
                let x = choose|x: int|
                    0 <= x < rv.len() && (#[trigger] rv[x]) == (
                        ClusterIntrospectionSourceIndexKeyView {
                            cluster_id,
                            name: out@[i2].0@,
                        },
                        ClusterIntrospectionSourceIndexValue {
                            index_id: out@[i2].1->System_0,
                        },
                    ) && out@[i2].1 is System;
                crate::table::lemma_map_of_index(rv, x);
            }
            assert forall|k: ClusterIntrospectionSourceIndexKeyView| #[trigger]
                self.introspection_sources().live().contains_key(k) && k.cluster_id
                    == cluster_id implies exists|i2: int|
                0 <= i2 < out@.len() && (#[trigger] out@[i2]).0@ == k.name by {
                crate::table::lemma_map_of_contains(rv, k);
                let x = choose|x: int| 0 <= x < rv.len() && rv[x].0 == k;
            }
        }
        out
    }

    /// The recorded catalog content version, if any.
    pub fn get_catalog_content_version(&self) -> (r: Option<String>)
        requires
            self.wf(),
        ensures
            match r {
                Some(v) => self.settings().live().contains_key(spec_catalog_content_version_key())
                    && v@ == self.settings().live()[spec_catalog_content_version_key()],
                None => !self.settings().live().contains_key(spec_catalog_content_version_key()),
            },
    {
        let key = SettingKey { name: catalog_content_version_key().to_string() };
        match self.settings.get(&key) {
            Some(v) => Some(v.value.clone()),
            None => None,
        }
    }

    /// Every live item as a whole row, sorted by item id.
    pub fn loaded_items(&self) -> (r: Vec<Item>)
        requires
            self.wf(),
        ensures
            r@.len() == self.items().live().dom().len(),
            forall|i: int|
                0 <= i < r@.len() ==> {
                    let row = #[trigger] r@[i];
                    &&& self.items().live().contains_key(ItemKey { gid: row.id })
                    &&& self.items().live()[ItemKey { gid: row.id }] == (ItemValueView {
                        schema_id: row.schema_id,
                        name: row.name@,
                        create_sql: row.create_sql@,
                        owner_id: row.owner_id,
                        privileges: row.privileges@,
                    })
                },
            forall|k: ItemKey| #[trigger]
                self.items().live().contains_key(k) ==> exists|i: int|
                    0 <= i < r@.len() && (#[trigger] r@[i]).id == k.gid,
            forall|i: int, j: int|
                0 <= i < j < r@.len() ==> gid_le((#[trigger] r@[i]).id, (#[trigger] r@[j]).id),
    {
        let rows = self.items.items();
        let ghost rv = crate::table::views_of(rows@);
        let ghost live = self.items().live();
        proof {
            assert forall|k: ItemKey| #[trigger] live.contains_key(k) implies exists|x: int|
                0 <= x < rv.len() && (#[trigger] rv[x]).0 == k by {
                crate::table::lemma_map_of_contains(rv, k);
            }
        }
        let mut out: Vec<Item> = Vec::new();
        let mut i: usize = 0;
        while i < rows.len()
            invariant
                self.wf(),
                live == self.items().live(),
                rv == crate::table::views_of(rows@),
                crate::table::keys_unique(rv),
                crate::table::map_of(rv) == live,
                rows@.len() == live.dom().len(),
                i <= rows@.len(),
                out@.len() == i,
                forall|j: int|
                    0 <= j < out@.len() ==> {
                        let row = #[trigger] out@[j];
                        live.contains_key(ItemKey { gid: row.id }) && live[ItemKey {
                            gid: row.id,
                        }] == (ItemValueView {
                            schema_id: row.schema_id,
                            name: row.name@,
                            create_sql: row.create_sql@,
                            owner_id: row.owner_id,
                            privileges: row.privileges@,
                        })
                    },
                forall|k: ItemKey| #[trigger]
                    live.contains_key(k) ==> (exists|x: int|
                        i <= x < rv.len() && (#[trigger] rv[x]).0 == k) || (exists|j: int|
                        0 <= j < out@.len() && (#[trigger] out@[j]).id == k.gid),
                forall|a: int, b: int|
                    0 <= a < b < out@.len() ==> gid_le(
                        (#[trigger] out@[a]).id,
                        (#[trigger] out@[b]).id,
                    ),
            decreases rows@.len() - i,
        {
            proof {
                crate::table::lemma_map_of_index(rv, i as int);
            }
            let d = Item::from_key_value(
                crate::table::TableKey::key_clone(&rows[i].0),
                crate::table::TableValue::val_clone(&rows[i].1),
            );
            let mut pos: usize = 0;
            while pos < out.len() && gid_le_exec(out[pos].id, d.id)
                invariant
                    pos <= out@.len(),
                    forall|b: int| 0 <= b < pos ==> gid_le((#[trigger] out@[b]).id, d.id),
                decreases out@.len() - pos,
            {
                pos += 1;
            }
            let ghost out0 = out@;
            out.insert(pos, d);
            proof {
                assert(out@ == out0.insert(pos as int, d));
                assert forall|j: int| 0 <= j < out@.len() implies (#[trigger] out@[j]) == (if j
                    < pos {
                    out0[j]
                } else if j == pos {
                    d
                } else {
                    out0[j - 1]
                }) by {}
                assert forall|a: int, b: int| 0 <= a < b < out@.len() implies gid_le(
                    (#[trigger] out@[a]).id,
                    (#[trigger] out@[b]).id,
                ) by {
                    if a == pos {
                        assert(!gid_le(out0[b - 1].id, d.id) || b - 1 >= pos);
                    }
                }
                assert forall|k: ItemKey| #[trigger] live.contains_key(k) implies (exists|x: int|
                    i + 1 <= x < rv.len() && (#[trigger] rv[x]).0 == k) || (exists|j: int|
                    0 <= j < out@.len() && (#[trigger] out@[j]).id == k.gid) by {
                    if exists|x: int| i <= x < rv.len() && (#[trigger] rv[x]).0 == k {
                        let x = choose|x: int| i <= x < rv.len() && (#[trigger] rv[x]).0 == k;
                        if x == i {
                            assert(out@[pos as int].id == k.gid);
                        }
                    } else {
                        let j = choose|j: int|
                            0 <= j < out0.len() && (#[trigger] out0[j]).id == k.gid;
                        if j < pos {
                            assert(out@[j].id == k.gid);
                        } else {
                            assert(out@[j + 1].id == k.gid);
                        }
                    }
                }
            }
            i += 1;
        }
        proof {
            assert forall|k: ItemKey| #[trigger] live.contains_key(k) implies exists|j: int|
                0 <= j < out@.len() && (#[trigger] out@[j]).id == k.gid by {
                if exists|x: int|
                    rows@.len() <= x < rv.len() && (#[trigger] rv[x]).0 == k {
                    let x = choose|x: int|
                        rows@.len() <= x < rv.len() && (#[trigger] rv[x]).0 == k;
                }
            }
        }
        out
    }

    /// Flattens the transaction into the batch of signed diffs that the
    /// durable store applies atomically. Consumes the transaction: no
    /// operation is valid afterwards.
    pub fn into_parts(self) -> (b: TransactionBatch)
        requires
            self.wf(),
        ensures
            delta_ok(self.databases().base(), self.databases().live(), delta_views(b.databases@)),
            delta_ok(self.schemas().base(), self.schemas().live(), delta_views(b.schemas@)),
            delta_ok(self.items().base(), self.items().live(), delta_views(b.items@)),
            delta_ok(self.comments().base(), self.comments().live(), delta_views(b.comments@)),
            delta_ok(self.roles().base(), self.roles().live(), delta_views(b.roles@)),
            delta_ok(self.clusters().base(), self.clusters().live(), delta_views(b.clusters@)),
            delta_ok(
                self.cluster_replicas().base(),
                self.cluster_replicas().live(),
                delta_views(b.cluster_replicas@),
            ),
            delta_ok(
                self.introspection_sources().base(),
                self.introspection_sources().live(),
                delta_views(b.introspection_sources@),
            ),
            delta_ok(
                self.id_allocator().base(),
                self.id_allocator().live(),
                delta_views(b.id_allocator@),
            ),
            delta_ok(self.configs().base(), self.configs().live(), delta_views(b.configs@)),
            delta_ok(self.settings().base(), self.settings().live(), delta_views(b.settings@)),
            delta_ok(
                self.timestamps().base(),
                self.timestamps().live(),
                delta_views(b.timestamps@),
            ),
            delta_ok(
                self.system_gid_mapping().base(),
                self.system_gid_mapping().live(),
                delta_views(b.system_gid_mapping@),
            ),
            delta_ok(
                self.system_configurations().base(),
                self.system_configurations().live(),
                delta_views(b.system_configurations@),
            ),
            delta_ok(
                self.default_privileges().base(),
                self.default_privileges().live(),
                delta_views(b.default_privileges@),
            ),
            delta_ok(
                self.system_privileges().base(),
                self.system_privileges().live(),
                delta_views(b.system_privileges@),
            ),
            b.audit_log_updates@ == self.audit_log(),
            b.storage_usage_updates@ == self.storage_usage(),
            b.connection_timeout == self.timeout(),
    {
        let databases = self.databases.pending();
        let schemas = self.schemas.pending();
        let items = self.items.pending();
        let comments = self.comments.pending();
        let roles = self.roles.pending();
        let clusters = self.clusters.pending();
        let cluster_replicas = self.cluster_replicas.pending();
        let introspection_sources = self.introspection_sources.pending();
        let id_allocator = self.id_allocator.pending();
        let configs = self.configs.pending();
        let settings = self.settings.pending();
        let timestamps = self.timestamps.pending();
        let system_gid_mapping = self.system_gid_mapping.pending();
        let system_configurations = self.system_configurations.pending();
        let default_privileges = self.default_privileges.pending();
        let system_privileges = self.system_privileges.pending();
        TransactionBatch {
            databases,
            schemas,
            items,
            comments,
            roles,
            clusters,
            cluster_replicas,
            introspection_sources,
            id_allocator,
            configs,
            settings,
            timestamps,
            system_gid_mapping,
            system_configurations,
            default_privileges,
            system_privileges,
            audit_log_updates: self.audit_log_updates,
            storage_usage_updates: self.storage_usage_updates,
            connection_timeout: self.connection_timeout,
        }
    }
}

/// The flattened result of a catalog transaction: per table, the signed
/// diffs to apply, plus the two append-only logs and the commit timeout
/// hint. A pure data object, handed to the durable store for one atomic
/// write.
pub struct TransactionBatch {
    pub databases: Vec<(DatabaseKey, DatabaseValue, i64)>,
    pub schemas: Vec<(SchemaKey, SchemaValue, i64)>,
    pub items: Vec<(ItemKey, ItemValue, i64)>,
    pub comments: Vec<(CommentKey, CommentValue, i64)>,
    pub roles: Vec<(RoleKey, RoleValue, i64)>,
    pub clusters: Vec<(ClusterKey, ClusterValue, i64)>,
    pub cluster_replicas: Vec<(ClusterReplicaKey, ClusterReplicaValue, i64)>,
    pub introspection_sources: Vec<
        (ClusterIntrospectionSourceIndexKey, ClusterIntrospectionSourceIndexValue, i64),
    >,
    pub id_allocator: Vec<(IdAllocKey, IdAllocValue, i64)>,
    pub configs: Vec<(ConfigKey, ConfigValue, i64)>,
    pub settings: Vec<(SettingKey, SettingValue, i64)>,
    pub timestamps: Vec<(TimestampKey, TimestampValue, i64)>,
    pub system_gid_mapping: Vec<(GidMappingKey, GidMappingValue, i64)>,
    pub system_configurations: Vec<(ServerConfigurationKey, ServerConfigurationValue, i64)>,
    pub default_privileges: Vec<(DefaultPrivilegesKey, DefaultPrivilegesValue, i64)>,
    pub system_privileges: Vec<(SystemPrivilegesKey, SystemPrivilegesValue, i64)>,
    pub audit_log_updates: Vec<(AuditLogKey, i64)>,
    pub storage_usage_updates: Vec<(StorageUsageKey, i64)>,
    pub connection_timeout: Option<u64>,
}

impl TransactionBatch {
    /// Whether every component list is empty, so that a commit of this
    /// batch would change nothing.
    pub fn is_empty(&self) -> (r: bool)
        ensures
            r == (self.databases@.len() == 0 && self.schemas@.len() == 0 && self.items@.len()
                == 0 && self.comments@.len() == 0 && self.roles@.len() == 0
                && self.clusters@.len() == 0 && self.cluster_replicas@.len() == 0
                && self.introspection_sources@.len() == 0 && self.id_allocator@.len() == 0
                && self.configs@.len() == 0 && self.settings@.len() == 0
                && self.timestamps@.len() == 0 && self.system_gid_mapping@.len() == 0
                && self.system_configurations@.len() == 0 && self.default_privileges@.len() == 0
                && self.system_privileges@.len() == 0 && self.audit_log_updates@.len() == 0
                && self.storage_usage_updates@.len() == 0),
    {
        self.databases.len() == 0 && self.schemas.len() == 0 && self.items.len() == 0
            && self.comments.len() == 0 && self.roles.len() == 0 && self.clusters.len() == 0
            && self.cluster_replicas.len() == 0 && self.introspection_sources.len() == 0
            && self.id_allocator.len() == 0 && self.configs.len() == 0 && self.settings.len()
            == 0 && self.timestamps.len() == 0 && self.system_gid_mapping.len() == 0
            && self.system_configurations.len() == 0 && self.default_privileges.len() == 0
            && self.system_privileges.len() == 0 && self.audit_log_updates.len() == 0
            && self.storage_usage_updates.len() == 0
    }
}

} // verus!
