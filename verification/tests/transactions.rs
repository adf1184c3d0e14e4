use catalog::error::CatalogError;
use catalog::ids::{AclItem, AclMode, ClusterId, CommentObjectId, DatabaseId, GlobalId, ReplicaId,
    RoleId, SchemaId};
use catalog::objects::{BuiltinLog, ClusterConfig, ClusterVariant, DatabaseKey, DatabaseValue,
    IdAllocKey, IdAllocValue, Item, ItemKey, ItemValue, ReplicaConfig, RoleAttributes,
    RoleMembership, RoleVars};
use catalog::transaction::{database_id_alloc_key, schema_id_alloc_key, user_item_alloc_key,
    user_role_id_alloc_key, Snapshot, Transaction, VersionedEvent, VersionedStorageUsage};
use catalog::ids::ObjectType;
use catalog::purification::Schema;

fn empty_snapshot() -> Snapshot {
    Snapshot {
        databases: vec![],
        schemas: vec![],
        items: vec![],
        comments: vec![],
        roles: vec![],
        clusters: vec![],
        cluster_replicas: vec![],
        introspection_sources: vec![],
        id_allocator: vec![],
        configs: vec![],
        settings: vec![],
        timestamps: vec![],
        system_object_mappings: vec![],
        system_configurations: vec![],
        default_privileges: vec![],
        system_privileges: vec![],
    }
}

fn snapshot_with_counters(user_item_start: u64) -> Snapshot {
    let mut snapshot = empty_snapshot();
    snapshot.id_allocator = vec![
        (IdAllocKey { name: database_id_alloc_key().to_string() }, IdAllocValue { next_id: 1 }),
        (IdAllocKey { name: schema_id_alloc_key().to_string() }, IdAllocValue { next_id: 1 }),
        (
            IdAllocKey { name: user_item_alloc_key().to_string() },
            IdAllocValue { next_id: user_item_start },
        ),
        (IdAllocKey { name: user_role_id_alloc_key().to_string() }, IdAllocValue { next_id: 1 }),
    ];
    snapshot
}

fn unmanaged() -> ClusterConfig {
    ClusterConfig { variant: ClusterVariant::Unmanaged }
}

fn replica_config() -> ReplicaConfig {
    ReplicaConfig {
        size: "small".to_string(),
        logging_interval_us: Some(1000),
        idle_arrangement_merge_effort: None,
    }
}

fn test_item(id: GlobalId, schema_id: SchemaId, name: &str) -> Item {
    Item {
        id,
        schema_id,
        name: name.to_string(),
        create_sql: format!("CREATE TABLE {name} ()"),
        owner_id: RoleId::User(1),
        privileges: vec![],
    }
}

#[test]
fn insert_user_database_yields_one_row_then_conflicts() {
    let mut tx = Transaction::new(snapshot_with_counters(100)).unwrap();
    let id = tx.insert_user_database("sales", RoleId::User(1), vec![]).unwrap();
    assert_eq!(id, DatabaseId::User(1));
    let dbs = tx.get_databases();
    assert_eq!(dbs.len(), 1);
    assert_eq!(dbs[0].name, "sales");
    assert_eq!(dbs[0].owner_id, RoleId::User(1));
    let again = tx.insert_user_database("sales", RoleId::User(2), vec![]);
    assert_eq!(again, Err(CatalogError::DatabaseAlreadyExists("sales".to_string())));
    // The failed insert still consumed an id, but added no row.
    assert_eq!(tx.get_databases().len(), 1);
}

#[test]
fn user_item_counter_starts_at_100_and_advances_to_103() {
    let mut tx = Transaction::new(snapshot_with_counters(100)).unwrap();
    let ids = tx.allocate_user_item_ids(3).unwrap();
    assert_eq!(ids, vec![GlobalId::User(100), GlobalId::User(101), GlobalId::User(102)]);
    // The counter row now reads 103: the next allocation starts there.
    let next = tx.get_and_increment_id(user_item_alloc_key().to_string()).unwrap();
    assert_eq!(next, 103);
}

#[test]
fn allocation_fails_on_overflow_and_leaves_counter_unchanged() {
    let mut snapshot = empty_snapshot();
    snapshot.id_allocator = vec![(
        IdAllocKey { name: user_item_alloc_key().to_string() },
        IdAllocValue { next_id: u64::MAX - 1 },
    )];
    let mut tx = Transaction::new(snapshot).unwrap();
    assert_eq!(tx.allocate_user_item_ids(2), Err(CatalogError::IdExhaustion));
    // The counter is untouched: one id can still be had.
    let ids = tx.allocate_user_item_ids(1).unwrap();
    assert_eq!(ids, vec![GlobalId::User(u64::MAX - 1)]);
}

#[test]
fn insert_then_delete_leaves_no_pending_entry() {
    let mut tx = Transaction::new(snapshot_with_counters(100)).unwrap();
    let id = tx.insert_user_database("temp", RoleId::User(1), vec![]).unwrap();
    tx.remove_database(&id).unwrap();
    let batch = tx.into_parts();
    // The database insert and delete collapse to nothing; only the id
    // counter bump remains pending.
    assert!(batch.databases.is_empty());
    assert!(!batch.id_allocator.is_empty());
}

#[test]
fn committed_batch_reads_back_after_fresh_snapshot() {
    let mut tx = Transaction::new(snapshot_with_counters(100)).unwrap();
    let id = tx.insert_user_database("sales", RoleId::User(1), vec![]).unwrap();
    let batch = tx.into_parts();
    // Apply the batch the way the durable store would: -1 removes a row,
    // +1 adds one.
    let mut durable: Vec<(DatabaseKey, DatabaseValue)> = vec![];
    for (k, v, diff) in batch.databases {
        if diff == 1 {
            durable.push((k, v));
        } else {
            durable.retain(|(dk, _)| *dk != k);
        }
    }
    let mut snapshot = empty_snapshot();
    snapshot.databases = durable;
    let tx2 = Transaction::new(snapshot).unwrap();
    let dbs = tx2.get_databases();
    assert_eq!(dbs.len(), 1);
    assert_eq!(dbs[0].id, id);
    assert_eq!(dbs[0].name, "sales");
}

#[test]
fn cluster_cascade_removes_replicas_and_introspection_sources() {
    let mut tx = Transaction::new(empty_snapshot()).unwrap();
    let cluster_id = ClusterId::User(1);
    let logs = vec![
        (BuiltinLog { name: "active_peeks".to_string() }, GlobalId::System(700)),
        (BuiltinLog { name: "dataflows".to_string() }, GlobalId::System(701)),
    ];
    tx.insert_user_cluster(cluster_id, "compute", None, logs, RoleId::User(1), vec![], unmanaged())
        .unwrap();
    tx.insert_cluster_replica(cluster_id, ReplicaId::User(1), "r1", replica_config(), RoleId::User(1))
        .unwrap();
    assert_eq!(tx.get_clusters().len(), 1);
    assert_eq!(tx.get_cluster_replicas().len(), 1);
    assert_eq!(tx.get_introspection_source_indexes(cluster_id).len(), 2);

    tx.remove_cluster(cluster_id).unwrap();
    assert_eq!(tx.get_clusters().len(), 0);
    assert_eq!(tx.get_cluster_replicas().len(), 0);
    assert_eq!(tx.get_introspection_source_indexes(cluster_id).len(), 0);
}

#[test]
fn remove_cluster_unknown_changes_nothing() {
    let mut tx = Transaction::new(empty_snapshot()).unwrap();
    assert_eq!(
        tx.remove_cluster(ClusterId::User(9)),
        Err(CatalogError::UnknownCluster(ClusterId::User(9)))
    );
}

#[test]
fn update_item_on_unknown_id_leaves_item_table_unchanged() {
    let mut snapshot = empty_snapshot();
    let existing = ItemValue {
        schema_id: SchemaId::User(1),
        name: "t".to_string(),
        create_sql: "CREATE TABLE t ()".to_string(),
        owner_id: RoleId::User(1),
        privileges: vec![],
    };
    snapshot.items = vec![(ItemKey { gid: GlobalId::User(1) }, existing)];
    let mut tx = Transaction::new(snapshot).unwrap();
    let unknown = GlobalId::User(7);
    let r = tx.update_item(unknown, test_item(unknown, SchemaId::User(1), "other"));
    assert_eq!(r, Err(CatalogError::UnknownItem(unknown)));
    // The item table is unchanged: the one existing row is intact and
    // nothing is pending for the table.
    let items = tx.loaded_items();
    assert_eq!(items.len(), 1);
    assert_eq!(items[0].name, "t");
    let batch = tx.into_parts();
    assert!(batch.items.is_empty());
}

#[test]
fn update_item_replaces_payload_in_place() {
    let mut snapshot = empty_snapshot();
    snapshot.items = vec![(
        ItemKey { gid: GlobalId::User(1) },
        ItemValue {
            schema_id: SchemaId::User(1),
            name: "t".to_string(),
            create_sql: "CREATE TABLE t ()".to_string(),
            owner_id: RoleId::User(1),
            privileges: vec![],
        },
    )];
    let mut tx = Transaction::new(snapshot).unwrap();
    tx.update_item(GlobalId::User(1), test_item(GlobalId::User(1), SchemaId::User(1), "renamed"))
        .unwrap();
    let items = tx.loaded_items();
    assert_eq!(items.len(), 1);
    assert_eq!(items[0].name, "renamed");
}

#[test]
fn duplicate_schema_name_in_same_database_is_rejected() {
    let mut tx = Transaction::new(snapshot_with_counters(100)).unwrap();
    let db = tx.insert_user_database("app", RoleId::User(1), vec![]).unwrap();
    tx.insert_user_schema(db, "public", RoleId::User(1), vec![]).unwrap();
    let again = tx.insert_user_schema(db, "public", RoleId::User(1), vec![]);
    assert_eq!(again, Err(CatalogError::SchemaAlreadyExists("public".to_string())));
}

#[test]
fn rename_cluster_rejects_taken_name_and_accepts_fresh_one() {
    let mut tx = Transaction::new(empty_snapshot()).unwrap();
    tx.insert_user_cluster(ClusterId::User(1), "a", None, vec![], RoleId::User(1), vec![], unmanaged())
        .unwrap();
    tx.insert_user_cluster(ClusterId::User(2), "b", None, vec![], RoleId::User(1), vec![], unmanaged())
        .unwrap();
    assert_eq!(
        tx.rename_cluster(ClusterId::User(1), "a", "b"),
        Err(CatalogError::UniquenessViolation)
    );
    tx.rename_cluster(ClusterId::User(1), "a", "c").unwrap();
    let mut names: Vec<String> = tx.get_clusters().into_iter().map(|c| c.name).collect();
    names.sort();
    assert_eq!(names, vec!["b".to_string(), "c".to_string()]);
}

#[test]
fn remove_role_deletes_exactly_one_then_reports_unknown() {
    let mut tx = Transaction::new(snapshot_with_counters(100)).unwrap();
    tx.insert_user_role(
        "dev".to_string(),
        RoleAttributes { inherit: true },
        RoleMembership { map: vec![] },
        RoleVars { vars: vec![] },
    )
    .unwrap();
    tx.remove_role("dev").unwrap();
    assert_eq!(tx.remove_role("dev"), Err(CatalogError::UnknownRole("dev".to_string())));
    assert_eq!(tx.get_roles().len(), 0);
}

#[test]
fn settings_record_versions_and_migrations() {
    let mut tx = Transaction::new(empty_snapshot()).unwrap();
    assert_eq!(tx.get_catalog_content_version(), None);
    tx.set_catalog_content_version("v42".to_string()).unwrap();
    assert_eq!(tx.get_catalog_content_version(), Some("v42".to_string()));
    assert_eq!(tx.check_migration_has_run("m1".to_string()), Ok(false));
    tx.mark_migration_has_run("m1".to_string()).unwrap();
    assert_eq!(tx.check_migration_has_run("m1".to_string()), Ok(true));
}

#[test]
fn timestamps_insert_once_then_overwrite_by_set() {
    let mut tx = Transaction::new(empty_snapshot()).unwrap();
    tx.insert_timestamp("epoch".to_string(), 42).unwrap();
    assert_eq!(tx.get_timestamp("epoch"), Some(42));
    assert_eq!(
        tx.insert_timestamp("epoch".to_string(), 43),
        Err(CatalogError::TimelineAlreadyExists("epoch".to_string()))
    );
    tx.set_timestamp("epoch".to_string(), 43).unwrap();
    assert_eq!(tx.get_timestamp("epoch"), Some(43));
}

#[test]
fn fresh_transaction_produces_empty_batch() {
    let tx = Transaction::new(snapshot_with_counters(100)).unwrap();
    let batch = tx.into_parts();
    assert!(batch.is_empty());

    let mut tx2 = Transaction::new(snapshot_with_counters(100)).unwrap();
    tx2.insert_user_database("sales", RoleId::User(1), vec![]).unwrap();
    let batch2 = tx2.into_parts();
    assert!(!batch2.is_empty());
}

#[test]
fn comments_upsert_and_cascade_drop() {
    let mut tx = Transaction::new(empty_snapshot()).unwrap();
    let obj = CommentObjectId::Item(GlobalId::User(1));
    tx.update_comment(obj, None, Some("a table".to_string())).unwrap();
    tx.update_comment(obj, Some(2), Some("a column".to_string())).unwrap();
    let dropped = tx.drop_comments(obj).unwrap();
    assert_eq!(dropped.len(), 2);
    assert_eq!(tx.get_comments().len(), 0);
}

#[test]
fn remove_items_applies_partially_and_names_missing_ids() {
    let mut snapshot = empty_snapshot();
    snapshot.items = vec![(
        ItemKey { gid: GlobalId::User(1) },
        ItemValue {
            schema_id: SchemaId::User(1),
            name: "t".to_string(),
            create_sql: "CREATE TABLE t ()".to_string(),
            owner_id: RoleId::User(1),
            privileges: vec![],
        },
    )];
    let mut tx = Transaction::new(snapshot).unwrap();
    let r = tx.remove_items(vec![GlobalId::User(1), GlobalId::User(2)]);
    assert_eq!(r, Err(CatalogError::UnknownItems(vec![GlobalId::User(2)])));
    // The matched row is still removed.
    assert_eq!(tx.loaded_items().len(), 0);
}

#[test]
fn snapshot_with_conflicting_rows_is_rejected() {
    let mut snapshot = empty_snapshot();
    snapshot.databases = vec![
        (
            DatabaseKey { id: DatabaseId::User(1) },
            DatabaseValue { name: "dup".to_string(), owner_id: RoleId::User(1), privileges: vec![] },
        ),
        (
            DatabaseKey { id: DatabaseId::User(2) },
            DatabaseValue { name: "dup".to_string(), owner_id: RoleId::User(1), privileges: vec![] },
        ),
    ];
    match Transaction::new(snapshot) {
        Err(e) => assert_eq!(e, CatalogError::UniquenessViolation),
        Ok(_) => panic!("expected a uniqueness violation"),
    }
}

#[test]
fn loaded_items_are_sorted_system_first_then_by_number() {
    let mut snapshot = empty_snapshot();
    let value = |name: &str| ItemValue {
        schema_id: SchemaId::User(1),
        name: name.to_string(),
        create_sql: String::new(),
        owner_id: RoleId::User(1),
        privileges: vec![],
    };
    snapshot.items = vec![
        (ItemKey { gid: GlobalId::User(5) }, value("u5")),
        (ItemKey { gid: GlobalId::System(3) }, value("s3")),
        (ItemKey { gid: GlobalId::User(1) }, value("u1")),
    ];
    let tx = Transaction::new(snapshot).unwrap();
    let ids: Vec<GlobalId> = tx.loaded_items().into_iter().map(|i| i.id).collect();
    assert_eq!(ids, vec![GlobalId::System(3), GlobalId::User(1), GlobalId::User(5)]);
}

#[test]
fn audit_and_usage_events_append_with_unit_diffs() {
    let mut tx = Transaction::new(empty_snapshot()).unwrap();
    tx.insert_audit_log_event(VersionedEvent { id: 1, details: "create".to_string() });
    tx.insert_storage_usage_event(VersionedStorageUsage {
        id: 7,
        shard_id: Some("s7".to_string()),
        size_bytes: 1024,
        collection_timestamp: 5,
    });
    tx.remove_storage_usage_events(vec![VersionedStorageUsage {
        id: 8,
        shard_id: None,
        size_bytes: 0,
        collection_timestamp: 6,
    }]);
    let batch = tx.into_parts();
    assert_eq!(batch.audit_log_updates.len(), 1);
    assert_eq!(batch.audit_log_updates[0].1, 1);
    assert_eq!(batch.storage_usage_updates.len(), 2);
    assert_eq!(batch.storage_usage_updates[0].1, 1);
    assert_eq!(batch.storage_usage_updates[1].1, -1);
}

#[test]
fn default_and_system_privileges_set_and_read_back() {
    let mut tx = Transaction::new(empty_snapshot()).unwrap();
    tx.set_default_privilege(
        RoleId::User(1),
        None,
        None,
        ObjectType::Table,
        RoleId::Public,
        Some(AclMode { bits: 4 }),
    )
    .unwrap();
    assert_eq!(tx.get_default_privileges().len(), 1);
    tx.set_default_privilege(RoleId::User(1), None, None, ObjectType::Table, RoleId::Public, None)
        .unwrap();
    assert_eq!(tx.get_default_privileges().len(), 0);

    tx.set_system_privileges(vec![AclItem {
        grantee: RoleId::User(1),
        grantor: RoleId::System(1),
        acl_mode: AclMode { bits: 2 },
    }])
    .unwrap();
    let sys = tx.get_system_privileges();
    assert_eq!(sys.len(), 1);
    assert_eq!(sys[0].acl_mode, AclMode { bits: 2 });
}

#[test]
fn schema_pair_reports_key_schema_presence() {
    let both = Schema { key_schema: Some("k".to_string()), value_schema: "v".to_string() };
    let value_only = Schema { key_schema: None, value_schema: "v".to_string() };
    assert!(both.has_key_schema());
    assert!(!value_only.has_key_schema());
}
