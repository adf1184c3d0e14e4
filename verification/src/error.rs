//! The closed error taxonomy of the catalog transaction layer.

use vstd::prelude::*;

use crate::ids::{ClusterId, DatabaseId, GlobalId, ReplicaId, RoleId, SchemaId};

verus! {

/// Every way a catalog operation can fail.
///
/// `AlreadyExists`-style variants report a uniqueness conflict, `Unknown`
/// variants a missing object, `IdExhaustion` an id counter that would
/// overflow, and `FailedBuiltinSchemaMigration` a builtin migration whose
/// targets were not all found. `UniquenessViolation` reports a snapshot or a
/// write that would leave two live rows in conflict where no more specific
/// variant applies.
#[derive(Debug, PartialEq, Eq)]
pub enum CatalogError {
    DatabaseAlreadyExists(String),
    SchemaAlreadyExists(String),
    RoleAlreadyExists(String),
    ClusterAlreadyExists(String),
    DuplicateReplica(String, String),
    ItemAlreadyExists(GlobalId, String),
    TimelineAlreadyExists(String),
    IdAllocatorAlreadyExists(String),
    ConfigAlreadyExists(String),
    UnknownDatabase(DatabaseId),
    UnknownSchema(SchemaId),
    UnknownRole(String),
    UnknownRoleId(RoleId),
    UnknownCluster(ClusterId),
    UnknownClusterReplica(ReplicaId),
    UnknownItem(GlobalId),
    UnknownItems(Vec<GlobalId>),
    IdExhaustion,
    FailedBuiltinSchemaMigration(Vec<GlobalId>),
    UniquenessViolation,
}

} // verus!
