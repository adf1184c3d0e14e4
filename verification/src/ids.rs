//! Plain identifier and privilege types used across the catalog tables.

use vstd::prelude::*;

verus! {

/// Identifier of a database.
#[derive(Clone, Copy, PartialEq, Eq, Structural, Debug)]
pub enum DatabaseId {
    User(u64),
    System(u64),
}

impl DatabaseId {
    /// Whether this is a user-namespace id.
    pub fn is_user(&self) -> (r: bool)
        ensures
            r == (self is User),
    {
        match self {
            DatabaseId::User(_) => true,
            DatabaseId::System(_) => false,
        }
    }
}

/// Identifier of a schema.
#[derive(Clone, Copy, PartialEq, Eq, Structural, Debug)]
pub enum SchemaId {
    User(u64),
    System(u64),
}

impl SchemaId {
    /// Whether this is a system-namespace id.
    pub fn is_system(&self) -> (r: bool)
        ensures
            r == (self is System),
    {
        match self {
            SchemaId::User(_) => false,
            SchemaId::System(_) => true,
        }
    }
}

/// Identifier of a catalog item.
#[derive(Clone, Copy, PartialEq, Eq, Structural, Debug)]
pub enum GlobalId {
    User(u64),
    System(u64),
}

impl GlobalId {
    /// Whether this is a system-namespace id.
    pub fn is_system(&self) -> (r: bool)
        ensures
            r == (self is System),
    {
        match self {
            GlobalId::User(_) => false,
            GlobalId::System(_) => true,
        }
    }

    /// Decides equality.
    pub fn eq_id(&self, other: &Self) -> (r: bool)
        ensures
            r <==> *self == *other,
    {
        match (self, other) {
            (GlobalId::User(a), GlobalId::User(b)) => a == b,
            (GlobalId::System(a), GlobalId::System(b)) => a == b,
            _ => false,
        }
    }
}

/// Identifier of a role.
#[derive(Clone, Copy, PartialEq, Eq, Structural, Debug)]
pub enum RoleId {
    User(u64),
    System(u64),
    Public,
}

impl RoleId {
    /// Whether this is a user-namespace id.
    pub fn is_user(&self) -> (r: bool)
        ensures
            r == (self is User),
    {
        match self {
            RoleId::User(_) => true,
            _ => false,
        }
    }
}

/// The role under which all builtin system objects are owned.
pub fn system_role_id() -> (r: RoleId)
    ensures
        r == RoleId::System(1),
{
    RoleId::System(1)
}

/// Identifier of a cluster.
#[derive(Clone, Copy, PartialEq, Eq, Structural, Debug)]
pub enum ClusterId {
    User(u64),
    System(u64),
}

/// Identifier of a cluster replica.
#[derive(Clone, Copy, PartialEq, Eq, Structural, Debug)]
pub enum ReplicaId {
    User(u64),
    System(u64),
}

/// A bit set of privileges.
#[derive(Clone, Copy, PartialEq, Eq, Structural, Debug)]
pub struct AclMode {
    pub bits: u64,
}

/// One granted privilege: who granted what to whom.
#[derive(Clone, Copy, PartialEq, Eq, Structural, Debug)]
pub struct AclItem {
    pub grantee: RoleId,
    pub grantor: RoleId,
    pub acl_mode: AclMode,
}

/// The kind of object a default privilege applies to.
#[derive(Clone, Copy, PartialEq, Eq, Structural, Debug)]
pub enum ObjectType {
    Table,
    View,
    MaterializedView,
    Source,
    Sink,
    Index,
    Type,
    Role,
    Cluster,
    ClusterReplica,
    Secret,
    Connection,
    Database,
    Schema,
    Func,
}

/// The kind of a catalog item in the system object mapping.
#[derive(Clone, Copy, PartialEq, Eq, Structural, Debug)]
pub enum CatalogItemType {
    Table,
    Source,
    Sink,
    View,
    MaterializedView,
    Index,
    Type,
    Func,
    Secret,
    Connection,
}

/// The object a comment is attached to.
#[derive(Clone, Copy, PartialEq, Eq, Structural, Debug)]
pub enum CommentObjectId {
    Item(GlobalId),
    Role(RoleId),
    Database(DatabaseId),
    Schema(SchemaId),
    Cluster(ClusterId),
    ClusterReplica(ReplicaId),
}

} // verus!
