//! Key and value types of every catalog table, their mathematical views, and
//! the uniqueness strategies the tables are built with.

use vstd::prelude::*;

use crate::ids::{
    AclItem, AclMode, CatalogItemType, ClusterId, CommentObjectId, DatabaseId, GlobalId, ObjectType,
    ReplicaId, RoleId, SchemaId,
};
use crate::table::{ConflictPred, TableKey, TableValue};

verus! {

/// Decides equality of two strings' views.
pub fn string_eq(a: &String, b: &String) -> (r: bool)
    ensures
        r == (a@ == b@),
{
    a.eq(b)
}

/// Decides equality of two optional database ids.
pub fn opt_database_id_eq(a: &Option<DatabaseId>, b: &Option<DatabaseId>) -> (r: bool)
    ensures
        r == (*a == *b),
{
    match (a, b) {
        (Some(x), Some(y)) => *x == *y,
        (None, None) => true,
        _ => false,
    }
}

/// Decides equality of two optional schema ids.
pub fn opt_schema_id_eq(a: &Option<SchemaId>, b: &Option<SchemaId>) -> (r: bool)
    ensures
        r == (*a == *b),
{
    match (a, b) {
        (Some(x), Some(y)) => *x == *y,
        (None, None) => true,
        _ => false,
    }
}

/// Decides equality of two optional item ids.
pub fn opt_global_id_eq(a: &Option<GlobalId>, b: &Option<GlobalId>) -> (r: bool)
    ensures
        r == (*a == *b),
{
    match (a, b) {
        (Some(x), Some(y)) => *x == *y,
        (None, None) => true,
        _ => false,
    }
}

/// Decides equality of two optional indices.
pub fn opt_usize_eq(a: &Option<usize>, b: &Option<usize>) -> (r: bool)
    ensures
        r == (*a == *b),
{
    match (a, b) {
        (Some(x), Some(y)) => *x == *y,
        (None, None) => true,
        _ => false,
    }
}

/// Decides equality of two optional 64-bit counts.
pub fn opt_u64_eq(a: &Option<u64>, b: &Option<u64>) -> (r: bool)
    ensures
        r == (*a == *b),
{
    match (a, b) {
        (Some(x), Some(y)) => *x == *y,
        (None, None) => true,
        _ => false,
    }
}

/// Decides equality of two optional 32-bit counts.
pub fn opt_u32_eq(a: &Option<u32>, b: &Option<u32>) -> (r: bool)
    ensures
        r == (*a == *b),
{
    match (a, b) {
        (Some(x), Some(y)) => *x == *y,
        (None, None) => true,
        _ => false,
    }
}

/// Decides elementwise equality of two privilege lists.
pub fn acl_vec_eq(a: &Vec<AclItem>, b: &Vec<AclItem>) -> (r: bool)
    ensures
        r == (a@ == b@),
{
    if a.len() != b.len() {
        proof {
            assert(a@ != b@) by {
                assert(a@.len() != b@.len());
            }
        }
        return false;
    }
    let mut i: usize = 0;
    while i < a.len()
        invariant
            a@.len() == b@.len(),
            i <= a@.len(),
            forall|j: int| 0 <= j < i ==> a@[j] == b@[j],
        decreases a@.len() - i,
    {
        if !(a[i] == b[i]) {
            return false;
        }
        i += 1;
    }
    proof {
        assert(a@ =~= b@);
    }
    true
}

/// A copy of a privilege list.
pub fn acl_vec_clone(a: &Vec<AclItem>) -> (r: Vec<AclItem>)
    ensures
        r@ == a@,
{
    let mut out: Vec<AclItem> = Vec::new();
    let mut i: usize = 0;
    while i < a.len()
        invariant
            i <= a@.len(),
            out@ == a@.take(i as int),
        decreases a@.len() - i,
    {
        out.push(a[i]);
        proof {
            assert(out@ =~= a@.take(i + 1 as int));
        }
        i += 1;
    }
    proof {
        assert(a@.take(a@.len() as int) =~= a@);
    }
    out
}

/// Decides elementwise equality of two role-pair lists.
pub fn role_pair_vec_eq(a: &Vec<(RoleId, RoleId)>, b: &Vec<(RoleId, RoleId)>) -> (r: bool)
    ensures
        r == (a@ == b@),
{
    if a.len() != b.len() {
        proof {
            assert(a@ != b@) by {
                assert(a@.len() != b@.len());
            }
        }
        return false;
    }
    let mut i: usize = 0;
    while i < a.len()
        invariant
            a@.len() == b@.len(),
            i <= a@.len(),
            forall|j: int| 0 <= j < i ==> a@[j] == b@[j],
        decreases a@.len() - i,
    {
        if !(a[i].0 == b[i].0 && a[i].1 == b[i].1) {
            proof {
                assert(a@[i as int] != b@[i as int]);
            }
            return false;
        }
        proof {
            assert(a@[i as int] == b@[i as int]);
        }
        i += 1;
    }
    proof {
        assert(a@ =~= b@);
    }
    true
}

/// A copy of a role-pair list.
pub fn role_pair_vec_clone(a: &Vec<(RoleId, RoleId)>) -> (r: Vec<(RoleId, RoleId)>)
    ensures
        r@ == a@,
{
    let mut out: Vec<(RoleId, RoleId)> = Vec::new();
    let mut i: usize = 0;
    while i < a.len()
        invariant
            i <= a@.len(),
            out@ == a@.take(i as int),
        decreases a@.len() - i,
    {
        out.push(a[i]);
        proof {
            assert(out@ =~= a@.take(i + 1 as int));
        }
        i += 1;
    }
    proof {
        assert(a@.take(a@.len() as int) =~= a@);
    }
    out
}

/// The views of a list of string pairs.
pub open spec fn string_pair_views(s: Seq<(String, String)>) -> Seq<(Seq<char>, Seq<char>)> {
    s.map_values(|p: (String, String)| (p.0@, p.1@))
}

/// Decides equality of two string-pair lists, up to views.
pub fn string_pair_vec_eq(a: &Vec<(String, String)>, b: &Vec<(String, String)>) -> (r: bool)
    ensures
        r == (string_pair_views(a@) == string_pair_views(b@)),
{
    if a.len() != b.len() {
        proof {
            assert(string_pair_views(a@) != string_pair_views(b@)) by {
                assert(string_pair_views(a@).len() != string_pair_views(b@).len());
            }
        }
        return false;
    }
    let mut i: usize = 0;
    while i < a.len()
        invariant
            a@.len() == b@.len(),
            i <= a@.len(),
            forall|j: int|
                0 <= j < i ==> string_pair_views(a@)[j] == string_pair_views(b@)[j],
        decreases a@.len() - i,
    {
        if !(string_eq(&a[i].0, &b[i].0) && string_eq(&a[i].1, &b[i].1)) {
            proof {
                assert(string_pair_views(a@)[i as int] != string_pair_views(b@)[i as int]);
            }
            return false;
        }
        i += 1;
    }
    proof {
        assert(string_pair_views(a@) =~= string_pair_views(b@));
    }
    true
}

/// A copy of a string-pair list, up to views.
pub fn string_pair_vec_clone(a: &Vec<(String, String)>) -> (r: Vec<(String, String)>)
    ensures
        string_pair_views(r@) == string_pair_views(a@),
{
    let mut out: Vec<(String, String)> = Vec::new();
    let mut i: usize = 0;
    while i < a.len()
        invariant
            i <= a@.len(),
            out@.len() == i,
            forall|j: int|
                0 <= j < i ==> string_pair_views(out@)[j] == string_pair_views(a@)[j],
        decreases a@.len() - i,
    {
        out.push((a[i].0.clone(), a[i].1.clone()));
        i += 1;
    }
    proof {
        assert(string_pair_views(out@) =~= string_pair_views(a@));
    }
    out
}

// ------------------------------------------------------------------
// Databases
// ------------------------------------------------------------------
/// Key of the database table.
#[derive(Clone, Copy, PartialEq, Eq, Structural, Debug)]
pub struct DatabaseKey {
    pub id: DatabaseId,
}

impl View for DatabaseKey {
    type V = DatabaseKey;

    open spec fn view(&self) -> DatabaseKey {
        *self
    }
}

impl TableKey for DatabaseKey {
    fn key_eq(&self, other: &Self) -> (r: bool) {
        *self == *other
    }

    fn key_clone(&self) -> (r: Self) {
        *self
    }
}

/// View of a database row's payload.
pub ghost struct DatabaseValueView {
    pub name: Seq<char>,
    pub owner_id: RoleId,
    pub privileges: Seq<AclItem>,
}

/// Payload of the database table.
#[derive(Debug)]
pub struct DatabaseValue {
    pub name: String,
    pub owner_id: RoleId,
    pub privileges: Vec<AclItem>,
}

impl View for DatabaseValue {
    type V = DatabaseValueView;

    open spec fn view(&self) -> DatabaseValueView {
        DatabaseValueView {
            name: self.name@,
            owner_id: self.owner_id,
            privileges: self.privileges@,
        }
    }
}

impl TableValue for DatabaseValue {
    fn val_eq(&self, other: &Self) -> (r: bool) {
        string_eq(&self.name, &other.name) && self.owner_id == other.owner_id && acl_vec_eq(
            &self.privileges,
            &other.privileges,
        )
    }

    fn val_clone(&self) -> (r: Self) {
        DatabaseValue {
            name: self.name.clone(),
            owner_id: self.owner_id,
            privileges: acl_vec_clone(&self.privileges),
        }
    }
}

/// Two databases collide when they share a name.
#[derive(Clone, Copy, PartialEq, Eq, Structural, Debug)]
pub struct DatabaseNameConflict;

impl ConflictPred<DatabaseValue> for DatabaseNameConflict {
    open spec fn conflicts(self, a: DatabaseValueView, b: DatabaseValueView) -> bool {
        a.name == b.name
    }

    fn check(&self, a: &DatabaseValue, b: &DatabaseValue) -> (r: bool) {
        string_eq(&a.name, &b.name)
    }
}

// ------------------------------------------------------------------
// Schemas
// ------------------------------------------------------------------
/// Key of the schema table.
#[derive(Clone, Copy, PartialEq, Eq, Structural, Debug)]
pub struct SchemaKey {
    pub id: SchemaId,
}

impl View for SchemaKey {
    type V = SchemaKey;

    open spec fn view(&self) -> SchemaKey {
        *self
    }
}

impl TableKey for SchemaKey {
    fn key_eq(&self, other: &Self) -> (r: bool) {
        *self == *other
    }

    fn key_clone(&self) -> (r: Self) {
        *self
    }
}

/// View of a schema row's payload.
pub ghost struct SchemaValueView {
    pub database_id: Option<DatabaseId>,
    pub name: Seq<char>,
    pub owner_id: RoleId,
    pub privileges: Seq<AclItem>,
}

/// Payload of the schema table.
#[derive(Debug)]
pub struct SchemaValue {
    pub database_id: Option<DatabaseId>,
    pub name: String,
    pub owner_id: RoleId,
    pub privileges: Vec<AclItem>,
}

impl View for SchemaValue {
    type V = SchemaValueView;

    open spec fn view(&self) -> SchemaValueView {
        SchemaValueView {
            database_id: self.database_id,
            name: self.name@,
            owner_id: self.owner_id,
            privileges: self.privileges@,
        }
    }
}

impl TableValue for SchemaValue {
    fn val_eq(&self, other: &Self) -> (r: bool) {
        opt_database_id_eq(&self.database_id, &other.database_id) && string_eq(
            &self.name,
            &other.name,
        ) && self.owner_id == other.owner_id && acl_vec_eq(&self.privileges, &other.privileges)
    }

    fn val_clone(&self) -> (r: Self) {
        SchemaValue {
            database_id: self.database_id,
            name: self.name.clone(),
            owner_id: self.owner_id,
            privileges: acl_vec_clone(&self.privileges),
        }
    }
}

/// Two schemas collide when they share a database and a name.
#[derive(Clone, Copy, PartialEq, Eq, Structural, Debug)]
pub struct SchemaNameConflict;

impl ConflictPred<SchemaValue> for SchemaNameConflict {
    open spec fn conflicts(self, a: SchemaValueView, b: SchemaValueView) -> bool {
        a.database_id == b.database_id && a.name == b.name
    }

    fn check(&self, a: &SchemaValue, b: &SchemaValue) -> (r: bool) {
        opt_database_id_eq(&a.database_id, &b.database_id) && string_eq(&a.name, &b.name)
    }
}

// ------------------------------------------------------------------
// Items
// ------------------------------------------------------------------
/// Key of the item table.
#[derive(Clone, Copy, PartialEq, Eq, Structural, Debug)]
pub struct ItemKey {
    pub gid: GlobalId,
}

impl View for ItemKey {
    type V = ItemKey;

    open spec fn view(&self) -> ItemKey {
        *self
    }
}

impl TableKey for ItemKey {
    fn key_eq(&self, other: &Self) -> (r: bool) {
        *self == *other
    }

    fn key_clone(&self) -> (r: Self) {
        *self
    }
}

/// View of an item row's payload.
pub ghost struct ItemValueView {
    pub schema_id: SchemaId,
    pub name: Seq<char>,
    pub create_sql: Seq<char>,
    pub owner_id: RoleId,
    pub privileges: Seq<AclItem>,
}

/// Payload of the item table.
#[derive(Debug)]
pub struct ItemValue {
    pub schema_id: SchemaId,
    pub name: String,
    pub create_sql: String,
    pub owner_id: RoleId,
    pub privileges: Vec<AclItem>,
}

impl View for ItemValue {
    type V = ItemValueView;

    open spec fn view(&self) -> ItemValueView {
        ItemValueView {
            schema_id: self.schema_id,
            name: self.name@,
            create_sql: self.create_sql@,
            owner_id: self.owner_id,
            privileges: self.privileges@,
        }
    }
}

impl TableValue for ItemValue {
    fn val_eq(&self, other: &Self) -> (r: bool) {
        self.schema_id == other.schema_id && string_eq(&self.name, &other.name) && string_eq(
            &self.create_sql,
            &other.create_sql,
        ) && self.owner_id == other.owner_id && acl_vec_eq(&self.privileges, &other.privileges)
    }

    fn val_clone(&self) -> (r: Self) {
        ItemValue {
            schema_id: self.schema_id,
            name: self.name.clone(),
            create_sql: self.create_sql.clone(),
            owner_id: self.owner_id,
            privileges: acl_vec_clone(&self.privileges),
        }
    }
}

/// Two items collide when they share a schema and a name.
#[derive(Clone, Copy, PartialEq, Eq, Structural, Debug)]
pub struct ItemNameConflict;

impl ConflictPred<ItemValue> for ItemNameConflict {
    open spec fn conflicts(self, a: ItemValueView, b: ItemValueView) -> bool {
        a.schema_id == b.schema_id && a.name == b.name
    }

    fn check(&self, a: &ItemValue, b: &ItemValue) -> (r: bool) {
        a.schema_id == b.schema_id && string_eq(&a.name, &b.name)
    }
}

// ------------------------------------------------------------------
// Comments
// ------------------------------------------------------------------
/// Key of the comment table.
#[derive(Clone, Copy, PartialEq, Eq, Debug)]
pub struct CommentKey {
    pub object_id: CommentObjectId,
    pub sub_component: Option<usize>,
}

impl View for CommentKey {
    type V = CommentKey;

    open spec fn view(&self) -> CommentKey {
        *self
    }
}

impl TableKey for CommentKey {
    fn key_eq(&self, other: &Self) -> (r: bool) {
        self.object_id == other.object_id && opt_usize_eq(
            &self.sub_component,
            &other.sub_component,
        )
    }

    fn key_clone(&self) -> (r: Self) {
        *self
    }
}

/// Payload of the comment table.
#[derive(Debug)]
pub struct CommentValue {
    pub comment: String,
}

impl View for CommentValue {
    type V = Seq<char>;

    open spec fn view(&self) -> Seq<char> {
        self.comment@
    }
}

impl TableValue for CommentValue {
    fn val_eq(&self, other: &Self) -> (r: bool) {
        string_eq(&self.comment, &other.comment)
    }

    fn val_clone(&self) -> (r: Self) {
        CommentValue { comment: self.comment.clone() }
    }
}

/// A strategy under which no two values ever collide.
#[derive(Clone, Copy, PartialEq, Eq, Structural, Debug)]
pub struct NoConflict;

impl<V: View> ConflictPred<V> for NoConflict {
    open spec fn conflicts(self, a: V::V, b: V::V) -> bool {
        false
    }

    fn check(&self, a: &V, b: &V) -> (r: bool) {
        false
    }
}

// ------------------------------------------------------------------
// Roles
// ------------------------------------------------------------------
/// Key of the role table.
#[derive(Clone, Copy, PartialEq, Eq, Structural, Debug)]
pub struct RoleKey {
    pub id: RoleId,
}

impl View for RoleKey {
    type V = RoleKey;

    open spec fn view(&self) -> RoleKey {
        *self
    }
}

impl TableKey for RoleKey {
    fn key_eq(&self, other: &Self) -> (r: bool) {
        *self == *other
    }

    fn key_clone(&self) -> (r: Self) {
        *self
    }
}

/// Flags attached to a role.
#[derive(Clone, Copy, PartialEq, Eq, Structural, Debug)]
pub struct RoleAttributes {
    pub inherit: bool,
}

/// Which roles a role is a direct member of, and who granted each
/// membership.
#[derive(Debug)]
pub struct RoleMembership {
    pub map: Vec<(RoleId, RoleId)>,
}

/// Session variable defaults attached to a role.
#[derive(Debug)]
pub struct RoleVars {
    pub vars: Vec<(String, String)>,
}

/// View of a role row's payload.
pub ghost struct RoleValueView {
    pub name: Seq<char>,
    pub attributes: RoleAttributes,
    pub membership: Seq<(RoleId, RoleId)>,
    pub vars: Seq<(Seq<char>, Seq<char>)>,
}

/// Payload of the role table.
#[derive(Debug)]
pub struct RoleValue {
    pub name: String,
    pub attributes: RoleAttributes,
    pub membership: RoleMembership,
    pub vars: RoleVars,
}

impl View for RoleValue {
    type V = RoleValueView;

    open spec fn view(&self) -> RoleValueView {
        RoleValueView {
            name: self.name@,
            attributes: self.attributes,
            membership: self.membership.map@,
            vars: string_pair_views(self.vars.vars@),
        }
    }
}

impl TableValue for RoleValue {
    fn val_eq(&self, other: &Self) -> (r: bool) {
        string_eq(&self.name, &other.name) && self.attributes == other.attributes
            && role_pair_vec_eq(&self.membership.map, &other.membership.map)
            && string_pair_vec_eq(&self.vars.vars, &other.vars.vars)
    }

    fn val_clone(&self) -> (r: Self) {
        RoleValue {
            name: self.name.clone(),
            attributes: self.attributes,
            membership: RoleMembership { map: role_pair_vec_clone(&self.membership.map) },
            vars: RoleVars { vars: string_pair_vec_clone(&self.vars.vars) },
        }
    }
}

/// Two roles collide when they share a name.
#[derive(Clone, Copy, PartialEq, Eq, Structural, Debug)]
pub struct RoleNameConflict;

impl ConflictPred<RoleValue> for RoleNameConflict {
    open spec fn conflicts(self, a: RoleValueView, b: RoleValueView) -> bool {
        a.name == b.name
    }

    fn check(&self, a: &RoleValue, b: &RoleValue) -> (r: bool) {
        string_eq(&a.name, &b.name)
    }
}

// ------------------------------------------------------------------
// Clusters
// ------------------------------------------------------------------
/// Key of the cluster table.
#[derive(Clone, Copy, PartialEq, Eq, Structural, Debug)]
pub struct ClusterKey {
    pub id: ClusterId,
}

impl View for ClusterKey {
    type V = ClusterKey;

    open spec fn view(&self) -> ClusterKey {
        *self
    }
}

impl TableKey for ClusterKey {
    fn key_eq(&self, other: &Self) -> (r: bool) {
        *self == *other
    }

    fn key_clone(&self) -> (r: Self) {
        *self
    }
}

/// View of a cluster's provisioning variant.
pub ghost enum ClusterVariantView {
    Managed { size: Seq<char>, replication_factor: u32, disk: bool },
    Unmanaged,
}

/// How a cluster is provisioned.
#[derive(Debug)]
pub enum ClusterVariant {
    Managed { size: String, replication_factor: u32, disk: bool },
    Unmanaged,
}

impl View for ClusterVariant {
    type V = ClusterVariantView;

    open spec fn view(&self) -> ClusterVariantView {
        match self {
            ClusterVariant::Managed { size, replication_factor, disk } => {
                ClusterVariantView::Managed {
                    size: size@,
                    replication_factor: *replication_factor,
                    disk: *disk,
                }
            },
            ClusterVariant::Unmanaged => ClusterVariantView::Unmanaged,
        }
    }
}

impl ClusterVariant {
    /// Decides equality of the variant views.
    pub fn variant_eq(&self, other: &Self) -> (r: bool)
        ensures
            r == (self@ == other@),
    {
        match (self, other) {
            (
                ClusterVariant::Managed { size: s1, replication_factor: r1, disk: d1 },
                ClusterVariant::Managed { size: s2, replication_factor: r2, disk: d2 },
            ) => string_eq(s1, s2) && *r1 == *r2 && *d1 == *d2,
            (ClusterVariant::Unmanaged, ClusterVariant::Unmanaged) => true,
            _ => false,
        }
    }

    /// A copy with the same view.
    pub fn variant_clone(&self) -> (r: Self)
        ensures
            r@ == self@,
    {
        match self {
            ClusterVariant::Managed { size, replication_factor, disk } => {
                ClusterVariant::Managed {
                    size: size.clone(),
                    replication_factor: *replication_factor,
                    disk: *disk,
                }
            },
            ClusterVariant::Unmanaged => ClusterVariant::Unmanaged,
        }
    }
}

/// View of a cluster's configuration.
pub ghost struct ClusterConfigView {
    pub variant: ClusterVariantView,
}

/// Configuration of a cluster.
#[derive(Debug)]
pub struct ClusterConfig {
    pub variant: ClusterVariant,
}

impl View for ClusterConfig {
    type V = ClusterConfigView;

    open spec fn view(&self) -> ClusterConfigView {
        ClusterConfigView { variant: self.variant@ }
    }
}

/// View of a cluster row's payload.
pub ghost struct ClusterValueView {
    pub name: Seq<char>,
    pub linked_object_id: Option<GlobalId>,
    pub owner_id: RoleId,
    pub privileges: Seq<AclItem>,
    pub config: ClusterConfigView,
}

/// Payload of the cluster table.
#[derive(Debug)]
pub struct ClusterValue {
    pub name: String,
    pub linked_object_id: Option<GlobalId>,
    pub owner_id: RoleId,
    pub privileges: Vec<AclItem>,
    pub config: ClusterConfig,
}

impl View for ClusterValue {
    type V = ClusterValueView;

    open spec fn view(&self) -> ClusterValueView {
        ClusterValueView {
            name: self.name@,
            linked_object_id: self.linked_object_id,
            owner_id: self.owner_id,
            privileges: self.privileges@,
            config: self.config@,
        }
    }
}

impl TableValue for ClusterValue {
    fn val_eq(&self, other: &Self) -> (r: bool) {
        string_eq(&self.name, &other.name) && opt_global_id_eq(
            &self.linked_object_id,
            &other.linked_object_id,
        ) && self.owner_id == other.owner_id && acl_vec_eq(&self.privileges, &other.privileges)
            && self.config.variant.variant_eq(&other.config.variant)
    }

    fn val_clone(&self) -> (r: Self) {
        ClusterValue {
            name: self.name.clone(),
            linked_object_id: self.linked_object_id,
            owner_id: self.owner_id,
            privileges: acl_vec_clone(&self.privileges),
            config: ClusterConfig { variant: self.config.variant.variant_clone() },
        }
    }
}

/// Two clusters collide when they share a name.
#[derive(Clone, Copy, PartialEq, Eq, Structural, Debug)]
pub struct ClusterNameConflict;

impl ConflictPred<ClusterValue> for ClusterNameConflict {
    open spec fn conflicts(self, a: ClusterValueView, b: ClusterValueView) -> bool {
        a.name == b.name
    }

    fn check(&self, a: &ClusterValue, b: &ClusterValue) -> (r: bool) {
        string_eq(&a.name, &b.name)
    }
}

// ------------------------------------------------------------------
// Cluster replicas
// ------------------------------------------------------------------
/// Key of the cluster replica table.
#[derive(Clone, Copy, PartialEq, Eq, Structural, Debug)]
pub struct ClusterReplicaKey {
    pub id: ReplicaId,
}

impl View for ClusterReplicaKey {
    type V = ClusterReplicaKey;

    open spec fn view(&self) -> ClusterReplicaKey {
        *self
    }
}

impl TableKey for ClusterReplicaKey {
    fn key_eq(&self, other: &Self) -> (r: bool) {
        *self == *other
    }

    fn key_clone(&self) -> (r: Self) {
        *self
    }
}

/// View of a replica's provisioning configuration.
pub ghost struct ReplicaConfigView {
    pub size: Seq<char>,
    pub logging_interval_us: Option<u64>,
    pub idle_arrangement_merge_effort: Option<u32>,
}

/// How a cluster replica is provisioned.
#[derive(Debug)]
pub struct ReplicaConfig {
    pub size: String,
    pub logging_interval_us: Option<u64>,
    pub idle_arrangement_merge_effort: Option<u32>,
}

impl View for ReplicaConfig {
    type V = ReplicaConfigView;

    open spec fn view(&self) -> ReplicaConfigView {
        ReplicaConfigView {
            size: self.size@,
            logging_interval_us: self.logging_interval_us,
            idle_arrangement_merge_effort: self.idle_arrangement_merge_effort,
        }
    }
}

impl ReplicaConfig {
    /// Decides equality of the configuration views.
    pub fn config_eq(&self, other: &Self) -> (r: bool)
        ensures
            r == (self@ == other@),
    {
        string_eq(&self.size, &other.size) && opt_u64_eq(
            &self.logging_interval_us,
            &other.logging_interval_us,
        ) && opt_u32_eq(
            &self.idle_arrangement_merge_effort,
            &other.idle_arrangement_merge_effort,
        )
    }

    /// A copy with the same view.
    pub fn config_clone(&self) -> (r: Self)
        ensures
            r@ == self@,
    {
        ReplicaConfig {
            size: self.size.clone(),
            logging_interval_us: self.logging_interval_us,
            idle_arrangement_merge_effort: self.idle_arrangement_merge_effort,
        }
    }
}

/// View of a cluster replica row's payload.
pub ghost struct ClusterReplicaValueView {
    pub cluster_id: ClusterId,
    pub name: Seq<char>,
    pub config: ReplicaConfigView,
    pub owner_id: RoleId,
}

/// Payload of the cluster replica table.
#[derive(Debug)]
pub struct ClusterReplicaValue {
    pub cluster_id: ClusterId,
    pub name: String,
    pub config: ReplicaConfig,
    pub owner_id: RoleId,
}

impl View for ClusterReplicaValue {
    type V = ClusterReplicaValueView;

    open spec fn view(&self) -> ClusterReplicaValueView {
        ClusterReplicaValueView {
            cluster_id: self.cluster_id,
            name: self.name@,
            config: self.config@,
            owner_id: self.owner_id,
        }
    }
}

impl TableValue for ClusterReplicaValue {
    fn val_eq(&self, other: &Self) -> (r: bool) {
        self.cluster_id == other.cluster_id && string_eq(&self.name, &other.name)
            && self.config.config_eq(&other.config) && self.owner_id == other.owner_id
    }

    fn val_clone(&self) -> (r: Self) {
        ClusterReplicaValue {
            cluster_id: self.cluster_id,
            name: self.name.clone(),
            config: self.config.config_clone(),
            owner_id: self.owner_id,
        }
    }
}

/// Two replicas collide when they share a cluster and a name.
#[derive(Clone, Copy, PartialEq, Eq, Structural, Debug)]
pub struct ReplicaNameConflict;

impl ConflictPred<ClusterReplicaValue> for ReplicaNameConflict {
    open spec fn conflicts(self, a: ClusterReplicaValueView, b: ClusterReplicaValueView) -> bool {
        a.cluster_id == b.cluster_id && a.name == b.name
    }

    fn check(&self, a: &ClusterReplicaValue, b: &ClusterReplicaValue) -> (r: bool) {
        a.cluster_id == b.cluster_id && string_eq(&a.name, &b.name)
    }
}

// ------------------------------------------------------------------
// Introspection source indexes
// ------------------------------------------------------------------
/// View of an introspection source index key.
pub ghost struct ClusterIntrospectionSourceIndexKeyView {
    pub cluster_id: ClusterId,
    pub name: Seq<char>,
}

/// Key of the introspection source index table.
#[derive(Debug)]
pub struct ClusterIntrospectionSourceIndexKey {
    pub cluster_id: ClusterId,
    pub name: String,
}

impl View for ClusterIntrospectionSourceIndexKey {
    type V = ClusterIntrospectionSourceIndexKeyView;

    open spec fn view(&self) -> ClusterIntrospectionSourceIndexKeyView {
        ClusterIntrospectionSourceIndexKeyView { cluster_id: self.cluster_id, name: self.name@ }
    }
}

impl TableKey for ClusterIntrospectionSourceIndexKey {
    fn key_eq(&self, other: &Self) -> (r: bool) {
        self.cluster_id == other.cluster_id && string_eq(&self.name, &other.name)
    }

    fn key_clone(&self) -> (r: Self) {
        ClusterIntrospectionSourceIndexKey {
            cluster_id: self.cluster_id,
            name: self.name.clone(),
        }
    }
}

/// Payload of the introspection source index table.
#[derive(Clone, Copy, PartialEq, Eq, Structural, Debug)]
pub struct ClusterIntrospectionSourceIndexValue {
    pub index_id: u64,
}

impl View for ClusterIntrospectionSourceIndexValue {
    type V = ClusterIntrospectionSourceIndexValue;

    open spec fn view(&self) -> ClusterIntrospectionSourceIndexValue {
        *self
    }
}

impl TableValue for ClusterIntrospectionSourceIndexValue {
    fn val_eq(&self, other: &Self) -> (r: bool) {
        *self == *other
    }

    fn val_clone(&self) -> (r: Self) {
        *self
    }
}

// ------------------------------------------------------------------
// Id allocators
// ------------------------------------------------------------------
/// Key of the id allocator table.
#[derive(Debug)]
pub struct IdAllocKey {
    pub name: String,
}

impl View for IdAllocKey {
    type V = Seq<char>;

    open spec fn view(&self) -> Seq<char> {
        self.name@
    }
}

impl TableKey for IdAllocKey {
    fn key_eq(&self, other: &Self) -> (r: bool) {
        string_eq(&self.name, &other.name)
    }

    fn key_clone(&self) -> (r: Self) {
        IdAllocKey { name: self.name.clone() }
    }
}

/// Payload of the id allocator table: the next id to hand out.
#[derive(Clone, Copy, PartialEq, Eq, Structural, Debug)]
pub struct IdAllocValue {
    pub next_id: u64,
}

impl View for IdAllocValue {
    type V = IdAllocValue;

    open spec fn view(&self) -> IdAllocValue {
        *self
    }
}

impl TableValue for IdAllocValue {
    fn val_eq(&self, other: &Self) -> (r: bool) {
        *self == *other
    }

    fn val_clone(&self) -> (r: Self) {
        *self
    }
}

// ------------------------------------------------------------------
// Configs
// ------------------------------------------------------------------
/// Key of the config table.
#[derive(Debug)]
pub struct ConfigKey {
    pub key: String,
}

impl View for ConfigKey {
    type V = Seq<char>;

    open spec fn view(&self) -> Seq<char> {
        self.key@
    }
}

impl TableKey for ConfigKey {
    fn key_eq(&self, other: &Self) -> (r: bool) {
        string_eq(&self.key, &other.key)
    }

    fn key_clone(&self) -> (r: Self) {
        ConfigKey { key: self.key.clone() }
    }
}

/// Payload of the config table.
#[derive(Clone, Copy, PartialEq, Eq, Structural, Debug)]
pub struct ConfigValue {
    pub value: u64,
}

impl View for ConfigValue {
    type V = ConfigValue;

    open spec fn view(&self) -> ConfigValue {
        *self
    }
}

impl TableValue for ConfigValue {
    fn val_eq(&self, other: &Self) -> (r: bool) {
        *self == *other
    }

    fn val_clone(&self) -> (r: Self) {
        *self
    }
}

// ------------------------------------------------------------------
// Settings
// ------------------------------------------------------------------
/// Key of the settings table.
#[derive(Debug)]
pub struct SettingKey {
    pub name: String,
}

impl View for SettingKey {
    type V = Seq<char>;

    open spec fn view(&self) -> Seq<char> {
        self.name@
    }
}

impl TableKey for SettingKey {
    fn key_eq(&self, other: &Self) -> (r: bool) {
        string_eq(&self.name, &other.name)
    }

    fn key_clone(&self) -> (r: Self) {
        SettingKey { name: self.name.clone() }
    }
}

/// Payload of the settings table.
#[derive(Debug)]
pub struct SettingValue {
    pub value: String,
}

impl View for SettingValue {
    type V = Seq<char>;

    open spec fn view(&self) -> Seq<char> {
        self.value@
    }
}

impl TableValue for SettingValue {
    fn val_eq(&self, other: &Self) -> (r: bool) {
        string_eq(&self.value, &other.value)
    }

    fn val_clone(&self) -> (r: Self) {
        SettingValue { value: self.value.clone() }
    }
}

// ------------------------------------------------------------------
// Timestamps
// ------------------------------------------------------------------
/// Key of the timestamp table: a timeline name.
#[derive(Debug)]
pub struct TimestampKey {
    pub id: String,
}

impl View for TimestampKey {
    type V = Seq<char>;

    open spec fn view(&self) -> Seq<char> {
        self.id@
    }
}

impl TableKey for TimestampKey {
    fn key_eq(&self, other: &Self) -> (r: bool) {
        string_eq(&self.id, &other.id)
    }

    fn key_clone(&self) -> (r: Self) {
        TimestampKey { id: self.id.clone() }
    }
}

/// Payload of the timestamp table.
#[derive(Clone, Copy, PartialEq, Eq, Structural, Debug)]
pub struct TimestampValue {
    pub ts: u64,
}

impl View for TimestampValue {
    type V = TimestampValue;

    open spec fn view(&self) -> TimestampValue {
        *self
    }
}

impl TableValue for TimestampValue {
    fn val_eq(&self, other: &Self) -> (r: bool) {
        *self == *other
    }

    fn val_clone(&self) -> (r: Self) {
        *self
    }
}

// ------------------------------------------------------------------
// System object (gid) mappings
// ------------------------------------------------------------------
/// View of a system object mapping key.
pub ghost struct GidMappingKeyView {
    pub schema_name: Seq<char>,
    pub object_type: CatalogItemType,
    pub object_name: Seq<char>,
}

/// Key of the system object mapping table.
#[derive(Debug)]
pub struct GidMappingKey {
    pub schema_name: String,
    pub object_type: CatalogItemType,
    pub object_name: String,
}

impl View for GidMappingKey {
    type V = GidMappingKeyView;

    open spec fn view(&self) -> GidMappingKeyView {
        GidMappingKeyView {
            schema_name: self.schema_name@,
            object_type: self.object_type,
            object_name: self.object_name@,
        }
    }
}

impl TableKey for GidMappingKey {
    fn key_eq(&self, other: &Self) -> (r: bool) {
        string_eq(&self.schema_name, &other.schema_name) && self.object_type == other.object_type
            && string_eq(&self.object_name, &other.object_name)
    }

    fn key_clone(&self) -> (r: Self) {
        GidMappingKey {
            schema_name: self.schema_name.clone(),
            object_type: self.object_type,
            object_name: self.object_name.clone(),
        }
    }
}

/// View of a system object mapping payload.
pub ghost struct GidMappingValueView {
    pub id: u64,
    pub fingerprint: Seq<char>,
}

/// Payload of the system object mapping table.
#[derive(Debug)]
pub struct GidMappingValue {
    pub id: u64,
    pub fingerprint: String,
}

impl View for GidMappingValue {
    type V = GidMappingValueView;

    open spec fn view(&self) -> GidMappingValueView {
        GidMappingValueView { id: self.id, fingerprint: self.fingerprint@ }
    }
}

impl TableValue for GidMappingValue {
    fn val_eq(&self, other: &Self) -> (r: bool) {
        self.id == other.id && string_eq(&self.fingerprint, &other.fingerprint)
    }

    fn val_clone(&self) -> (r: Self) {
        GidMappingValue { id: self.id, fingerprint: self.fingerprint.clone() }
    }
}

// ------------------------------------------------------------------
// System configurations
// ------------------------------------------------------------------
/// Key of the system configuration table.
#[derive(Debug)]
pub struct ServerConfigurationKey {
    pub name: String,
}

impl View for ServerConfigurationKey {
    type V = Seq<char>;

    open spec fn view(&self) -> Seq<char> {
        self.name@
    }
}

impl TableKey for ServerConfigurationKey {
    fn key_eq(&self, other: &Self) -> (r: bool) {
        string_eq(&self.name, &other.name)
    }

    fn key_clone(&self) -> (r: Self) {
        ServerConfigurationKey { name: self.name.clone() }
    }
}

/// Payload of the system configuration table.
#[derive(Debug)]
pub struct ServerConfigurationValue {
    pub value: String,
}

impl View for ServerConfigurationValue {
    type V = Seq<char>;

    open spec fn view(&self) -> Seq<char> {
        self.value@
    }
}

impl TableValue for ServerConfigurationValue {
    fn val_eq(&self, other: &Self) -> (r: bool) {
        string_eq(&self.value, &other.value)
    }

    fn val_clone(&self) -> (r: Self) {
        ServerConfigurationValue { value: self.value.clone() }
    }
}

// ------------------------------------------------------------------
// Default privileges
// ------------------------------------------------------------------
/// Key of the default privilege table.
#[derive(Clone, Copy, PartialEq, Eq, Debug)]
pub struct DefaultPrivilegesKey {
    pub role_id: RoleId,
    pub database_id: Option<DatabaseId>,
    pub schema_id: Option<SchemaId>,
    pub object_type: ObjectType,
    pub grantee: RoleId,
}

impl View for DefaultPrivilegesKey {
    type V = DefaultPrivilegesKey;

    open spec fn view(&self) -> DefaultPrivilegesKey {
        *self
    }
}

impl TableKey for DefaultPrivilegesKey {
    fn key_eq(&self, other: &Self) -> (r: bool) {
        self.role_id == other.role_id && opt_database_id_eq(&self.database_id, &other.database_id)
            && opt_schema_id_eq(&self.schema_id, &other.schema_id) && self.object_type
            == other.object_type && self.grantee == other.grantee
    }

    fn key_clone(&self) -> (r: Self) {
        *self
    }
}

/// Payload of the default privilege table.
#[derive(Clone, Copy, PartialEq, Eq, Structural, Debug)]
pub struct DefaultPrivilegesValue {
    pub privileges: AclMode,
}

impl View for DefaultPrivilegesValue {
    type V = DefaultPrivilegesValue;

    open spec fn view(&self) -> DefaultPrivilegesValue {
        *self
    }
}

impl TableValue for DefaultPrivilegesValue {
    fn val_eq(&self, other: &Self) -> (r: bool) {
        *self == *other
    }

    fn val_clone(&self) -> (r: Self) {
        *self
    }
}

// ------------------------------------------------------------------
// System privileges
// ------------------------------------------------------------------
/// Key of the system privilege table.
#[derive(Clone, Copy, PartialEq, Eq, Structural, Debug)]
pub struct SystemPrivilegesKey {
    pub grantee: RoleId,
    pub grantor: RoleId,
}

impl View for SystemPrivilegesKey {
    type V = SystemPrivilegesKey;

    open spec fn view(&self) -> SystemPrivilegesKey {
        *self
    }
}

impl TableKey for SystemPrivilegesKey {
    fn key_eq(&self, other: &Self) -> (r: bool) {
        *self == *other
    }

    fn key_clone(&self) -> (r: Self) {
        *self
    }
}

/// Payload of the system privilege table.
#[derive(Clone, Copy, PartialEq, Eq, Structural, Debug)]
pub struct SystemPrivilegesValue {
    pub acl_mode: AclMode,
}

impl View for SystemPrivilegesValue {
    type V = SystemPrivilegesValue;

    open spec fn view(&self) -> SystemPrivilegesValue {
        *self
    }
}

impl TableValue for SystemPrivilegesValue {
    fn val_eq(&self, other: &Self) -> (r: bool) {
        *self == *other
    }

    fn val_clone(&self) -> (r: Self) {
        *self
    }
}

// ------------------------------------------------------------------
// Composite row types
// ------------------------------------------------------------------
/// A whole database row.
#[derive(Debug)]
pub struct Database {
    pub id: DatabaseId,
    pub name: String,
    pub owner_id: RoleId,
    pub privileges: Vec<AclItem>,
}

impl Database {
    /// Splits the row into its table key and payload.
    pub fn into_key_value(self) -> (r: (DatabaseKey, DatabaseValue))
        ensures
            r.0@ == (DatabaseKey { id: self.id }),
            r.1@ == (DatabaseValueView {
                name: self.name@,
                owner_id: self.owner_id,
                privileges: self.privileges@,
            }),
    {
        (
            DatabaseKey { id: self.id },
            DatabaseValue {
                name: self.name,
                owner_id: self.owner_id,
                privileges: self.privileges,
            },
        )
    }

    /// Rebuilds the row from its table key and payload.
    pub fn from_key_value(key: DatabaseKey, value: DatabaseValue) -> (r: Self)
        ensures
            r.id == key.id,
            r.name@ == value@.name,
            r.owner_id == value@.owner_id,
            r.privileges@ == value@.privileges,
    {
        Database {
            id: key.id,
            name: value.name,
            owner_id: value.owner_id,
            privileges: value.privileges,
        }
    }
}

/// A whole schema row.
#[derive(Debug)]
pub struct Schema {
    pub id: SchemaId,
    pub database_id: Option<DatabaseId>,
    pub name: String,
    pub owner_id: RoleId,
    pub privileges: Vec<AclItem>,
}

impl Schema {
    /// Splits the row into its table key and payload.
    pub fn into_key_value(self) -> (r: (SchemaKey, SchemaValue))
        ensures
            r.0@ == (SchemaKey { id: self.id }),
            r.1@ == (SchemaValueView {
                database_id: self.database_id,
                name: self.name@,
                owner_id: self.owner_id,
                privileges: self.privileges@,
            }),
    {
        (
            SchemaKey { id: self.id },
            SchemaValue {
                database_id: self.database_id,
                name: self.name,
                owner_id: self.owner_id,
                privileges: self.privileges,
            },
        )
    }

    /// Rebuilds the row from its table key and payload.
    pub fn from_key_value(key: SchemaKey, value: SchemaValue) -> (r: Self)
        ensures
            r.id == key.id,
            r.database_id == value@.database_id,
            r.name@ == value@.name,
            r.owner_id == value@.owner_id,
            r.privileges@ == value@.privileges,
    {
        Schema {
            id: key.id,
            database_id: value.database_id,
            name: value.name,
            owner_id: value.owner_id,
            privileges: value.privileges,
        }
    }
}

/// A whole item row.
#[derive(Debug)]
pub struct Item {
    pub id: GlobalId,
    pub schema_id: SchemaId,
    pub name: String,
    pub create_sql: String,
    pub owner_id: RoleId,
    pub privileges: Vec<AclItem>,
}

impl Item {
    /// Splits the row into its table key and payload.
    pub fn into_key_value(self) -> (r: (ItemKey, ItemValue))
        ensures
            r.0@ == (ItemKey { gid: self.id }),
            r.1@ == (ItemValueView {
                schema_id: self.schema_id,
                name: self.name@,
                create_sql: self.create_sql@,
                owner_id: self.owner_id,
                privileges: self.privileges@,
            }),
    {
        (
            ItemKey { gid: self.id },
            ItemValue {
                schema_id: self.schema_id,
                name: self.name,
                create_sql: self.create_sql,
                owner_id: self.owner_id,
                privileges: self.privileges,
            },
        )
    }

    /// Rebuilds the row from its table key and payload.
    pub fn from_key_value(key: ItemKey, value: ItemValue) -> (r: Self)
        ensures
            r.id == key.gid,
            r.schema_id == value@.schema_id,
            r.name@ == value@.name,
            r.create_sql@ == value@.create_sql,
            r.owner_id == value@.owner_id,
            r.privileges@ == value@.privileges,
    {
        Item {
            id: key.gid,
            schema_id: value.schema_id,
            name: value.name,
            create_sql: value.create_sql,
            owner_id: value.owner_id,
            privileges: value.privileges,
        }
    }
}

/// A whole role row.
#[derive(Debug)]
pub struct Role {
    pub id: RoleId,
    pub name: String,
    pub attributes: RoleAttributes,
    pub membership: RoleMembership,
    pub vars: RoleVars,
}

impl Role {
    /// Splits the row into its table key and payload.
    pub fn into_key_value(self) -> (r: (RoleKey, RoleValue))
        ensures
            r.0@ == (RoleKey { id: self.id }),
            r.1@ == (RoleValueView {
                name: self.name@,
                attributes: self.attributes,
                membership: self.membership.map@,
                vars: string_pair_views(self.vars.vars@),
            }),
    {
        (
            RoleKey { id: self.id },
            RoleValue {
                name: self.name,
                attributes: self.attributes,
                membership: self.membership,
                vars: self.vars,
            },
        )
    }

    /// Rebuilds the row from its table key and payload.
    pub fn from_key_value(key: RoleKey, value: RoleValue) -> (r: Self)
        ensures
            r.id == key.id,
            r.name@ == value@.name,
            r.attributes == value@.attributes,
            r.membership.map@ == value@.membership,
            string_pair_views(r.vars.vars@) == value@.vars,
    {
        Role {
            id: key.id,
            name: value.name,
            attributes: value.attributes,
            membership: value.membership,
            vars: value.vars,
        }
    }
}

/// A whole cluster row.
#[derive(Debug)]
pub struct Cluster {
    pub id: ClusterId,
    pub name: String,
    pub linked_object_id: Option<GlobalId>,
    pub owner_id: RoleId,
    pub privileges: Vec<AclItem>,
    pub config: ClusterConfig,
}

impl Cluster {
    /// Splits the row into its table key and payload.
    pub fn into_key_value(self) -> (r: (ClusterKey, ClusterValue))
        ensures
            r.0@ == (ClusterKey { id: self.id }),
            r.1@ == (ClusterValueView {
                name: self.name@,
                linked_object_id: self.linked_object_id,
                owner_id: self.owner_id,
                privileges: self.privileges@,
                config: self.config@,
            }),
    {
        (
            ClusterKey { id: self.id },
            ClusterValue {
                name: self.name,
                linked_object_id: self.linked_object_id,
                owner_id: self.owner_id,
                privileges: self.privileges,
                config: self.config,
            },
        )
    }

    /// Rebuilds the row from its table key and payload.
    pub fn from_key_value(key: ClusterKey, value: ClusterValue) -> (r: Self)
        ensures
            r.id == key.id,
            r.name@ == value@.name,
            r.linked_object_id == value@.linked_object_id,
            r.owner_id == value@.owner_id,
            r.privileges@ == value@.privileges,
            r.config@ == value@.config,
    {
        Cluster {
            id: key.id,
            name: value.name,
            linked_object_id: value.linked_object_id,
            owner_id: value.owner_id,
            privileges: value.privileges,
            config: value.config,
        }
    }
}

/// A whole cluster replica row.
#[derive(Debug)]
pub struct ClusterReplica {
    pub cluster_id: ClusterId,
    pub replica_id: ReplicaId,
    pub name: String,
    pub config: ReplicaConfig,
    pub owner_id: RoleId,
}

impl ClusterReplica {
    /// Splits the row into its table key and payload.
    pub fn into_key_value(self) -> (r: (ClusterReplicaKey, ClusterReplicaValue))
        ensures
            r.0@ == (ClusterReplicaKey { id: self.replica_id }),
            r.1@ == (ClusterReplicaValueView {
                cluster_id: self.cluster_id,
                name: self.name@,
                config: self.config@,
                owner_id: self.owner_id,
            }),
    {
        (
            ClusterReplicaKey { id: self.replica_id },
            ClusterReplicaValue {
                cluster_id: self.cluster_id,
                name: self.name,
                config: self.config,
                owner_id: self.owner_id,
            },
        )
    }

    /// Rebuilds the row from its table key and payload.
    pub fn from_key_value(key: ClusterReplicaKey, value: ClusterReplicaValue) -> (r: Self)
        ensures
            r.replica_id == key.id,
            r.cluster_id == value@.cluster_id,
            r.name@ == value@.name,
            r.config@ == value@.config,
            r.owner_id == value@.owner_id,
    {
        ClusterReplica {
            cluster_id: value.cluster_id,
            replica_id: key.id,
            name: value.name,
            config: value.config,
            owner_id: value.owner_id,
        }
    }
}

/// A whole introspection source index row.
#[derive(Debug)]
pub struct IntrospectionSourceIndex {
    pub cluster_id: ClusterId,
    pub name: String,
    pub index_id: GlobalId,
}

impl IntrospectionSourceIndex {
    /// Splits the row into its table key and payload. The index id must lie
    /// in the system namespace.
    pub fn into_key_value(self) -> (r: (
        ClusterIntrospectionSourceIndexKey,
        ClusterIntrospectionSourceIndexValue,
    ))
        requires
            self.index_id is System,
        ensures
            r.0@ == (ClusterIntrospectionSourceIndexKeyView {
                cluster_id: self.cluster_id,
                name: self.name@,
            }),
            r.1 == (ClusterIntrospectionSourceIndexValue { index_id: self.index_id->System_0 }),
    {
        let index_id = match self.index_id {
            GlobalId::System(id) => id,
            GlobalId::User(_) => {
                proof {
                    assert(false);
                }
                0
            },
        };
        (
            ClusterIntrospectionSourceIndexKey { cluster_id: self.cluster_id, name: self.name },
            ClusterIntrospectionSourceIndexValue { index_id },
        )
    }

    /// Rebuilds the row from its table key and payload.
    pub fn from_key_value(
        key: ClusterIntrospectionSourceIndexKey,
        value: ClusterIntrospectionSourceIndexValue,
    ) -> (r: Self)
        ensures
            r.cluster_id == key@.cluster_id,
            r.name@ == key@.name,
            r.index_id == GlobalId::System(value.index_id),
    {
        IntrospectionSourceIndex {
            cluster_id: key.cluster_id,
            name: key.name,
            index_id: GlobalId::System(value.index_id),
        }
    }
}

/// A whole comment row.
#[derive(Debug)]
pub struct Comment {
    pub object_id: CommentObjectId,
    pub sub_component: Option<usize>,
    pub comment: String,
}

impl Comment {
    /// Rebuilds the row from its table key and payload.
    pub fn from_key_value(key: CommentKey, value: CommentValue) -> (r: Self)
        ensures
            r.object_id == key.object_id,
            r.sub_component == key.sub_component,
            r.comment@ == value@,
    {
        Comment {
            object_id: key.object_id,
            sub_component: key.sub_component,
            comment: value.comment,
        }
    }
}

/// The scope a default privilege applies to.
#[derive(Clone, Copy, PartialEq, Eq, Debug)]
pub struct DefaultPrivilegeObject {
    pub role_id: RoleId,
    pub database_id: Option<DatabaseId>,
    pub schema_id: Option<SchemaId>,
    pub object_type: ObjectType,
}

/// The privilege granted by default within a scope.
#[derive(Clone, Copy, PartialEq, Eq, Structural, Debug)]
pub struct DefaultPrivilegeAclItem {
    pub grantee: RoleId,
    pub privileges: AclMode,
}

/// A whole default privilege row.
#[derive(Clone, Copy, PartialEq, Eq, Debug)]
pub struct DefaultPrivilege {
    pub object: DefaultPrivilegeObject,
    pub acl_item: DefaultPrivilegeAclItem,
}

impl DefaultPrivilege {
    /// Splits the row into its table key and payload.
    pub fn into_key_value(self) -> (r: (DefaultPrivilegesKey, DefaultPrivilegesValue))
        ensures
            r.0 == (DefaultPrivilegesKey {
                role_id: self.object.role_id,
                database_id: self.object.database_id,
                schema_id: self.object.schema_id,
                object_type: self.object.object_type,
                grantee: self.acl_item.grantee,
            }),
            r.1 == (DefaultPrivilegesValue { privileges: self.acl_item.privileges }),
    {
        (
            DefaultPrivilegesKey {
                role_id: self.object.role_id,
                database_id: self.object.database_id,
                schema_id: self.object.schema_id,
                object_type: self.object.object_type,
                grantee: self.acl_item.grantee,
            },
            DefaultPrivilegesValue { privileges: self.acl_item.privileges },
        )
    }

    /// Rebuilds the row from its table key and payload.
    pub fn from_key_value(key: DefaultPrivilegesKey, value: DefaultPrivilegesValue) -> (r: Self)
        ensures
            r.object.role_id == key.role_id,
            r.object.database_id == key.database_id,
            r.object.schema_id == key.schema_id,
            r.object.object_type == key.object_type,
            r.acl_item.grantee == key.grantee,
            r.acl_item.privileges == value.privileges,
    {
        DefaultPrivilege {
            object: DefaultPrivilegeObject {
                role_id: key.role_id,
                database_id: key.database_id,
                schema_id: key.schema_id,
                object_type: key.object_type,
            },
            acl_item: DefaultPrivilegeAclItem {
                grantee: key.grantee,
                privileges: value.privileges,
            },
        }
    }
}

/// What a system object is, by place and name.
#[derive(Debug)]
pub struct SystemObjectDescription {
    pub schema_name: String,
    pub object_type: CatalogItemType,
    pub object_name: String,
}

/// Which item and fingerprint a system object currently maps to.
#[derive(Debug)]
pub struct SystemObjectUniqueIdentifier {
    pub id: GlobalId,
    pub fingerprint: String,
}

/// A whole system object mapping row.
#[derive(Debug)]
pub struct SystemObjectMapping {
    pub description: SystemObjectDescription,
    pub unique_identifier: SystemObjectUniqueIdentifier,
}

impl SystemObjectMapping {
    /// Splits the row into its table key and payload. The mapped id must lie
    /// in the system namespace.
    pub fn into_key_value(self) -> (r: (GidMappingKey, GidMappingValue))
        requires
            self.unique_identifier.id is System,
        ensures
            r.0@ == (GidMappingKeyView {
                schema_name: self.description.schema_name@,
                object_type: self.description.object_type,
                object_name: self.description.object_name@,
            }),
            r.1@ == (GidMappingValueView {
                id: self.unique_identifier.id->System_0,
                fingerprint: self.unique_identifier.fingerprint@,
            }),
    {
        let id = match self.unique_identifier.id {
            GlobalId::System(id) => id,
            GlobalId::User(_) => {
                proof {
                    assert(false);
                }
                0
            },
        };
        (
            GidMappingKey {
                schema_name: self.description.schema_name,
                object_type: self.description.object_type,
                object_name: self.description.object_name,
            },
            GidMappingValue { id, fingerprint: self.unique_identifier.fingerprint },
        )
    }

    /// Rebuilds the row from its table key and payload.
    pub fn from_key_value(key: GidMappingKey, value: GidMappingValue) -> (r: Self)
        ensures
            r.description.schema_name@ == key@.schema_name,
            r.description.object_type == key@.object_type,
            r.description.object_name@ == key@.object_name,
            r.unique_identifier.id == GlobalId::System(value@.id),
            r.unique_identifier.fingerprint@ == value@.fingerprint,
    {
        SystemObjectMapping {
            description: SystemObjectDescription {
                schema_name: key.schema_name,
                object_type: key.object_type,
                object_name: key.object_name,
            },
            unique_identifier: SystemObjectUniqueIdentifier {
                id: GlobalId::System(value.id),
                fingerprint: value.fingerprint,
            },
        }
    }
}

/// A whole system configuration row.
#[derive(Debug)]
pub struct SystemConfiguration {
    pub name: String,
    pub value: String,
}

impl SystemConfiguration {
    /// Rebuilds the row from its table key and payload.
    pub fn from_key_value(key: ServerConfigurationKey, value: ServerConfigurationValue) -> (r:
        Self)
        ensures
            r.name@ == key@,
            r.value@ == value@,
    {
        SystemConfiguration { name: key.name, value: value.value }
    }
}

/// A timeline paired with its read timestamp.
#[derive(Debug)]
pub struct TimelineTimestamp {
    pub timeline: String,
    pub ts: u64,
}

impl TimelineTimestamp {
    /// Splits the row into its table key and payload.
    pub fn into_key_value(self) -> (r: (TimestampKey, TimestampValue))
        ensures
            r.0@ == self.timeline@,
            r.1 == (TimestampValue { ts: self.ts }),
    {
        (TimestampKey { id: self.timeline }, TimestampValue { ts: self.ts })
    }
}

/// A whole config row.
#[derive(Debug)]
pub struct Config {
    pub key: String,
    pub value: u64,
}

impl Config {
    /// Splits the row into its table key and payload.
    pub fn into_key_value(self) -> (r: (ConfigKey, ConfigValue))
        ensures
            r.0@ == self.key@,
            r.1 == (ConfigValue { value: self.value }),
    {
        (ConfigKey { key: self.key }, ConfigValue { value: self.value })
    }
}

/// A named builtin log whose introspection index lives on each cluster.
#[derive(Debug)]
pub struct BuiltinLog {
    pub name: String,
}

} // verus!
