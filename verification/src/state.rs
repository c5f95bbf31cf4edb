use vstd::prelude::*;

verus! {

/// An opaque principal identifier: a public-key-shaped value of which the
/// core only ever asks equality.  It is modeled here as a machine word.
#[derive(Clone, Copy, Debug, PartialEq, Eq, Hash, Structural)]
pub struct PrincipalId(pub u64);

/// The byte bound on role and permission names.
pub const MAX_NAME_LEN: usize = 32;

/// A role or permission name is accepted when it is non-empty and within the
/// fixed byte bound.
pub open spec fn valid_name(name: Seq<u8>) -> bool {
    0 < name.len() <= MAX_NAME_LEN
}

/// Reference to a role record: the composite key (root authority, name)
/// under which the role was created.
#[derive(Debug)]
pub struct RoleRef {
    pub root: PrincipalId,
    pub name: Vec<u8>,
}

/// Mathematical value of a [`RoleRef`].
pub ghost struct RoleRefV {
    pub root: PrincipalId,
    pub name: Seq<u8>,
}

impl View for RoleRef {
    type V = RoleRefV;

    open spec fn view(&self) -> RoleRefV {
        RoleRefV { root: self.root, name: self.name@ }
    }
}

/// Reference to a permission record: the composite key (root authority,
/// name) under which the permission was created.
#[derive(Debug)]
pub struct PermissionRef {
    pub root: PrincipalId,
    pub name: Vec<u8>,
}

/// Mathematical value of a [`PermissionRef`].
pub ghost struct PermissionRefV {
    pub root: PrincipalId,
    pub name: Seq<u8>,
}

impl View for PermissionRef {
    type V = PermissionRefV;

    open spec fn view(&self) -> PermissionRefV {
        PermissionRefV { root: self.root, name: self.name@ }
    }
}

/// One record per administrative principal; the root of ownership for every
/// role, permission and edge created under it.
///
/// `root_id` is the record's key: the principal that bootstrapped this
/// registry.  It never changes, so references to the registry stay valid when
/// control is transferred.  `authority` is the principal currently in
/// control; it starts equal to `root_id` and moves on transfer.  The two
/// counters record every creation ever made under this root and are never
/// decremented.
#[derive(Clone, Copy, Debug, PartialEq, Eq, Structural)]
pub struct RootAuthority {
    pub root_id: PrincipalId,
    pub authority: PrincipalId,
    pub role_count: u64,
    pub permission_count: u64,
}

/// A named role scoped to one root authority, unique by (root, name).
#[derive(Debug)]
pub struct Role {
    pub root: PrincipalId,
    pub name: Vec<u8>,
}

/// A named permission scoped to one root authority, unique by (root, name).
#[derive(Debug)]
pub struct Permission {
    pub root: PrincipalId,
    pub name: Vec<u8>,
}

/// A grant edge binding a permission to a role.  Its existence in the store
/// is the grant; removing it revokes the grant.
#[derive(Debug)]
pub struct RolePermission {
    pub role: RoleRef,
    pub permission: PermissionRef,
}

/// Mathematical value of a [`RolePermission`].
pub ghost struct RolePermissionV {
    pub role: RoleRefV,
    pub permission: PermissionRefV,
}

impl View for RolePermission {
    type V = RolePermissionV;

    open spec fn view(&self) -> RolePermissionV {
        RolePermissionV { role: self.role@, permission: self.permission@ }
    }
}

/// An assignment edge binding a role to a user principal, carrying an expiry
/// timestamp.  `expires_at == -1` means the assignment never expires;
/// otherwise it is the last instant at which the assignment is still valid.
#[derive(Debug)]
pub struct UserRole {
    pub user: PrincipalId,
    pub role: RoleRef,
    pub root: PrincipalId,
    pub granted_by: PrincipalId,
    pub expires_at: i64,
}

/// Mathematical value of a [`UserRole`].
pub ghost struct UserRoleV {
    pub user: PrincipalId,
    pub role: RoleRefV,
    pub root: PrincipalId,
    pub granted_by: PrincipalId,
    pub expires_at: i64,
}

impl View for UserRole {
    type V = UserRoleV;

    open spec fn view(&self) -> UserRoleV {
        UserRoleV {
            user: self.user,
            role: self.role@,
            root: self.root,
            granted_by: self.granted_by,
            expires_at: self.expires_at,
        }
    }
}

impl UserRoleV {
    /// An assignment is expired once the current time has moved strictly past
    /// `expires_at`; the sentinel `-1` never expires.
    pub open spec fn is_expired(self, now: i64) -> bool {
        self.expires_at != -1 && now > self.expires_at
    }
}

impl UserRole {
    /// Whether this assignment is expired at `current_timestamp`.  A
    /// timestamp exactly equal to `expires_at` is still valid.
    pub fn is_expired(&self, current_timestamp: i64) -> (r: bool)
        ensures
            r == self@.is_expired(current_timestamp),
    {
        self.expires_at != -1 && current_timestamp > self.expires_at
    }
}

/// Byte-for-byte equality of two names.
pub fn bytes_eq(a: &Vec<u8>, b: &Vec<u8>) -> (r: bool)
    ensures
        r == (a@ == b@),
{
    if a.len() != b.len() {
        return false;
    }
    let mut i: usize = 0;
    while i < a.len()
        invariant
            a@.len() == b@.len(),
            i <= a@.len(),
            forall|j: int| 0 <= j < i ==> a@[j] == b@[j],
        decreases a@.len() - i,
    {
        if a[i] != b[i] {
            return false;
        }
        i += 1;
    }
    proof {
        assert(a@ =~= b@);
    }
    true
}

/// Equality of two role references, comparing root and name.
pub fn role_ref_eq(a: &RoleRef, b: &RoleRef) -> (r: bool)
    ensures
        r == (a@ == b@),
{
    a.root == b.root && bytes_eq(&a.name, &b.name)
}

/// Equality of two permission references, comparing root and name.
pub fn permission_ref_eq(a: &PermissionRef, b: &PermissionRef) -> (r: bool)
    ensures
        r == (a@ == b@),
{
    a.root == b.root && bytes_eq(&a.name, &b.name)
}

} // verus!
