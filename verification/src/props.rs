use vstd::prelude::*;

use crate::chain::check_permission_spec;
use crate::errors::RbacError;
use crate::state::{valid_name, PermissionRefV, PrincipalId, RolePermissionV, RoleRefV, UserRoleV};
use crate::store::{permission_matches, role_matches, RbacStore};

verus! {

impl RbacStore {
    /// Uniqueness: once a role (root, name) exists, a further creation under
    /// the same key cannot succeed — the root's authority is told the name
    /// already exists.  Together with the postcondition of
    /// [`RbacStore::create_role`], which establishes the key, two creations
    /// of the same (root, name) cannot both succeed.
    pub proof fn lemma_role_name_uniqueness(
        self,
        caller: PrincipalId,
        root: PrincipalId,
        name: Seq<u8>,
    )
        requires
            self.wf(),
            self.has_root(root),
            caller == self.authority_of(root),
            self.has_role(root, name),
        ensures
            self.create_role_check(caller, root, name) == Err::<(), RbacError>(
                RbacError::RoleAlreadyExists,
            ),
    {
        let i = choose|i: int|
            0 <= i < self.roles@.len() && role_matches(#[trigger] self.roles@[i], root, name);
        assert(valid_name(self.roles@[i].name@));
    }

    /// The same uniqueness law for permissions: a second creation of the
    /// permission (root, name) cannot succeed.
    pub proof fn lemma_permission_name_uniqueness(
        self,
        caller: PrincipalId,
        root: PrincipalId,
        name: Seq<u8>,
    )
        requires
            self.wf(),
            self.has_root(root),
            caller == self.authority_of(root),
            self.has_permission(root, name),
        ensures
            self.create_permission_check(caller, root, name) == Err::<(), RbacError>(
                RbacError::PermissionAlreadyExists,
            ),
    {
        let i = choose|i: int|
            0 <= i < self.permissions@.len() && permission_matches(
                #[trigger] self.permissions@[i],
                root,
                name,
            );
        assert(valid_name(self.permissions@[i].name@));
    }

    /// Authorization: every administrative operation on a root registry
    /// refuses a caller that is not the registry's current authority, even
    /// when everything else about the request is in order — for the edge
    /// operations, whenever the referenced role and permission exist and
    /// belong to the registry.  Since a transfer's postcondition moves
    /// `authority_of` to the new principal, this also says that after a
    /// transfer the old authority is refused.
    pub proof fn lemma_authorization_required(
        self,
        caller: PrincipalId,
        root: PrincipalId,
        user: PrincipalId,
        name: Seq<u8>,
        role: RoleRefV,
        permission: PermissionRefV,
    )
        requires
            self.wf(),
            self.has_root(root),
            caller != self.authority_of(root),
        ensures
            self.create_role_check(caller, root, name) == Err::<(), RbacError>(
                RbacError::NotRootAuthority,
            ),
            self.create_permission_check(caller, root, name) == Err::<(), RbacError>(
                RbacError::NotRootAuthority,
            ),
            self.transfer_authority_check(caller, root) == Err::<(), RbacError>(
                RbacError::NotRootAuthority,
            ),
            self.has_role(role.root, role.name) && role.root == root && self.has_permission(
                permission.root,
                permission.name,
            ) && permission.root == root ==> {
                &&& self.assign_permission_check(caller, root, role, permission) == Err::<
                    (),
                    RbacError,
                >(RbacError::NotRootAuthority)
                &&& self.revoke_permission_check(caller, root, role, permission) == Err::<
                    (),
                    RbacError,
                >(RbacError::NotRootAuthority)
            },
            self.has_role(role.root, role.name) && role.root == root ==> {
                &&& self.assign_role_check(caller, root, user, role) == Err::<(), RbacError>(
                    RbacError::NotRootAuthority,
                )
                &&& self.revoke_role_check(caller, root, user, role) == Err::<(), RbacError>(
                    RbacError::NotRootAuthority,
                )
            },
    {
    }
}

/// Chain correctness: the verifier accepts a presented chain exactly when
/// the assignment names the claimed user, both edges name the same role,
/// the grant names the claimed permission, and the assignment is unexpired
/// at `now`.
pub proof fn lemma_chain_correctness(
    user: PrincipalId,
    permission: PermissionRefV,
    assignment: UserRoleV,
    grant: RolePermissionV,
    now: i64,
)
    ensures
        check_permission_spec(user, permission, assignment, grant, now) is Ok <==> {
            &&& assignment.user == user
            &&& assignment.role == grant.role
            &&& grant.permission == permission
            &&& (assignment.expires_at == -1 || now <= assignment.expires_at)
        },
{
}

/// Expiry boundary: for a chain that is otherwise consistent and expires at
/// `t`, a check exactly at `now == t` still succeeds, and a check one unit
/// later fails with `RoleExpired`.  (For `t` at the top of the timestamp
/// range no later instant exists, so the second half speaks of `t` below
/// it.)
pub proof fn lemma_expiry_boundary(
    user: PrincipalId,
    permission: PermissionRefV,
    assignment: UserRoleV,
    grant: RolePermissionV,
    t: i64,
)
    requires
        assignment.user == user,
        assignment.role == grant.role,
        grant.permission == permission,
        assignment.expires_at == t,
        t != -1,
        t < i64::MAX,
    ensures
        check_permission_spec(user, permission, assignment, grant, t) == Ok::<(), RbacError>(()),
        check_permission_spec(user, permission, assignment, grant, (t + 1) as i64) == Err::<
            (),
            RbacError,
        >(RbacError::RoleExpired),
{
}

} // verus!
