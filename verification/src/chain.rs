use vstd::prelude::*;

use crate::errors::RbacError;
use crate::state::{
    permission_ref_eq, role_ref_eq, PermissionRef, PermissionRefV, PrincipalId, RolePermission,
    RolePermissionV, UserRole, UserRoleV,
};

verus! {

/// Exact outcome of [`check_permission`]: the checks in order, first
/// failure wins.
pub open spec fn check_permission_spec(
    user: PrincipalId,
    permission: PermissionRefV,
    assignment: UserRoleV,
    grant: RolePermissionV,
    now: i64,
) -> Result<(), RbacError> {
    if assignment.user != user {
        Err(RbacError::UserMismatch)
    } else if assignment.role != grant.role {
        Err(RbacError::RoleMismatch)
    } else if grant.permission != permission {
        Err(RbacError::RolePermissionMismatch)
    } else if assignment.is_expired(now) {
        Err(RbacError::RoleExpired)
    } else {
        Ok(())
    }
}

/// Verify the proof chain user -> role assignment -> role-permission grant
/// -> permission: the caller claims that `user` holds `permission` at time
/// `now` and presents the two edge records as evidence.
///
/// The check succeeds exactly when the assignment names the claimed user,
/// the two edges name the same role, the grant names the claimed
/// permission, and the assignment is unexpired — where an `expires_at`
/// exactly equal to `now` is still valid and `-1` never expires.  It is a
/// pure read-only check: a chain whose edges were already revoked cannot be
/// presented, since revocation removes the records themselves.
pub fn check_permission(
    user: PrincipalId,
    permission: &PermissionRef,
    assignment: &UserRole,
    grant: &RolePermission,
    now: i64,
) -> (r: Result<(), RbacError>)
    ensures
        r == check_permission_spec(user, permission@, assignment@, grant@, now),
        r is Ok <==> {
            &&& assignment@.user == user
            &&& assignment@.role == grant@.role
            &&& grant@.permission == permission@
            &&& (assignment@.expires_at == -1 || now <= assignment@.expires_at)
        },
{
    if assignment.user != user {
        return Err(RbacError::UserMismatch);
    }
    if !role_ref_eq(&assignment.role, &grant.role) {
        return Err(RbacError::RoleMismatch);
    }
    if !permission_ref_eq(&grant.permission, permission) {
        return Err(RbacError::RolePermissionMismatch);
    }
    if assignment.is_expired(now) {
        return Err(RbacError::RoleExpired);
    }
    Ok(())
}

} // verus!
