use vstd::prelude::*;

verus! {

/// Every way an operation of the access-control core can fail.
///
/// Errors carry no payload; the operation that returns one leaves the store
/// exactly as it was.
#[derive(Clone, Copy, Debug, PartialEq, Eq, Structural)]
pub enum RbacError {
    /// The caller is not authorized to perform this action.
    Unauthorized,
    /// A root-authority record for this principal already exists.
    RootAlreadyExists,
    /// A role with this name already exists under this root authority.
    RoleAlreadyExists,
    /// A permission with this name already exists under this root authority.
    PermissionAlreadyExists,
    /// The specified role was not found.
    RoleNotFound,
    /// The specified permission was not found.
    PermissionNotFound,
    /// The user's role assignment has expired.
    RoleExpired,
    /// Only the current root authority can perform this action.
    NotRootAuthority,
    /// This permission is already assigned to the role.
    RolePermissionAlreadyAssigned,
    /// This role is already assigned to the user.
    UserRoleAlreadyAssigned,
    /// The role does not belong to this root authority.
    RoleMismatch,
    /// The permission does not belong to this root authority.
    PermissionMismatch,
    /// The role assignment does not match the expected user.
    UserMismatch,
    /// The grant edge does not match the expected permission.
    RolePermissionMismatch,
    /// A name is empty or longer than the fixed byte bound.
    InvalidName,
    /// A counter update would overflow.
    ArithmeticError,
}

} // verus!
