use solguard::errors::RbacError;
use solguard::state::{PermissionRef, PrincipalId, RoleRef};
use solguard::store::RbacStore;

fn pid(n: u64) -> PrincipalId {
    PrincipalId(n)
}

fn nm(s: &str) -> Vec<u8> {
    s.as_bytes().to_vec()
}

fn role_ref(root: PrincipalId, s: &str) -> RoleRef {
    RoleRef { root, name: nm(s) }
}

fn perm_ref(root: PrincipalId, s: &str) -> PermissionRef {
    PermissionRef { root, name: nm(s) }
}

#[test]
fn initialize_root_once() {
    let mut s = RbacStore::new();
    let a = pid(1);
    assert_eq!(s.initialize_root(a), Ok(()));
    let root = s.get_root(a).expect("root exists");
    assert_eq!(root.authority, a);
    assert_eq!(root.root_id, a);
    assert_eq!(root.role_count, 0);
    assert_eq!(root.permission_count, 0);
}

#[test]
fn initialize_root_twice_fails() {
    let mut s = RbacStore::new();
    let a = pid(1);
    assert_eq!(s.initialize_root(a), Ok(()));
    assert_eq!(s.initialize_root(a), Err(RbacError::RootAlreadyExists));
}

#[test]
fn two_roots_coexist() {
    let mut s = RbacStore::new();
    assert_eq!(s.initialize_root(pid(1)), Ok(()));
    assert_eq!(s.initialize_root(pid(2)), Ok(()));
    assert_eq!(s.get_root(pid(1)).unwrap().authority, pid(1));
    assert_eq!(s.get_root(pid(2)).unwrap().authority, pid(2));
}

#[test]
fn create_role_and_query() {
    let mut s = RbacStore::new();
    let a = pid(1);
    s.initialize_root(a).unwrap();
    assert_eq!(s.create_role(a, a, nm("admin")), Ok(()));
    let role = s.get_role(a, &nm("admin")).expect("role exists");
    assert_eq!(role.root, a);
    assert_eq!(role.name, nm("admin"));
    assert!(s.get_role(a, &nm("other")).is_none());
}

#[test]
fn create_role_duplicate_fails() {
    let mut s = RbacStore::new();
    let a = pid(1);
    s.initialize_root(a).unwrap();
    assert_eq!(s.create_role(a, a, nm("x")), Ok(()));
    assert_eq!(s.create_role(a, a, nm("x")), Err(RbacError::RoleAlreadyExists));
}

#[test]
fn same_role_name_under_other_root_is_free() {
    let mut s = RbacStore::new();
    s.initialize_root(pid(1)).unwrap();
    s.initialize_root(pid(2)).unwrap();
    assert_eq!(s.create_role(pid(1), pid(1), nm("x")), Ok(()));
    assert_eq!(s.create_role(pid(2), pid(2), nm("x")), Ok(()));
}

#[test]
fn create_role_requires_authority() {
    let mut s = RbacStore::new();
    let a = pid(1);
    s.initialize_root(a).unwrap();
    assert_eq!(s.create_role(pid(7), a, nm("x")), Err(RbacError::NotRootAuthority));
    assert_eq!(s.create_role(a, pid(3), nm("x")), Err(RbacError::NotRootAuthority));
}

#[test]
fn create_role_name_bounds() {
    let mut s = RbacStore::new();
    let a = pid(1);
    s.initialize_root(a).unwrap();
    assert_eq!(s.create_role(a, a, nm("")), Err(RbacError::InvalidName));
    let long = vec![b'n'; 33];
    assert_eq!(s.create_role(a, a, long), Err(RbacError::InvalidName));
    let exact = vec![b'n'; 32];
    assert_eq!(s.create_role(a, a, exact), Ok(()));
}

#[test]
fn create_permission_duplicate_and_query() {
    let mut s = RbacStore::new();
    let a = pid(1);
    s.initialize_root(a).unwrap();
    assert_eq!(s.create_permission(a, a, nm("delete_user")), Ok(()));
    assert_eq!(
        s.create_permission(a, a, nm("delete_user")),
        Err(RbacError::PermissionAlreadyExists)
    );
    let p = s.get_permission(a, &nm("delete_user")).expect("permission exists");
    assert_eq!(p.root, a);
    assert_eq!(p.name, nm("delete_user"));
}

#[test]
fn create_permission_requires_authority_and_valid_name() {
    let mut s = RbacStore::new();
    let a = pid(1);
    s.initialize_root(a).unwrap();
    assert_eq!(s.create_permission(pid(9), a, nm("p")), Err(RbacError::NotRootAuthority));
    assert_eq!(s.create_permission(a, a, nm("")), Err(RbacError::InvalidName));
}

#[test]
fn counters_count_creations_exactly() {
    let mut s = RbacStore::new();
    let a = pid(1);
    s.initialize_root(a).unwrap();
    s.create_role(a, a, nm("r1")).unwrap();
    s.create_role(a, a, nm("r2")).unwrap();
    s.create_role(a, a, nm("r3")).unwrap();
    assert_eq!(s.get_root(a).unwrap().role_count, 3);
    assert_eq!(s.get_root(a).unwrap().permission_count, 0);

    // A failed creation leaves the counter alone.
    assert_eq!(s.create_role(a, a, nm("r1")), Err(RbacError::RoleAlreadyExists));
    assert_eq!(s.get_root(a).unwrap().role_count, 3);

    // Revocations elsewhere never decrement it.
    s.create_permission(a, a, nm("p")).unwrap();
    s.assign_permission_to_role(a, a, role_ref(a, "r1"), perm_ref(a, "p")).unwrap();
    s.revoke_permission_from_role(a, a, &role_ref(a, "r1"), &perm_ref(a, "p")).unwrap();
    s.assign_role_to_user(a, a, pid(5), role_ref(a, "r2"), -1).unwrap();
    s.revoke_role_from_user(a, a, pid(5), &role_ref(a, "r2")).unwrap();
    assert_eq!(s.get_root(a).unwrap().role_count, 3);
    assert_eq!(s.get_root(a).unwrap().permission_count, 1);
}

#[test]
fn role_counter_overflow_is_arithmetic_error() {
    let mut s = RbacStore::new();
    let a = pid(1);
    s.initialize_root(a).unwrap();
    s.roots[0].role_count = u64::MAX;
    assert_eq!(s.create_role(a, a, nm("x")), Err(RbacError::ArithmeticError));
    assert!(s.get_role(a, &nm("x")).is_none());
}

#[test]
fn permission_counter_overflow_is_arithmetic_error() {
    let mut s = RbacStore::new();
    let a = pid(1);
    s.initialize_root(a).unwrap();
    s.roots[0].permission_count = u64::MAX;
    assert_eq!(s.create_permission(a, a, nm("x")), Err(RbacError::ArithmeticError));
}

#[test]
fn assign_permission_to_role_happy_path() {
    let mut s = RbacStore::new();
    let a = pid(1);
    s.initialize_root(a).unwrap();
    s.create_role(a, a, nm("admin")).unwrap();
    s.create_permission(a, a, nm("p")).unwrap();
    assert_eq!(s.assign_permission_to_role(a, a, role_ref(a, "admin"), perm_ref(a, "p")), Ok(()));
    let g = s
        .get_role_permission(&role_ref(a, "admin"), &perm_ref(a, "p"))
        .expect("grant exists");
    assert_eq!(g.role.name, nm("admin"));
    assert_eq!(g.permission.name, nm("p"));
}

#[test]
fn assign_permission_errors() {
    let mut s = RbacStore::new();
    let a = pid(1);
    let b = pid(2);
    s.initialize_root(a).unwrap();
    s.initialize_root(b).unwrap();
    s.create_role(a, a, nm("admin")).unwrap();
    s.create_permission(a, a, nm("p")).unwrap();
    s.create_role(b, b, nm("other")).unwrap();
    s.create_permission(b, b, nm("q")).unwrap();

    assert_eq!(
        s.assign_permission_to_role(a, a, role_ref(a, "ghost"), perm_ref(a, "p")),
        Err(RbacError::RoleNotFound)
    );
    assert_eq!(
        s.assign_permission_to_role(a, a, role_ref(a, "admin"), perm_ref(a, "ghost")),
        Err(RbacError::PermissionNotFound)
    );
    assert_eq!(
        s.assign_permission_to_role(a, a, role_ref(b, "other"), perm_ref(a, "p")),
        Err(RbacError::RoleMismatch)
    );
    assert_eq!(
        s.assign_permission_to_role(a, a, role_ref(a, "admin"), perm_ref(b, "q")),
        Err(RbacError::PermissionMismatch)
    );
    assert_eq!(
        s.assign_permission_to_role(b, a, role_ref(a, "admin"), perm_ref(a, "p")),
        Err(RbacError::NotRootAuthority)
    );
    assert_eq!(
        s.assign_permission_to_role(a, a, role_ref(a, "admin"), perm_ref(a, "p")),
        Ok(())
    );
    assert_eq!(
        s.assign_permission_to_role(a, a, role_ref(a, "admin"), perm_ref(a, "p")),
        Err(RbacError::RolePermissionAlreadyAssigned)
    );
}

#[test]
fn revoke_permission_from_role_round_trip() {
    let mut s = RbacStore::new();
    let a = pid(1);
    s.initialize_root(a).unwrap();
    s.create_role(a, a, nm("admin")).unwrap();
    s.create_permission(a, a, nm("p")).unwrap();
    s.assign_permission_to_role(a, a, role_ref(a, "admin"), perm_ref(a, "p")).unwrap();
    assert_eq!(
        s.revoke_permission_from_role(a, a, &role_ref(a, "admin"), &perm_ref(a, "p")),
        Ok(())
    );
    assert!(s.get_role_permission(&role_ref(a, "admin"), &perm_ref(a, "p")).is_none());
    // The edge is gone; revoking again reports it missing.
    assert_eq!(
        s.revoke_permission_from_role(a, a, &role_ref(a, "admin"), &perm_ref(a, "p")),
        Err(RbacError::PermissionNotFound)
    );
    // And the grant can be re-created afterwards.
    assert_eq!(
        s.assign_permission_to_role(a, a, role_ref(a, "admin"), perm_ref(a, "p")),
        Ok(())
    );
}

#[test]
fn revoke_permission_requires_authority() {
    let mut s = RbacStore::new();
    let a = pid(1);
    s.initialize_root(a).unwrap();
    s.create_role(a, a, nm("admin")).unwrap();
    s.create_permission(a, a, nm("p")).unwrap();
    s.assign_permission_to_role(a, a, role_ref(a, "admin"), perm_ref(a, "p")).unwrap();
    assert_eq!(
        s.revoke_permission_from_role(pid(9), a, &role_ref(a, "admin"), &perm_ref(a, "p")),
        Err(RbacError::NotRootAuthority)
    );
}

#[test]
fn assign_role_to_user_happy_path_and_errors() {
    let mut s = RbacStore::new();
    let a = pid(1);
    let u = pid(42);
    s.initialize_root(a).unwrap();
    s.create_role(a, a, nm("admin")).unwrap();

    assert_eq!(
        s.assign_role_to_user(a, a, u, role_ref(a, "ghost"), -1),
        Err(RbacError::RoleNotFound)
    );
    assert_eq!(
        s.assign_role_to_user(pid(9), a, u, role_ref(a, "admin"), -1),
        Err(RbacError::NotRootAuthority)
    );
    assert_eq!(s.assign_role_to_user(a, a, u, role_ref(a, "admin"), 500), Ok(()));
    let ur = s.get_user_role(a, u, &role_ref(a, "admin")).expect("assignment exists");
    assert_eq!(ur.user, u);
    assert_eq!(ur.root, a);
    assert_eq!(ur.granted_by, a);
    assert_eq!(ur.expires_at, 500);
    assert_eq!(
        s.assign_role_to_user(a, a, u, role_ref(a, "admin"), -1),
        Err(RbacError::UserRoleAlreadyAssigned)
    );
}

#[test]
fn assign_role_mismatched_root_fails() {
    let mut s = RbacStore::new();
    let a = pid(1);
    let b = pid(2);
    s.initialize_root(a).unwrap();
    s.initialize_root(b).unwrap();
    s.create_role(b, b, nm("other")).unwrap();
    assert_eq!(
        s.assign_role_to_user(a, a, pid(42), role_ref(b, "other"), -1),
        Err(RbacError::RoleMismatch)
    );
}

#[test]
fn already_expired_assignment_is_accepted() {
    let mut s = RbacStore::new();
    let a = pid(1);
    s.initialize_root(a).unwrap();
    s.create_role(a, a, nm("admin")).unwrap();
    // The expiry is stored verbatim; a past timestamp is not an error.
    assert_eq!(s.assign_role_to_user(a, a, pid(42), role_ref(a, "admin"), 0), Ok(()));
    assert_eq!(
        s.get_user_role(a, pid(42), &role_ref(a, "admin")).unwrap().expires_at,
        0
    );
}

#[test]
fn revoke_role_from_user_round_trip() {
    let mut s = RbacStore::new();
    let a = pid(1);
    let u = pid(42);
    s.initialize_root(a).unwrap();
    s.create_role(a, a, nm("admin")).unwrap();
    s.assign_role_to_user(a, a, u, role_ref(a, "admin"), -1).unwrap();
    assert_eq!(
        s.revoke_role_from_user(pid(9), a, u, &role_ref(a, "admin")),
        Err(RbacError::NotRootAuthority)
    );
    assert_eq!(s.revoke_role_from_user(a, a, u, &role_ref(a, "admin")), Ok(()));
    assert!(s.get_user_role(a, u, &role_ref(a, "admin")).is_none());
    assert_eq!(
        s.revoke_role_from_user(a, a, u, &role_ref(a, "admin")),
        Err(RbacError::RoleNotFound)
    );
}

#[test]
fn transfer_authority_is_immediate_and_total() {
    let mut s = RbacStore::new();
    let a = pid(1);
    let b = pid(2);
    s.initialize_root(a).unwrap();
    assert_eq!(s.transfer_authority(b, a, b), Err(RbacError::NotRootAuthority));
    assert_eq!(s.transfer_authority(a, a, b), Ok(()));
    // Re-querying immediately shows the new authority...
    assert_eq!(s.get_root(a).unwrap().authority, b);
    // ...the registry keeps its key and counters...
    assert_eq!(s.get_root(a).unwrap().root_id, a);
    assert_eq!(s.get_root(a).unwrap().role_count, 0);
    // ...the old authority is locked out of every operation...
    assert_eq!(s.create_role(a, a, nm("x")), Err(RbacError::NotRootAuthority));
    assert_eq!(s.create_permission(a, a, nm("x")), Err(RbacError::NotRootAuthority));
    assert_eq!(s.transfer_authority(a, a, a), Err(RbacError::NotRootAuthority));
    // ...and the new one is in control under the same registry key.
    assert_eq!(s.create_role(b, a, nm("x")), Ok(()));
    // Transferring to the holder again changes nothing.
    assert_eq!(s.transfer_authority(b, a, b), Ok(()));
    assert_eq!(s.get_root(a).unwrap().authority, b);
    assert_eq!(s.transfer_authority(b, a, a), Ok(()));
    assert_eq!(s.get_root(a).unwrap().authority, a);
}

#[test]
fn revoke_permission_missing_references() {
    let mut s = RbacStore::new();
    let a = pid(1);
    s.initialize_root(a).unwrap();
    s.create_role(a, a, nm("admin")).unwrap();
    s.create_permission(a, a, nm("p")).unwrap();
    // A reference to a role record that was never created.
    assert_eq!(
        s.revoke_permission_from_role(a, a, &role_ref(a, "ghost"), &perm_ref(a, "p")),
        Err(RbacError::RoleNotFound)
    );
    // A reference to a permission record that was never created.
    assert_eq!(
        s.revoke_permission_from_role(a, a, &role_ref(a, "admin"), &perm_ref(a, "ghost")),
        Err(RbacError::PermissionNotFound)
    );
}

#[test]
fn revoke_role_from_user_mismatched_root() {
    let mut s = RbacStore::new();
    let a = pid(1);
    let b = pid(2);
    s.initialize_root(a).unwrap();
    s.initialize_root(b).unwrap();
    s.create_role(b, b, nm("other")).unwrap();
    assert_eq!(
        s.revoke_role_from_user(a, a, pid(42), &role_ref(b, "other")),
        Err(RbacError::RoleMismatch)
    );
}

#[test]
fn lookups_are_keyed_exactly() {
    let mut s = RbacStore::new();
    let a = pid(1);
    let u = pid(42);
    s.initialize_root(a).unwrap();
    s.create_role(a, a, nm("admin")).unwrap();
    s.assign_role_to_user(a, a, u, role_ref(a, "admin"), -1).unwrap();
    // Any differing key component misses.
    assert!(s.get_user_role(a, u, &role_ref(a, "admi")).is_none());
    assert!(s.get_user_role(a, pid(43), &role_ref(a, "admin")).is_none());
    assert!(s.get_user_role(pid(2), u, &role_ref(a, "admin")).is_none());
    assert!(s.get_user_role(a, u, &role_ref(a, "admin")).is_some());
}

#[test]
fn transfer_authority_unknown_root_fails() {
    let mut s = RbacStore::new();
    assert_eq!(s.transfer_authority(pid(1), pid(1), pid(2)), Err(RbacError::NotRootAuthority));
}
