use solguard::chain::check_permission;
use solguard::errors::RbacError;
use solguard::state::{PermissionRef, PrincipalId, RolePermission, RoleRef, UserRole};
use solguard::store::RbacStore;

fn pid(n: u64) -> PrincipalId {
    PrincipalId(n)
}

fn nm(s: &str) -> Vec<u8> {
    s.as_bytes().to_vec()
}

fn role_ref(root: PrincipalId, s: &str) -> RoleRef {
    RoleRef { root, name: nm(s) }
}

fn perm_ref(root: PrincipalId, s: &str) -> PermissionRef {
    PermissionRef { root, name: nm(s) }
}

fn assignment(user: PrincipalId, root: PrincipalId, role: &str, expires_at: i64) -> UserRole {
    UserRole { user, role: role_ref(root, role), root, granted_by: root, expires_at }
}

fn grant(root: PrincipalId, role: &str, permission: &str) -> RolePermission {
    RolePermission { role: role_ref(root, role), permission: perm_ref(root, permission) }
}

#[test]
fn chain_success() {
    let a = pid(1);
    let u = pid(42);
    let r = check_permission(
        u,
        &perm_ref(a, "delete_user"),
        &assignment(u, a, "admin", -1),
        &grant(a, "admin", "delete_user"),
        1_000_000,
    );
    assert_eq!(r, Ok(()));
}

#[test]
fn chain_user_mismatch() {
    let a = pid(1);
    let r = check_permission(
        pid(43),
        &perm_ref(a, "p"),
        &assignment(pid(42), a, "admin", -1),
        &grant(a, "admin", "p"),
        0,
    );
    assert_eq!(r, Err(RbacError::UserMismatch));
}

#[test]
fn chain_role_mismatch() {
    let a = pid(1);
    let u = pid(42);
    let r = check_permission(
        u,
        &perm_ref(a, "p"),
        &assignment(u, a, "viewer", -1),
        &grant(a, "admin", "p"),
        0,
    );
    assert_eq!(r, Err(RbacError::RoleMismatch));
}

#[test]
fn chain_permission_mismatch() {
    let a = pid(1);
    let u = pid(42);
    let r = check_permission(
        u,
        &perm_ref(a, "write"),
        &assignment(u, a, "admin", -1),
        &grant(a, "admin", "read"),
        0,
    );
    assert_eq!(r, Err(RbacError::RolePermissionMismatch));
}

#[test]
fn chain_expiry_boundary() {
    let a = pid(1);
    let u = pid(42);
    let t = 10_000;
    // A check exactly at the expiry instant still succeeds...
    let at_t = check_permission(
        u,
        &perm_ref(a, "p"),
        &assignment(u, a, "admin", t),
        &grant(a, "admin", "p"),
        t,
    );
    assert_eq!(at_t, Ok(()));
    // ...one unit later it is expired.
    let past_t = check_permission(
        u,
        &perm_ref(a, "p"),
        &assignment(u, a, "admin", t),
        &grant(a, "admin", "p"),
        t + 1,
    );
    assert_eq!(past_t, Err(RbacError::RoleExpired));
}

#[test]
fn chain_never_expires_sentinel() {
    let a = pid(1);
    let u = pid(42);
    let r = check_permission(
        u,
        &perm_ref(a, "p"),
        &assignment(u, a, "admin", -1),
        &grant(a, "admin", "p"),
        i64::MAX,
    );
    assert_eq!(r, Ok(()));
}

#[test]
fn chain_checks_in_order() {
    let a = pid(1);
    // Every link is wrong; the user mismatch is reported first.
    let r = check_permission(
        pid(7),
        &perm_ref(a, "x"),
        &assignment(pid(42), a, "viewer", 0),
        &grant(a, "admin", "y"),
        100,
    );
    assert_eq!(r, Err(RbacError::UserMismatch));
}

#[test]
fn is_expired_boundaries() {
    let a = assignment(pid(1), pid(2), "r", 50);
    assert!(!a.is_expired(49));
    assert!(!a.is_expired(50));
    assert!(a.is_expired(51));
    let forever = assignment(pid(1), pid(2), "r", -1);
    assert!(!forever.is_expired(i64::MAX));
    assert!(!forever.is_expired(i64::MIN));
}

#[test]
fn end_to_end_grant_check_revoke() {
    let mut s = RbacStore::new();
    let a = pid(1);
    let u = pid(42);
    s.initialize_root(a).unwrap();
    s.create_role(a, a, nm("admin")).unwrap();
    s.create_permission(a, a, nm("delete_user")).unwrap();
    s.assign_permission_to_role(a, a, role_ref(a, "admin"), perm_ref(a, "delete_user")).unwrap();
    s.assign_role_to_user(a, a, u, role_ref(a, "admin"), -1).unwrap();

    // The caller reads both edge records from the store and presents them.
    let now = 1_700_000_000;
    {
        let ur = s.get_user_role(a, u, &role_ref(a, "admin")).expect("assignment readable");
        let g = s
            .get_role_permission(&role_ref(a, "admin"), &perm_ref(a, "delete_user"))
            .expect("grant readable");
        assert_eq!(check_permission(u, &perm_ref(a, "delete_user"), ur, g, now), Ok(()));
    }

    // After revocation the assignment record no longer exists, so the same
    // chain can no longer be presented.
    s.revoke_role_from_user(a, a, u, &role_ref(a, "admin")).unwrap();
    assert!(s.get_user_role(a, u, &role_ref(a, "admin")).is_none());

    // The grant edge alone is still there.
    assert!(s
        .get_role_permission(&role_ref(a, "admin"), &perm_ref(a, "delete_user"))
        .is_some());
}

#[test]
fn orphaned_edges_are_left_in_place() {
    // Revoking a grant leaves an assignment that references the same role
    // untouched: there is no cascading delete.
    let mut s = RbacStore::new();
    let a = pid(1);
    let u = pid(42);
    s.initialize_root(a).unwrap();
    s.create_role(a, a, nm("admin")).unwrap();
    s.create_permission(a, a, nm("p")).unwrap();
    s.assign_permission_to_role(a, a, role_ref(a, "admin"), perm_ref(a, "p")).unwrap();
    s.assign_role_to_user(a, a, u, role_ref(a, "admin"), -1).unwrap();
    s.revoke_permission_from_role(a, a, &role_ref(a, "admin"), &perm_ref(a, "p")).unwrap();
    assert!(s.get_user_role(a, u, &role_ref(a, "admin")).is_some());
}
