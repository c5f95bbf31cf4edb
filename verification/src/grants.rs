use vstd::prelude::*;

use crate::errors::RbacError;
use crate::state::{PermissionRef, PermissionRefV, PrincipalId, RoleRef, RoleRefV, RolePermission};
use crate::store::{grant_matches, RbacStore};

verus! {

impl RbacStore {
    /// Exact outcome of [`RbacStore::assign_permission_to_role`] on a given
    /// store.
    pub open spec fn assign_permission_check(
        self,
        caller: PrincipalId,
        root: PrincipalId,
        role: RoleRefV,
        permission: PermissionRefV,
    ) -> Result<(), RbacError> {
        if !self.has_role(role.root, role.name) {
            Err(RbacError::RoleNotFound)
        } else if !self.has_permission(permission.root, permission.name) {
            Err(RbacError::PermissionNotFound)
        } else if role.root != root {
            Err(RbacError::RoleMismatch)
        } else if permission.root != root {
            Err(RbacError::PermissionMismatch)
        } else if !(self.has_root(root) && caller == self.authority_of(root)) {
            Err(RbacError::NotRootAuthority)
        } else if self.has_grant(role, permission) {
            Err(RbacError::RolePermissionAlreadyAssigned)
        } else {
            Ok(())
        }
    }

    /// Create the grant edge (role, permission) under root registry `root`.
    /// Both referenced records must exist and belong to `root`, and only the
    /// root's current authority may create the edge.  On failure the store
    /// is unchanged.
    pub fn assign_permission_to_role(
        &mut self,
        caller: PrincipalId,
        root: PrincipalId,
        role: RoleRef,
        permission: PermissionRef,
    ) -> (r: Result<(), RbacError>)
        requires
            old(self).wf(),
        ensures
            final(self).wf(),
            r == old(self).assign_permission_check(caller, root, role@, permission@),
            r is Err ==> *final(self) == *old(self),
            r is Ok ==> {
                &&& final(self).grants@ == old(self).grants@.push(
                    RolePermission { role, permission },
                )
                &&& final(self).has_grant(role@, permission@)
                &&& forall|rl: RoleRefV, pm: PermissionRefV|
                    final(self).has_grant(rl, pm) <==> old(self).has_grant(rl, pm) || (rl == role@
                        && pm == permission@)
                &&& final(self).roots@ == old(self).roots@
                &&& final(self).roles@ == old(self).roles@
                &&& final(self).permissions@ == old(self).permissions@
                &&& final(self).assignments@ == old(self).assignments@
            },
    {
        if self.find_role(role.root, &role.name).is_none() {
            return Err(RbacError::RoleNotFound);
        }
        if self.find_permission(permission.root, &permission.name).is_none() {
            return Err(RbacError::PermissionNotFound);
        }
        if role.root != root {
            return Err(RbacError::RoleMismatch);
        }
        if permission.root != root {
            return Err(RbacError::PermissionMismatch);
        }
        let i = match self.find_root(root) {
            Some(i) => i,
            None => {
                return Err(RbacError::NotRootAuthority);
            },
        };
        proof {
            self.lemma_root_index_is(root, i as int);
        }
        if self.roots[i].authority != caller {
            return Err(RbacError::NotRootAuthority);
        }
        if self.find_grant(&role, &permission).is_some() {
            return Err(RbacError::RolePermissionAlreadyAssigned);
        }
        let ghost pre = *self;
        self.grants.push(RolePermission { role, permission });
        proof {
            self.lemma_grant_created(pre);
        }
        Ok(())
    }

    /// Exact outcome of [`RbacStore::revoke_permission_from_role`] on a
    /// given store.
    pub open spec fn revoke_permission_check(
        self,
        caller: PrincipalId,
        root: PrincipalId,
        role: RoleRefV,
        permission: PermissionRefV,
    ) -> Result<(), RbacError> {
        if !self.has_role(role.root, role.name) {
            Err(RbacError::RoleNotFound)
        } else if !self.has_permission(permission.root, permission.name) {
            Err(RbacError::PermissionNotFound)
        } else if role.root != root {
            Err(RbacError::RoleMismatch)
        } else if permission.root != root {
            Err(RbacError::PermissionMismatch)
        } else if !(self.has_root(root) && caller == self.authority_of(root)) {
            Err(RbacError::NotRootAuthority)
        } else if !self.has_grant(role, permission) {
            Err(RbacError::PermissionNotFound)
        } else {
            Ok(())
        }
    }

    /// Remove the grant edge (role, permission), revoking the permission
    /// from the role.  The edge must exist, and only the root's current
    /// authority may revoke.  On failure the store is unchanged.
    pub fn revoke_permission_from_role(
        &mut self,
        caller: PrincipalId,
        root: PrincipalId,
        role: &RoleRef,
        permission: &PermissionRef,
    ) -> (r: Result<(), RbacError>)
        requires
            old(self).wf(),
        ensures
            final(self).wf(),
            r == old(self).revoke_permission_check(caller, root, role@, permission@),
            r is Err ==> *final(self) == *old(self),
            r is Ok ==> {
                &&& !final(self).has_grant(role@, permission@)
                &&& forall|rl: RoleRefV, pm: PermissionRefV|
                    final(self).has_grant(rl, pm) <==> old(self).has_grant(rl, pm) && !(rl == role@
                        && pm == permission@)
                &&& final(self).grants@.len() == old(self).grants@.len() - 1
                &&& final(self).roots@ == old(self).roots@
                &&& final(self).roles@ == old(self).roles@
                &&& final(self).permissions@ == old(self).permissions@
                &&& final(self).assignments@ == old(self).assignments@
            },
    {
        if self.find_role(role.root, &role.name).is_none() {
            return Err(RbacError::RoleNotFound);
        }
        if self.find_permission(permission.root, &permission.name).is_none() {
            return Err(RbacError::PermissionNotFound);
        }
        if role.root != root {
            return Err(RbacError::RoleMismatch);
        }
        if permission.root != root {
            return Err(RbacError::PermissionMismatch);
        }
        let i = match self.find_root(root) {
            Some(i) => i,
            None => {
                return Err(RbacError::NotRootAuthority);
            },
        };
        proof {
            self.lemma_root_index_is(root, i as int);
        }
        if self.roots[i].authority != caller {
            return Err(RbacError::NotRootAuthority);
        }
        let g = match self.find_grant(role, permission) {
            Some(g) => g,
            None => {
                return Err(RbacError::PermissionNotFound);
            },
        };
        let ghost pre = *self;
        self.grants.remove(g);
        proof {
            self.lemma_grant_removed(pre, g as int);
        }
        Ok(())
    }

    /// After a grant edge with a fresh key over resolvable, root-consistent
    /// references is pushed, the grant table's key set grows by exactly that
    /// key and well-formedness carries over.
    proof fn lemma_grant_created(self, pre: RbacStore)
        requires
            pre.wf(),
            self.grants@.len() == pre.grants@.len() + 1,
            forall|k: int| 0 <= k < pre.grants@.len() ==> self.grants@[k] == pre.grants@[k],
            !pre.has_grant(
                self.grants@[pre.grants@.len() as int]@.role,
                self.grants@[pre.grants@.len() as int]@.permission,
            ),
            pre.has_role(
                self.grants@[pre.grants@.len() as int]@.role.root,
                self.grants@[pre.grants@.len() as int]@.role.name,
            ),
            pre.has_permission(
                self.grants@[pre.grants@.len() as int]@.permission.root,
                self.grants@[pre.grants@.len() as int]@.permission.name,
            ),
            self.grants@[pre.grants@.len() as int]@.role.root == self.grants@[pre.grants@.len()
                as int]@.permission.root,
            self.roots@ == pre.roots@,
            self.roles@ == pre.roles@,
            self.permissions@ == pre.permissions@,
            self.assignments@ == pre.assignments@,
        ensures
            self.wf(),
            forall|rl: RoleRefV, pm: PermissionRefV|
                self.has_grant(rl, pm) <==> pre.has_grant(rl, pm) || (rl == self.grants@[
                    pre.grants@.len() as int
                ]@.role && pm == self.grants@[pre.grants@.len() as int]@.permission),
    {
        let n = pre.grants@.len() as int;
        let rl0 = self.grants@[n]@.role;
        let pm0 = self.grants@[n]@.permission;
        assert forall|rl: RoleRefV, pm: PermissionRefV|
            self.has_grant(rl, pm) <==> pre.has_grant(rl, pm) || (rl == rl0 && pm == pm0) by {
            if self.has_grant(rl, pm) {
                let i = choose|i: int|
                    0 <= i < self.grants@.len() && grant_matches(#[trigger] self.grants@[i], rl, pm);
                if i < n {
                    assert(grant_matches(pre.grants@[i], rl, pm));
                }
            }
            if pre.has_grant(rl, pm) {
                let i = choose|i: int|
                    0 <= i < pre.grants@.len() && grant_matches(#[trigger] pre.grants@[i], rl, pm);
                assert(grant_matches(self.grants@[i], rl, pm));
                assert(self.has_grant(rl, pm));
            }
            if rl == rl0 && pm == pm0 {
                assert(grant_matches(self.grants@[n], rl, pm));
                assert(self.has_grant(rl, pm));
            }
        }
        assert(self.keys_unique()) by {
            assert forall|i: int, j: int| 0 <= i < j < self.grants@.len() implies !((
            self.grants@[i])@.role == (self.grants@[j])@.role && self.grants@[i]@.permission
                == self.grants@[j]@.permission) by {
                if j < n {
                    assert(!(pre.grants@[i]@.role == pre.grants@[j]@.role
                        && pre.grants@[i]@.permission == pre.grants@[j]@.permission));
                } else {
                    if self.grants@[i]@.role == rl0 && self.grants@[i]@.permission == pm0 {
                        assert(grant_matches(pre.grants@[i], rl0, pm0));
                        assert(pre.has_grant(rl0, pm0));
                    }
                }
            }
        }
        assert(self.refs_resolve()) by {
            assert forall|i: int| 0 <= i < self.grants@.len() implies {
                let g = #[trigger] self.grants@[i];
                self.has_role(g.role@.root, g.role@.name) && self.has_permission(
                    g.permission@.root,
                    g.permission@.name,
                ) && g.role@.root == g.permission@.root
            } by {
                if i < n {
                    let g = pre.grants@[i];
                    assert(pre.has_role(g.role@.root, g.role@.name));
                    assert(pre.has_permission(g.permission@.root, g.permission@.name));
                }
            }
        }
    }

    /// After the grant edge at one index is removed, the grant table's key
    /// set shrinks by exactly that key and well-formedness carries over.
    proof fn lemma_grant_removed(self, pre: RbacStore, at: int)
        requires
            pre.wf(),
            0 <= at < pre.grants@.len(),
            self.grants@ == pre.grants@.remove(at),
            self.roots@ == pre.roots@,
            self.roles@ == pre.roles@,
            self.permissions@ == pre.permissions@,
            self.assignments@ == pre.assignments@,
        ensures
            self.wf(),
            forall|rl: RoleRefV, pm: PermissionRefV|
                self.has_grant(rl, pm) <==> pre.has_grant(rl, pm) && !(rl == pre.grants@[at]@.role
                    && pm == pre.grants@[at]@.permission),
    {
        let n = pre.grants@.len() as int;
        let rl0 = pre.grants@[at]@.role;
        let pm0 = pre.grants@[at]@.permission;
        assert(self.grants@.len() == n - 1);
        assert(forall|k: int| 0 <= k < at ==> self.grants@[k] == pre.grants@[k]);
        assert(forall|k: int| at <= k < n - 1 ==> self.grants@[k] == pre.grants@[k + 1]);
        assert forall|rl: RoleRefV, pm: PermissionRefV|
            self.has_grant(rl, pm) <==> pre.has_grant(rl, pm) && !(rl == rl0 && pm == pm0) by {
            if self.has_grant(rl, pm) {
                let i = choose|i: int|
                    0 <= i < self.grants@.len() && grant_matches(#[trigger] self.grants@[i], rl, pm);
                let m = if i < at {
                    i
                } else {
                    i + 1
                };
                assert(grant_matches(pre.grants@[m], rl, pm));
                assert(pre.has_grant(rl, pm));
                if rl == rl0 && pm == pm0 {
                    assert(m != at);
                    assert(!(pre.grants@[at]@.role == pre.grants@[m]@.role
                        && pre.grants@[at]@.permission == pre.grants@[m]@.permission));
                }
            }
            if pre.has_grant(rl, pm) && !(rl == rl0 && pm == pm0) {
                let i = choose|i: int|
                    0 <= i < pre.grants@.len() && grant_matches(#[trigger] pre.grants@[i], rl, pm);
                assert(i != at);
                if i < at {
                    assert(grant_matches(self.grants@[i], rl, pm));
                } else {
                    assert(grant_matches(self.grants@[i - 1], rl, pm));
                }
                assert(self.has_grant(rl, pm));
            }
        }
        assert(self.keys_unique()) by {
            assert forall|i: int, j: int| 0 <= i < j < self.grants@.len() implies !((
            self.grants@[i])@.role == (self.grants@[j])@.role && self.grants@[i]@.permission
                == self.grants@[j]@.permission) by {
                let mi = if i < at {
                    i
                } else {
                    i + 1
                };
                let mj = if j < at {
                    j
                } else {
                    j + 1
                };
                assert(self.grants@[i] == pre.grants@[mi]);
                assert(self.grants@[j] == pre.grants@[mj]);
                assert(!(pre.grants@[mi]@.role == pre.grants@[mj]@.role
                    && pre.grants@[mi]@.permission == pre.grants@[mj]@.permission));
            }
        }
        assert(self.refs_resolve()) by {
            assert forall|i: int| 0 <= i < self.grants@.len() implies {
                let g = #[trigger] self.grants@[i];
                self.has_role(g.role@.root, g.role@.name) && self.has_permission(
                    g.permission@.root,
                    g.permission@.name,
                ) && g.role@.root == g.permission@.root
            } by {
                let m = if i < at {
                    i
                } else {
                    i + 1
                };
                let g = pre.grants@[m];
                assert(self.grants@[i] == g);
                assert(pre.has_role(g.role@.root, g.role@.name));
                assert(pre.has_permission(g.permission@.root, g.permission@.name));
            }
        }
    }
}

} // verus!
