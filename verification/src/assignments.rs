use vstd::prelude::*;

use crate::errors::RbacError;
use crate::state::{PrincipalId, RoleRef, RoleRefV, UserRole};
use crate::store::{assignment_matches, RbacStore};

verus! {

impl RbacStore {
    /// Exact outcome of [`RbacStore::assign_role_to_user`] on a given store.
    pub open spec fn assign_role_check(
        self,
        caller: PrincipalId,
        root: PrincipalId,
        user: PrincipalId,
        role: RoleRefV,
    ) -> Result<(), RbacError> {
        if !self.has_role(role.root, role.name) {
            Err(RbacError::RoleNotFound)
        } else if role.root != root {
            Err(RbacError::RoleMismatch)
        } else if !(self.has_root(root) && caller == self.authority_of(root)) {
            Err(RbacError::NotRootAuthority)
        } else if self.has_assignment(root, user, role) {
            Err(RbacError::UserRoleAlreadyAssigned)
        } else {
            Ok(())
        }
    }

    /// Create the assignment edge (root, user, role), recording who granted
    /// it and the expiry verbatim — an already-past `expires_at` is accepted,
    /// not an error.  The role must exist and belong to `root`, and only the
    /// root's current authority may assign.  On failure the store is
    /// unchanged.
    pub fn assign_role_to_user(
        &mut self,
        caller: PrincipalId,
        root: PrincipalId,
        user: PrincipalId,
        role: RoleRef,
        expires_at: i64,
    ) -> (r: Result<(), RbacError>)
        requires
            old(self).wf(),
        ensures
            final(self).wf(),
            r == old(self).assign_role_check(caller, root, user, role@),
            r is Err ==> *final(self) == *old(self),
            r is Ok ==> {
                &&& final(self).assignments@ == old(self).assignments@.push(
                    UserRole { user, role, root, granted_by: caller, expires_at },
                )
                &&& final(self).has_assignment(root, user, role@)
                &&& final(self).assignment_of(root, user, role@)@.expires_at == expires_at
                &&& final(self).assignment_of(root, user, role@)@.granted_by == caller
                &&& final(self).assignment_of(root, user, role@)@.user == user
                &&& final(self).assignment_of(root, user, role@)@.role == role@
                &&& final(self).assignment_of(root, user, role@)@.root == root
                &&& forall|rt: PrincipalId, us: PrincipalId, rl: RoleRefV|
                    final(self).has_assignment(rt, us, rl) <==> old(self).has_assignment(rt, us, rl)
                        || (rt == root && us == user && rl == role@)
                &&& final(self).roots@ == old(self).roots@
                &&& final(self).roles@ == old(self).roles@
                &&& final(self).permissions@ == old(self).permissions@
                &&& final(self).grants@ == old(self).grants@
            },
    {
        if self.find_role(role.root, &role.name).is_none() {
            return Err(RbacError::RoleNotFound);
        }
        if role.root != root {
            return Err(RbacError::RoleMismatch);
        }
        let i = match self.find_root(root) {
            Some(i) => i,
            None => {
                return Err(RbacError::NotRootAuthority);
            },
        };
        proof {
            self.lemma_root_index_is(root, i as int);
        }
        if self.roots[i].authority != caller {
            return Err(RbacError::NotRootAuthority);
        }
        if self.find_assignment(root, user, &role).is_some() {
            return Err(RbacError::UserRoleAlreadyAssigned);
        }
        let ghost pre = *self;
        self.assignments.push(UserRole { user, role, root, granted_by: caller, expires_at });
        proof {
            self.lemma_assignment_created(pre);
            self.lemma_assignment_index_is(root, user, self.assignments@.last().role@, pre.assignments@.len() as int);
        }
        Ok(())
    }

    /// Exact outcome of [`RbacStore::revoke_role_from_user`] on a given
    /// store.
    pub open spec fn revoke_role_check(
        self,
        caller: PrincipalId,
        root: PrincipalId,
        user: PrincipalId,
        role: RoleRefV,
    ) -> Result<(), RbacError> {
        if !self.has_role(role.root, role.name) {
            Err(RbacError::RoleNotFound)
        } else if role.root != root {
            Err(RbacError::RoleMismatch)
        } else if !(self.has_root(root) && caller == self.authority_of(root)) {
            Err(RbacError::NotRootAuthority)
        } else if !self.has_assignment(root, user, role) {
            Err(RbacError::RoleNotFound)
        } else {
            Ok(())
        }
    }

    /// Remove the assignment edge (root, user, role), revoking the role
    /// from the user.  The edge must exist, and only the root's current
    /// authority may revoke.  On failure the store is unchanged.
    pub fn revoke_role_from_user(
        &mut self,
        caller: PrincipalId,
        root: PrincipalId,
        user: PrincipalId,
        role: &RoleRef,
    ) -> (r: Result<(), RbacError>)
        requires
            old(self).wf(),
        ensures
            final(self).wf(),
            r == old(self).revoke_role_check(caller, root, user, role@),
            r is Err ==> *final(self) == *old(self),
            r is Ok ==> {
                &&& !final(self).has_assignment(root, user, role@)
                &&& forall|rt: PrincipalId, us: PrincipalId, rl: RoleRefV|
                    final(self).has_assignment(rt, us, rl) <==> old(self).has_assignment(rt, us, rl)
                        && !(rt == root && us == user && rl == role@)
                &&& final(self).assignments@.len() == old(self).assignments@.len() - 1
                &&& final(self).roots@ == old(self).roots@
                &&& final(self).roles@ == old(self).roles@
                &&& final(self).permissions@ == old(self).permissions@
                &&& final(self).grants@ == old(self).grants@
            },
    {
        if self.find_role(role.root, &role.name).is_none() {
            return Err(RbacError::RoleNotFound);
        }
        if role.root != root {
            return Err(RbacError::RoleMismatch);
        }
        let i = match self.find_root(root) {
            Some(i) => i,
            None => {
                return Err(RbacError::NotRootAuthority);
            },
        };
        proof {
            self.lemma_root_index_is(root, i as int);
        }
        if self.roots[i].authority != caller {
            return Err(RbacError::NotRootAuthority);
        }
        let a = match self.find_assignment(root, user, role) {
            Some(a) => a,
            None => {
                return Err(RbacError::RoleNotFound);
            },
        };
        let ghost pre = *self;
        self.assignments.remove(a);
        proof {
            self.lemma_assignment_removed(pre, a as int);
        }
        Ok(())
    }

    /// After an assignment edge with a fresh key over a resolvable,
    /// root-consistent role is pushed, the assignment table's key set grows
    /// by exactly that key and well-formedness carries over.
    proof fn lemma_assignment_created(self, pre: RbacStore)
        requires
            pre.wf(),
            self.assignments@.len() == pre.assignments@.len() + 1,
            forall|k: int|
                0 <= k < pre.assignments@.len() ==> self.assignments@[k] == pre.assignments@[k],
            !pre.has_assignment(
                self.assignments@[pre.assignments@.len() as int].root,
                self.assignments@[pre.assignments@.len() as int].user,
                self.assignments@[pre.assignments@.len() as int].role@,
            ),
            pre.has_role(
                self.assignments@[pre.assignments@.len() as int].role@.root,
                self.assignments@[pre.assignments@.len() as int].role@.name,
            ),
            pre.has_root(self.assignments@[pre.assignments@.len() as int].root),
            self.assignments@[pre.assignments@.len() as int].role@.root == self.assignments@[
                pre.assignments@.len() as int
            ].root,
            self.roots@ == pre.roots@,
            self.roles@ == pre.roles@,
            self.permissions@ == pre.permissions@,
            self.grants@ == pre.grants@,
        ensures
            self.wf(),
            forall|rt: PrincipalId, us: PrincipalId, rl: RoleRefV|
                self.has_assignment(rt, us, rl) <==> pre.has_assignment(rt, us, rl) || (rt
                    == self.assignments@[pre.assignments@.len() as int].root && us
                    == self.assignments@[pre.assignments@.len() as int].user && rl
                    == self.assignments@[pre.assignments@.len() as int].role@),
    {
        let n = pre.assignments@.len() as int;
        let added = self.assignments@[n];
        assert forall|rt: PrincipalId, us: PrincipalId, rl: RoleRefV|
            self.has_assignment(rt, us, rl) <==> pre.has_assignment(rt, us, rl) || (rt == added.root
                && us == added.user && rl == added.role@) by {
            if self.has_assignment(rt, us, rl) {
                let i = choose|i: int|
                    0 <= i < self.assignments@.len() && assignment_matches(
                        #[trigger] self.assignments@[i],
                        rt,
                        us,
                        rl,
                    );
                if i < n {
                    assert(assignment_matches(pre.assignments@[i], rt, us, rl));
                }
            }
            if pre.has_assignment(rt, us, rl) {
                let i = choose|i: int|
                    0 <= i < pre.assignments@.len() && assignment_matches(
                        #[trigger] pre.assignments@[i],
                        rt,
                        us,
                        rl,
                    );
                assert(assignment_matches(self.assignments@[i], rt, us, rl));
                assert(self.has_assignment(rt, us, rl));
            }
            if rt == added.root && us == added.user && rl == added.role@ {
                assert(assignment_matches(self.assignments@[n], rt, us, rl));
                assert(self.has_assignment(rt, us, rl));
            }
        }
        assert(self.keys_unique()) by {
            assert forall|i: int, j: int| 0 <= i < j < self.assignments@.len() implies !((
            self.assignments@[i]).root == (self.assignments@[j]).root && self.assignments@[i].user
                == self.assignments@[j].user && self.assignments@[i].role@
                == self.assignments@[j].role@) by {
                if j < n {
                    assert(!(pre.assignments@[i].root == pre.assignments@[j].root
                        && pre.assignments@[i].user == pre.assignments@[j].user
                        && pre.assignments@[i].role@ == pre.assignments@[j].role@));
                } else {
                    if self.assignments@[i].root == added.root && self.assignments@[i].user
                        == added.user && self.assignments@[i].role@ == added.role@ {
                        assert(assignment_matches(pre.assignments@[i], added.root, added.user, added.role@));
                        assert(pre.has_assignment(added.root, added.user, added.role@));
                    }
                }
            }
        }
        assert(self.refs_resolve()) by {
            assert forall|i: int| 0 <= i < self.assignments@.len() implies {
                let a = #[trigger] self.assignments@[i];
                self.has_role(a.role@.root, a.role@.name) && self.has_root(a.root) && a.role@.root
                    == a.root
            } by {
                if i < n {
                    let a = pre.assignments@[i];
                    assert(pre.has_role(a.role@.root, a.role@.name));
                    assert(pre.has_root(a.root));
                }
            }
        }
    }

    /// After the assignment edge at one index is removed, the assignment
    /// table's key set shrinks by exactly that key and well-formedness
    /// carries over.
    proof fn lemma_assignment_removed(self, pre: RbacStore, at: int)
        requires
            pre.wf(),
            0 <= at < pre.assignments@.len(),
            self.assignments@ == pre.assignments@.remove(at),
            self.roots@ == pre.roots@,
            self.roles@ == pre.roles@,
            self.permissions@ == pre.permissions@,
            self.grants@ == pre.grants@,
        ensures
            self.wf(),
            forall|rt: PrincipalId, us: PrincipalId, rl: RoleRefV|
                self.has_assignment(rt, us, rl) <==> pre.has_assignment(rt, us, rl) && !(rt
                    == pre.assignments@[at].root && us == pre.assignments@[at].user && rl
                    == pre.assignments@[at].role@),
    {
        let n = pre.assignments@.len() as int;
        let rm = pre.assignments@[at];
        assert(self.assignments@.len() == n - 1);
        assert(forall|k: int| 0 <= k < at ==> self.assignments@[k] == pre.assignments@[k]);
        assert(forall|k: int| at <= k < n - 1 ==> self.assignments@[k] == pre.assignments@[k + 1]);
        assert forall|rt: PrincipalId, us: PrincipalId, rl: RoleRefV|
            self.has_assignment(rt, us, rl) <==> pre.has_assignment(rt, us, rl) && !(rt == rm.root
                && us == rm.user && rl == rm.role@) by {
            if self.has_assignment(rt, us, rl) {
                let i = choose|i: int|
                    0 <= i < self.assignments@.len() && assignment_matches(
                        #[trigger] self.assignments@[i],
                        rt,
                        us,
                        rl,
                    );
                let m = if i < at {
                    i
                } else {
                    i + 1
                };
                assert(assignment_matches(pre.assignments@[m], rt, us, rl));
                assert(pre.has_assignment(rt, us, rl));
                if rt == rm.root && us == rm.user && rl == rm.role@ {
                    assert(m != at);
                    assert(!(pre.assignments@[at].root == pre.assignments@[m].root
                        && pre.assignments@[at].user == pre.assignments@[m].user
                        && pre.assignments@[at].role@ == pre.assignments@[m].role@));
                }
            }
            if pre.has_assignment(rt, us, rl) && !(rt == rm.root && us == rm.user && rl
                == rm.role@) {
                let i = choose|i: int|
                    0 <= i < pre.assignments@.len() && assignment_matches(
                        #[trigger] pre.assignments@[i],
                        rt,
                        us,
                        rl,
                    );
                assert(i != at);
                if i < at {
                    assert(assignment_matches(self.assignments@[i], rt, us, rl));
                } else {
                    assert(assignment_matches(self.assignments@[i - 1], rt, us, rl));
                }
                assert(self.has_assignment(rt, us, rl));
            }
        }
        assert(self.keys_unique()) by {
            assert forall|i: int, j: int| 0 <= i < j < self.assignments@.len() implies !((
            self.assignments@[i]).root == (self.assignments@[j]).root && self.assignments@[i].user
                == self.assignments@[j].user && self.assignments@[i].role@
                == self.assignments@[j].role@) by {
                let mi = if i < at {
                    i
                } else {
                    i + 1
                };
                let mj = if j < at {
                    j
                } else {
                    j + 1
                };
                assert(self.assignments@[i] == pre.assignments@[mi]);
                assert(self.assignments@[j] == pre.assignments@[mj]);
                assert(!(pre.assignments@[mi].root == pre.assignments@[mj].root
                    && pre.assignments@[mi].user == pre.assignments@[mj].user
                    && pre.assignments@[mi].role@ == pre.assignments@[mj].role@));
            }
        }
        assert(self.refs_resolve()) by {
            assert forall|i: int| 0 <= i < self.assignments@.len() implies {
                let a = #[trigger] self.assignments@[i];
                self.has_role(a.role@.root, a.role@.name) && self.has_root(a.root) && a.role@.root
                    == a.root
            } by {
                let m = if i < at {
                    i
                } else {
                    i + 1
                };
                let a = pre.assignments@[m];
                assert(self.assignments@[i] == a);
                assert(pre.has_role(a.role@.root, a.role@.name));
                assert(pre.has_root(a.root));
            }
        }
    }
}

} // verus!
