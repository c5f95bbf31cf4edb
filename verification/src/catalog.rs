use vstd::prelude::*;

use crate::errors::RbacError;
use crate::state::{valid_name, Permission, PrincipalId, Role, RootAuthority, MAX_NAME_LEN};
use crate::store::{permission_matches, role_matches, RbacStore};

verus! {

impl RbacStore {
    /// Exact outcome of [`RbacStore::create_role`] on a given store.
    pub open spec fn create_role_check(
        self,
        caller: PrincipalId,
        root: PrincipalId,
        name: Seq<u8>,
    ) -> Result<(), RbacError> {
        if !(self.has_root(root) && caller == self.authority_of(root)) {
            Err(RbacError::NotRootAuthority)
        } else if !valid_name(name) {
            Err(RbacError::InvalidName)
        } else if self.has_role(root, name) {
            Err(RbacError::RoleAlreadyExists)
        } else if self.role_count_of(root) == u64::MAX {
            Err(RbacError::ArithmeticError)
        } else {
            Ok(())
        }
    }

    /// Create the role (root, name) and count it on the root registry.
    /// Only the root's current authority may create; the name must be
    /// non-empty and within the byte bound; the key must be free; the
    /// counter update is overflow-checked.  On failure the store is
    /// unchanged.
    pub fn create_role(&mut self, caller: PrincipalId, root: PrincipalId, name: Vec<u8>) -> (r:
        Result<(), RbacError>)
        requires
            old(self).wf(),
        ensures
            final(self).wf(),
            r == old(self).create_role_check(caller, root, name@),
            r is Err ==> *final(self) == *old(self),
            r is Ok ==> {
                &&& final(self).roles@ == old(self).roles@.push(Role { root, name })
                &&& final(self).has_role(root, name@)
                &&& forall|rt: PrincipalId, nm: Seq<u8>|
                    final(self).has_role(rt, nm) <==> old(self).has_role(rt, nm) || (rt == root
                        && nm == name@)
                &&& final(self).role_count_of(root) == old(self).role_count_of(root) + 1
                &&& final(self).permission_count_of(root) == old(self).permission_count_of(root)
                &&& final(self).authority_of(root) == old(self).authority_of(root)
                &&& forall|id: PrincipalId|
                    final(self).has_root(id) <==> old(self).has_root(id)
                &&& forall|id: PrincipalId|
                    id != root && old(self).has_root(id) ==> final(self).root_of(id) == old(
                        self,
                    ).root_of(id)
                &&& final(self).permissions@ == old(self).permissions@
                &&& final(self).grants@ == old(self).grants@
                &&& final(self).assignments@ == old(self).assignments@
            },
    {
        let i = match self.find_root(root) {
            Some(i) => i,
            None => {
                return Err(RbacError::NotRootAuthority);
            },
        };
        proof {
            self.lemma_root_index_is(root, i as int);
        }
        if self.roots[i].authority != caller {
            return Err(RbacError::NotRootAuthority);
        }
        if name.len() == 0 || name.len() > MAX_NAME_LEN {
            return Err(RbacError::InvalidName);
        }
        if self.find_role(root, &name).is_some() {
            return Err(RbacError::RoleAlreadyExists);
        }
        if self.roots[i].role_count == u64::MAX {
            return Err(RbacError::ArithmeticError);
        }
        let ghost pre = *self;
        let updated = RootAuthority {
            root_id: self.roots[i].root_id,
            authority: self.roots[i].authority,
            role_count: self.roots[i].role_count + 1,
            permission_count: self.roots[i].permission_count,
        };
        self.roles.push(Role { root, name });
        self.roots[i] = updated;
        proof {
            self.lemma_role_created(pre, root, i as int);
            self.lemma_root_index_is(root, i as int);
        }
        Ok(())
    }

    /// Exact outcome of [`RbacStore::create_permission`] on a given store.
    pub open spec fn create_permission_check(
        self,
        caller: PrincipalId,
        root: PrincipalId,
        name: Seq<u8>,
    ) -> Result<(), RbacError> {
        if !(self.has_root(root) && caller == self.authority_of(root)) {
            Err(RbacError::NotRootAuthority)
        } else if !valid_name(name) {
            Err(RbacError::InvalidName)
        } else if self.has_permission(root, name) {
            Err(RbacError::PermissionAlreadyExists)
        } else if self.permission_count_of(root) == u64::MAX {
            Err(RbacError::ArithmeticError)
        } else {
            Ok(())
        }
    }

    /// Create the permission (root, name) and count it on the root registry.
    /// The same rules as for [`RbacStore::create_role`] apply.
    pub fn create_permission(
        &mut self,
        caller: PrincipalId,
        root: PrincipalId,
        name: Vec<u8>,
    ) -> (r: Result<(), RbacError>)
        requires
            old(self).wf(),
        ensures
            final(self).wf(),
            r == old(self).create_permission_check(caller, root, name@),
            r is Err ==> *final(self) == *old(self),
            r is Ok ==> {
                &&& final(self).permissions@ == old(self).permissions@.push(
                    Permission { root, name },
                )
                &&& final(self).has_permission(root, name@)
                &&& forall|rt: PrincipalId, nm: Seq<u8>|
                    final(self).has_permission(rt, nm) <==> old(self).has_permission(rt, nm) || (rt
                        == root && nm == name@)
                &&& final(self).permission_count_of(root) == old(self).permission_count_of(root)
                    + 1
                &&& final(self).role_count_of(root) == old(self).role_count_of(root)
                &&& final(self).authority_of(root) == old(self).authority_of(root)
                &&& forall|id: PrincipalId|
                    final(self).has_root(id) <==> old(self).has_root(id)
                &&& forall|id: PrincipalId|
                    id != root && old(self).has_root(id) ==> final(self).root_of(id) == old(
                        self,
                    ).root_of(id)
                &&& final(self).roles@ == old(self).roles@
                &&& final(self).grants@ == old(self).grants@
                &&& final(self).assignments@ == old(self).assignments@
            },
    {
        let i = match self.find_root(root) {
            Some(i) => i,
            None => {
                return Err(RbacError::NotRootAuthority);
            },
        };
        proof {
            self.lemma_root_index_is(root, i as int);
        }
        if self.roots[i].authority != caller {
            return Err(RbacError::NotRootAuthority);
        }
        if name.len() == 0 || name.len() > MAX_NAME_LEN {
            return Err(RbacError::InvalidName);
        }
        if self.find_permission(root, &name).is_some() {
            return Err(RbacError::PermissionAlreadyExists);
        }
        if self.roots[i].permission_count == u64::MAX {
            return Err(RbacError::ArithmeticError);
        }
        let ghost pre = *self;
        let updated = RootAuthority {
            root_id: self.roots[i].root_id,
            authority: self.roots[i].authority,
            role_count: self.roots[i].role_count,
            permission_count: self.roots[i].permission_count + 1,
        };
        self.permissions.push(Permission { root, name });
        self.roots[i] = updated;
        proof {
            self.lemma_permission_created(pre, root, i as int);
            self.lemma_root_index_is(root, i as int);
        }
        Ok(())
    }

    /// After a role with a fresh, valid key under an existing root is pushed
    /// and that root's record is replaced by one with the same key, the role
    /// table's key set grows by exactly the new key, the root table's key
    /// set is unchanged, and well-formedness carries over.
    proof fn lemma_role_created(self, pre: RbacStore, root: PrincipalId, at: int)
        requires
            pre.wf(),
            0 <= at < pre.roots@.len(),
            pre.roots@[at].root_id == root,
            self.roots@.len() == pre.roots@.len(),
            forall|k: int| 0 <= k < pre.roots@.len() && k != at ==> self.roots@[k] == pre.roots@[k],
            self.roots@[at].root_id == root,
            self.roles@.len() == pre.roles@.len() + 1,
            forall|k: int| 0 <= k < pre.roles@.len() ==> self.roles@[k] == pre.roles@[k],
            self.roles@[pre.roles@.len() as int].root == root,
            valid_name(self.roles@[pre.roles@.len() as int].name@),
            !pre.has_role(root, self.roles@[pre.roles@.len() as int].name@),
            self.permissions@ == pre.permissions@,
            self.grants@ == pre.grants@,
            self.assignments@ == pre.assignments@,
        ensures
            self.wf(),
            forall|id: PrincipalId| self.has_root(id) <==> pre.has_root(id),
            forall|id: PrincipalId|
                id != root && pre.has_root(id) ==> self.root_of(id) == pre.root_of(id),
            forall|rt: PrincipalId, nm: Seq<u8>|
                self.has_role(rt, nm) <==> pre.has_role(rt, nm) || (rt == root && nm
                    == self.roles@[pre.roles@.len() as int].name@),
    {
        let n = pre.roles@.len() as int;
        let nm0 = self.roles@[n].name@;
        assert(forall|k: int|
            0 <= k < self.roots@.len() ==> (#[trigger] self.roots@[k]).root_id
                == pre.roots@[k].root_id);
        assert forall|id: PrincipalId| self.has_root(id) <==> pre.has_root(id) by {
            if self.has_root(id) {
                let i = choose|i: int|
                    0 <= i < self.roots@.len() && (#[trigger] self.roots@[i]).root_id == id;
                assert(pre.roots@[i].root_id == id);
            }
            if pre.has_root(id) {
                let i = choose|i: int|
                    0 <= i < pre.roots@.len() && (#[trigger] pre.roots@[i]).root_id == id;
                assert(self.roots@[i].root_id == id);
            }
        }
        assert forall|id: PrincipalId|
            id != root && pre.has_root(id) implies self.root_of(id) == pre.root_of(id) by {
            let i = pre.root_index(id);
            assert(pre.roots@[i].root_id == id);
            assert(i != at);
            assert(self.roots@[i].root_id == id);
            self.lemma_root_index_is(id, i);
        }
        assert forall|rt: PrincipalId, nm: Seq<u8>|
            self.has_role(rt, nm) <==> pre.has_role(rt, nm) || (rt == root && nm == nm0) by {
            if self.has_role(rt, nm) {
                let i = choose|i: int|
                    0 <= i < self.roles@.len() && role_matches(#[trigger] self.roles@[i], rt, nm);
                if i < n {
                    assert(role_matches(pre.roles@[i], rt, nm));
                }
            }
            if pre.has_role(rt, nm) {
                let i = choose|i: int|
                    0 <= i < pre.roles@.len() && role_matches(#[trigger] pre.roles@[i], rt, nm);
                assert(role_matches(self.roles@[i], rt, nm));
                assert(self.has_role(rt, nm));
            }
            if rt == root && nm == nm0 {
                assert(role_matches(self.roles@[n], rt, nm));
                assert(self.has_role(rt, nm));
            }
        }
        assert forall|rt: PrincipalId, nm: Seq<u8>|
            self.has_permission(rt, nm) == pre.has_permission(rt, nm) by {}
        assert(self.keys_unique()) by {
            assert forall|i: int, j: int| 0 <= i < j < self.roles@.len() implies !((
            self.roles@[i]).root == (self.roles@[j]).root && self.roles@[i].name@
                == self.roles@[j].name@) by {
                if j < n {
                    assert(!(pre.roles@[i].root == pre.roles@[j].root && pre.roles@[i].name@
                        == pre.roles@[j].name@));
                } else {
                    if self.roles@[i].root == root && self.roles@[i].name@ == nm0 {
                        assert(role_matches(pre.roles@[i], root, nm0));
                        assert(pre.has_role(root, nm0));
                    }
                }
            }
        }
        assert(self.names_valid()) by {
            assert forall|i: int| 0 <= i < self.roles@.len() implies valid_name(
                (#[trigger] self.roles@[i]).name@,
            ) by {
                if i < n {
                    assert(valid_name(pre.roles@[i].name@));
                }
            }
        }
        assert(self.refs_resolve()) by {
            assert forall|i: int| 0 <= i < self.roles@.len() implies self.has_root(
                (#[trigger] self.roles@[i]).root,
            ) by {
                if i < n {
                    assert(pre.has_root(pre.roles@[i].root));
                } else {
                    assert(pre.has_root(root));
                }
            }
            assert forall|i: int| 0 <= i < self.permissions@.len() implies self.has_root(
                (#[trigger] self.permissions@[i]).root,
            ) by {
                assert(pre.has_root(pre.permissions@[i].root));
            }
            assert forall|i: int| 0 <= i < self.grants@.len() implies {
                let g = #[trigger] self.grants@[i];
                self.has_role(g.role@.root, g.role@.name) && self.has_permission(
                    g.permission@.root,
                    g.permission@.name,
                ) && g.role@.root == g.permission@.root
            } by {
                let g = pre.grants@[i];
                assert(pre.has_role(g.role@.root, g.role@.name));
                assert(pre.has_permission(g.permission@.root, g.permission@.name));
            }
            assert forall|i: int| 0 <= i < self.assignments@.len() implies {
                let a = #[trigger] self.assignments@[i];
                self.has_role(a.role@.root, a.role@.name) && self.has_root(a.root) && a.role@.root
                    == a.root
            } by {
                let a = pre.assignments@[i];
                assert(pre.has_role(a.role@.root, a.role@.name));
                assert(pre.has_root(a.root));
            }
        }
    }

    /// The mirror of `lemma_role_created` for the permission table.
    proof fn lemma_permission_created(self, pre: RbacStore, root: PrincipalId, at: int)
        requires
            pre.wf(),
            0 <= at < pre.roots@.len(),
            pre.roots@[at].root_id == root,
            self.roots@.len() == pre.roots@.len(),
            forall|k: int| 0 <= k < pre.roots@.len() && k != at ==> self.roots@[k] == pre.roots@[k],
            self.roots@[at].root_id == root,
            self.permissions@.len() == pre.permissions@.len() + 1,
            forall|k: int|
                0 <= k < pre.permissions@.len() ==> self.permissions@[k] == pre.permissions@[k],
            self.permissions@[pre.permissions@.len() as int].root == root,
            valid_name(self.permissions@[pre.permissions@.len() as int].name@),
            !pre.has_permission(root, self.permissions@[pre.permissions@.len() as int].name@),
            self.roles@ == pre.roles@,
            self.grants@ == pre.grants@,
            self.assignments@ == pre.assignments@,
        ensures
            self.wf(),
            forall|id: PrincipalId| self.has_root(id) <==> pre.has_root(id),
            forall|id: PrincipalId|
                id != root && pre.has_root(id) ==> self.root_of(id) == pre.root_of(id),
            forall|rt: PrincipalId, nm: Seq<u8>|
                self.has_permission(rt, nm) <==> pre.has_permission(rt, nm) || (rt == root && nm
                    == self.permissions@[pre.permissions@.len() as int].name@),
    {
        let n = pre.permissions@.len() as int;
        let nm0 = self.permissions@[n].name@;
        assert(forall|k: int|
            0 <= k < self.roots@.len() ==> (#[trigger] self.roots@[k]).root_id
                == pre.roots@[k].root_id);
        assert forall|id: PrincipalId| self.has_root(id) <==> pre.has_root(id) by {
            if self.has_root(id) {
                let i = choose|i: int|
                    0 <= i < self.roots@.len() && (#[trigger] self.roots@[i]).root_id == id;
                assert(pre.roots@[i].root_id == id);
            }
            if pre.has_root(id) {
                let i = choose|i: int|
                    0 <= i < pre.roots@.len() && (#[trigger] pre.roots@[i]).root_id == id;
                assert(self.roots@[i].root_id == id);
            }
        }
        assert forall|id: PrincipalId|
            id != root && pre.has_root(id) implies self.root_of(id) == pre.root_of(id) by {
            let i = pre.root_index(id);
            assert(pre.roots@[i].root_id == id);
            assert(i != at);
            assert(self.roots@[i].root_id == id);
            self.lemma_root_index_is(id, i);
        }
        assert forall|rt: PrincipalId, nm: Seq<u8>|
            self.has_permission(rt, nm) <==> pre.has_permission(rt, nm) || (rt == root && nm
                == nm0) by {
            if self.has_permission(rt, nm) {
                let i = choose|i: int|
                    0 <= i < self.permissions@.len() && permission_matches(
                        #[trigger] self.permissions@[i],
                        rt,
                        nm,
                    );
                if i < n {
                    assert(permission_matches(pre.permissions@[i], rt, nm));
                }
            }
            if pre.has_permission(rt, nm) {
                let i = choose|i: int|
                    0 <= i < pre.permissions@.len() && permission_matches(
                        #[trigger] pre.permissions@[i],
                        rt,
                        nm,
                    );
                assert(permission_matches(self.permissions@[i], rt, nm));
                assert(self.has_permission(rt, nm));
            }
            if rt == root && nm == nm0 {
                assert(permission_matches(self.permissions@[n], rt, nm));
                assert(self.has_permission(rt, nm));
            }
        }
        assert forall|rt: PrincipalId, nm: Seq<u8>|
            self.has_role(rt, nm) == pre.has_role(rt, nm) by {}
        assert(self.keys_unique()) by {
            assert forall|i: int, j: int| 0 <= i < j < self.permissions@.len() implies !((
            self.permissions@[i]).root == (self.permissions@[j]).root && self.permissions@[i].name@
                == self.permissions@[j].name@) by {
                if j < n {
                    assert(!(pre.permissions@[i].root == pre.permissions@[j].root
                        && pre.permissions@[i].name@ == pre.permissions@[j].name@));
                } else {
                    if self.permissions@[i].root == root && self.permissions@[i].name@ == nm0 {
                        assert(permission_matches(pre.permissions@[i], root, nm0));
                        assert(pre.has_permission(root, nm0));
                    }
                }
            }
        }
        assert(self.names_valid()) by {
            assert forall|i: int| 0 <= i < self.permissions@.len() implies valid_name(
                (#[trigger] self.permissions@[i]).name@,
            ) by {
                if i < n {
                    assert(valid_name(pre.permissions@[i].name@));
                }
            }
        }
        assert(self.refs_resolve()) by {
            assert forall|i: int| 0 <= i < self.roles@.len() implies self.has_root(
                (#[trigger] self.roles@[i]).root,
            ) by {
                assert(pre.has_root(pre.roles@[i].root));
            }
            assert forall|i: int| 0 <= i < self.permissions@.len() implies self.has_root(
                (#[trigger] self.permissions@[i]).root,
            ) by {
                if i < n {
                    assert(pre.has_root(pre.permissions@[i].root));
                } else {
                    assert(pre.has_root(root));
                }
            }
            assert forall|i: int| 0 <= i < self.grants@.len() implies {
                let g = #[trigger] self.grants@[i];
                self.has_role(g.role@.root, g.role@.name) && self.has_permission(
                    g.permission@.root,
                    g.permission@.name,
                ) && g.role@.root == g.permission@.root
            } by {
                let g = pre.grants@[i];
                assert(pre.has_role(g.role@.root, g.role@.name));
                assert(pre.has_permission(g.permission@.root, g.permission@.name));
            }
            assert forall|i: int| 0 <= i < self.assignments@.len() implies {
                let a = #[trigger] self.assignments@[i];
                self.has_role(a.role@.root, a.role@.name) && self.has_root(a.root) && a.role@.root
                    == a.root
            } by {
                let a = pre.assignments@[i];
                assert(pre.has_role(a.role@.root, a.role@.name));
                assert(pre.has_root(a.root));
            }
        }
    }
}

} // verus!
