use vstd::prelude::*;

use crate::errors::RbacError;
use crate::state::{PrincipalId, RootAuthority};
use crate::store::RbacStore;

verus! {

impl RbacStore {
    /// Exact outcome of [`RbacStore::initialize_root`] on a given store.
    pub open spec fn initialize_root_check(self, authority: PrincipalId) -> Result<
        (),
        RbacError,
    > {
        if self.has_root(authority) {
            Err(RbacError::RootAlreadyExists)
        } else {
            Ok(())
        }
    }

    /// Bootstrap a root-authority registry for `authority`, with both
    /// counters zeroed.  Fails when this principal already bootstrapped one;
    /// on failure the store is unchanged.
    pub fn initialize_root(&mut self, authority: PrincipalId) -> (r: Result<(), RbacError>)
        requires
            old(self).wf(),
        ensures
            final(self).wf(),
            r == old(self).initialize_root_check(authority),
            r is Err ==> *final(self) == *old(self),
            r is Ok ==> {
                &&& final(self).roots@ == old(self).roots@.push(
                    RootAuthority {
                        root_id: authority,
                        authority,
                        role_count: 0,
                        permission_count: 0,
                    },
                )
                &&& final(self).roles@ == old(self).roles@
                &&& final(self).permissions@ == old(self).permissions@
                &&& final(self).grants@ == old(self).grants@
                &&& final(self).assignments@ == old(self).assignments@
                &&& final(self).has_root(authority)
                &&& final(self).root_of(authority) == (RootAuthority {
                    root_id: authority,
                    authority,
                    role_count: 0,
                    permission_count: 0,
                })
                &&& forall|id: PrincipalId|
                    final(self).has_root(id) <==> old(self).has_root(id) || id == authority
                &&& forall|id: PrincipalId|
                    id != authority && old(self).has_root(id) ==> final(self).root_of(id) == old(
                        self,
                    ).root_of(id)
            },
    {
        if self.find_root(authority).is_some() {
            return Err(RbacError::RootAlreadyExists);
        }
        let ghost pre = *self;
        let record = RootAuthority {
            root_id: authority,
            authority,
            role_count: 0,
            permission_count: 0,
        };
        self.roots.push(record);
        proof {
            self.lemma_roots_extended(pre, authority);
            assert(self.names_valid());
            assert(self.refs_resolve());
        }
        Ok(())
    }

    /// Exact outcome of [`RbacStore::transfer_authority`] on a given store.
    pub open spec fn transfer_authority_check(self, caller: PrincipalId, root: PrincipalId) -> Result<
        (),
        RbacError,
    > {
        if !(self.has_root(root) && caller == self.authority_of(root)) {
            Err(RbacError::NotRootAuthority)
        } else {
            Ok(())
        }
    }

    /// Hand control of root registry `root` to `new_authority`.  Only the
    /// current authority may do so; the transfer is immediate and total, and
    /// touches nothing but the `authority` field.
    pub fn transfer_authority(
        &mut self,
        caller: PrincipalId,
        root: PrincipalId,
        new_authority: PrincipalId,
    ) -> (r: Result<(), RbacError>)
        requires
            old(self).wf(),
        ensures
            final(self).wf(),
            r == old(self).transfer_authority_check(caller, root),
            r is Err ==> *final(self) == *old(self),
            r is Ok ==> {
                &&& final(self).has_root(root)
                &&& final(self).authority_of(root) == new_authority
                &&& final(self).role_count_of(root) == old(self).role_count_of(root)
                &&& final(self).permission_count_of(root) == old(self).permission_count_of(root)
                &&& final(self).root_of(root).root_id == old(self).root_of(root).root_id
                &&& forall|id: PrincipalId|
                    final(self).has_root(id) <==> old(self).has_root(id)
                &&& forall|id: PrincipalId|
                    id != root && old(self).has_root(id) ==> final(self).root_of(id) == old(
                        self,
                    ).root_of(id)
                &&& final(self).roles@ == old(self).roles@
                &&& final(self).permissions@ == old(self).permissions@
                &&& final(self).grants@ == old(self).grants@
                &&& final(self).assignments@ == old(self).assignments@
            },
    {
        let i = match self.find_root(root) {
            Some(i) => i,
            None => {
                return Err(RbacError::NotRootAuthority);
            },
        };
        proof {
            self.lemma_root_index_is(root, i as int);
        }
        if self.roots[i].authority != caller {
            return Err(RbacError::NotRootAuthority);
        }
        let ghost pre = *self;
        let updated = RootAuthority {
            root_id: self.roots[i].root_id,
            authority: new_authority,
            role_count: self.roots[i].role_count,
            permission_count: self.roots[i].permission_count,
        };
        self.roots[i] = updated;
        proof {
            self.lemma_root_updated(pre, i as int);
            self.lemma_root_index_is(root, i as int);
        }
        Ok(())
    }

    /// After a record for a fresh key is pushed onto the root table, the
    /// table's key set grows by exactly that key, every old record keeps its
    /// place, and well-formedness carries over.
    proof fn lemma_roots_extended(self, pre: RbacStore, added: PrincipalId)
        requires
            pre.wf(),
            !pre.has_root(added),
            self.roots@.len() == pre.roots@.len() + 1,
            forall|k: int| 0 <= k < pre.roots@.len() ==> self.roots@[k] == pre.roots@[k],
            self.roots@[pre.roots@.len() as int].root_id == added,
            self.roles@ == pre.roles@,
            self.permissions@ == pre.permissions@,
            self.grants@ == pre.grants@,
            self.assignments@ == pre.assignments@,
        ensures
            self.keys_unique(),
            forall|id: PrincipalId|
                self.has_root(id) <==> pre.has_root(id) || id == added,
            forall|id: PrincipalId|
                id != added && pre.has_root(id) ==> self.root_of(id) == pre.root_of(id),
            self.has_root(added),
            self.root_of(added) == self.roots@[pre.roots@.len() as int],
            forall|rt: PrincipalId, nm: Seq<u8>| self.has_role(rt, nm) <==> pre.has_role(rt, nm),
            forall|rt: PrincipalId, nm: Seq<u8>|
                self.has_permission(rt, nm) <==> pre.has_permission(rt, nm),
            self.names_valid(),
            self.refs_resolve(),
    {
        let n = pre.roots@.len() as int;
        assert forall|i: int, j: int| 0 <= i < j < self.roots@.len() implies (
        self.roots@[i]).root_id != (self.roots@[j]).root_id by {
            if j < n {
                assert(pre.roots@[i].root_id != pre.roots@[j].root_id);
            } else {
                assert(self.roots@[j].root_id == added);
                assert(pre.roots@[i].root_id != added) by {
                    if pre.roots@[i].root_id == added {
                        assert(pre.has_root(added));
                    }
                }
            }
        }
        assert forall|id: PrincipalId| self.has_root(id) implies pre.has_root(id) || id
            == added by {
            let i = choose|i: int|
                0 <= i < self.roots@.len() && (#[trigger] self.roots@[i]).root_id == id;
            if i < n {
                assert(pre.roots@[i].root_id == id);
            }
        }
        assert forall|id: PrincipalId| pre.has_root(id) || id == added implies self.has_root(
            id,
        ) by {
            if pre.has_root(id) {
                let i = choose|i: int|
                    0 <= i < pre.roots@.len() && (#[trigger] pre.roots@[i]).root_id == id;
                assert(self.roots@[i].root_id == id);
            } else {
                assert(self.roots@[n].root_id == id);
            }
        }
        assert forall|id: PrincipalId| id != added && pre.has_root(id) implies self.root_of(id)
            == pre.root_of(id) by {
            let i = pre.root_index(id);
            assert(pre.roots@[i].root_id == id);
            assert(self.roots@[i].root_id == id);
            self.lemma_root_index_is(id, i);
        }
        self.lemma_root_index_is(added, n);
        assert forall|rt: PrincipalId, nm: Seq<u8>| self.has_role(rt, nm) == pre.has_role(
            rt,
            nm,
        ) by {}
        assert(self.refs_resolve()) by {
            assert forall|i: int| 0 <= i < self.roles@.len() implies self.has_root(
                (#[trigger] self.roles@[i]).root,
            ) by {
                assert(pre.has_root(pre.roles@[i].root));
            }
            assert forall|i: int| 0 <= i < self.permissions@.len() implies self.has_root(
                (#[trigger] self.permissions@[i]).root,
            ) by {
                assert(pre.has_root(pre.permissions@[i].root));
            }
            assert forall|i: int| 0 <= i < self.assignments@.len() implies {
                let a = #[trigger] self.assignments@[i];
                self.has_role(a.role@.root, a.role@.name) && self.has_root(a.root) && a.role@.root
                    == a.root
            } by {
                assert(pre.has_root(pre.assignments@[i].root));
            }
        }
    }

    /// After the record at one index of the root table is replaced by one
    /// with the same key, the table's key set and every other record are
    /// unchanged, and well-formedness carries over.
    proof fn lemma_root_updated(self, pre: RbacStore, at: int)
        requires
            pre.wf(),
            0 <= at < pre.roots@.len(),
            self.roots@.len() == pre.roots@.len(),
            forall|k: int| 0 <= k < pre.roots@.len() && k != at ==> self.roots@[k] == pre.roots@[k],
            self.roots@[at].root_id == pre.roots@[at].root_id,
            self.roles@ == pre.roles@,
            self.permissions@ == pre.permissions@,
            self.grants@ == pre.grants@,
            self.assignments@ == pre.assignments@,
        ensures
            self.keys_unique(),
            forall|id: PrincipalId| self.has_root(id) <==> pre.has_root(id),
            forall|id: PrincipalId|
                id != pre.roots@[at].root_id && pre.has_root(id) ==> self.root_of(id)
                    == pre.root_of(id),
            self.names_valid(),
            self.refs_resolve(),
    {
        assert(forall|k: int|
            0 <= k < self.roots@.len() ==> (#[trigger] self.roots@[k]).root_id
                == pre.roots@[k].root_id);
        assert forall|id: PrincipalId| self.has_root(id) <==> pre.has_root(id) by {
            if self.has_root(id) {
                let i = choose|i: int|
                    0 <= i < self.roots@.len() && (#[trigger] self.roots@[i]).root_id == id;
                assert(pre.roots@[i].root_id == id);
            }
            if pre.has_root(id) {
                let i = choose|i: int|
                    0 <= i < pre.roots@.len() && (#[trigger] pre.roots@[i]).root_id == id;
                assert(self.roots@[i].root_id == id);
            }
        }
        assert forall|id: PrincipalId|
            id != pre.roots@[at].root_id && pre.has_root(id) implies self.root_of(id)
            == pre.root_of(id) by {
            let i = pre.root_index(id);
            assert(pre.roots@[i].root_id == id);
            assert(i != at);
            assert(self.roots@[i].root_id == id);
            self.lemma_root_index_is(id, i);
        }
        assert(self.refs_resolve()) by {
            assert forall|i: int| 0 <= i < self.roles@.len() implies self.has_root(
                (#[trigger] self.roles@[i]).root,
            ) by {
                assert(pre.has_root(pre.roles@[i].root));
            }
            assert forall|i: int| 0 <= i < self.permissions@.len() implies self.has_root(
                (#[trigger] self.permissions@[i]).root,
            ) by {
                assert(pre.has_root(pre.permissions@[i].root));
            }
            assert forall|i: int| 0 <= i < self.assignments@.len() implies {
                let a = #[trigger] self.assignments@[i];
                self.has_role(a.role@.root, a.role@.name) && self.has_root(a.root) && a.role@.root
                    == a.root
            } by {
                assert(pre.has_root(pre.assignments@[i].root));
            }
        }
    }
}

} // verus!
