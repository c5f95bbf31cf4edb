use vstd::prelude::*;

use crate::state::{
    bytes_eq, permission_ref_eq, role_ref_eq, valid_name, Permission, PermissionRef,
    PermissionRefV, PrincipalId, Role, RoleRef, RoleRefV, RolePermission, RootAuthority, UserRole,
};

verus! {

/// The addressed record store: one uniqueness-enforcing keyed table per
/// record kind.  A record's key is the tuple of the fields named below;
/// creation is a check-and-insert that fails when the key is occupied, and
/// revocation removes the record outright.
///
/// Keys: a root authority by `root_id`; a role or permission by
/// `(root, name)`; a grant edge by `(role, permission)`; an assignment edge
/// by `(root, user, role)`.
pub struct RbacStore {
    pub roots: Vec<RootAuthority>,
    pub roles: Vec<Role>,
    pub permissions: Vec<Permission>,
    pub grants: Vec<RolePermission>,
    pub assignments: Vec<UserRole>,
}

/// Whether a role record carries the key (root, name).
pub open spec fn role_matches(r: Role, root: PrincipalId, name: Seq<u8>) -> bool {
    r.root == root && r.name@ == name
}

/// Whether a permission record carries the key (root, name).
pub open spec fn permission_matches(p: Permission, root: PrincipalId, name: Seq<u8>) -> bool {
    p.root == root && p.name@ == name
}

/// Whether a grant edge carries the key (role, permission).
pub open spec fn grant_matches(g: RolePermission, role: RoleRefV, permission: PermissionRefV) -> bool {
    g.role@ == role && g.permission@ == permission
}

/// Whether an assignment edge carries the key (root, user, role).
pub open spec fn assignment_matches(
    a: UserRole,
    root: PrincipalId,
    user: PrincipalId,
    role: RoleRefV,
) -> bool {
    a.root == root && a.user == user && a.role@ == role
}

impl RbacStore {
    /// A root-authority record with key `id` exists.
    pub open spec fn has_root(self, id: PrincipalId) -> bool {
        exists|i: int| 0 <= i < self.roots@.len() && (#[trigger] self.roots@[i]).root_id == id
    }

    /// Index of the root-authority record with key `id`; meaningful only
    /// under `wf` and `has_root`.
    pub open spec fn root_index(self, id: PrincipalId) -> int {
        choose|i: int| 0 <= i < self.roots@.len() && (#[trigger] self.roots@[i]).root_id == id
    }

    /// The root-authority record with key `id`.
    pub open spec fn root_of(self, id: PrincipalId) -> RootAuthority {
        self.roots@[self.root_index(id)]
    }

    /// The principal currently in control of root registry `id`.
    pub open spec fn authority_of(self, id: PrincipalId) -> PrincipalId {
        self.root_of(id).authority
    }

    /// How many roles were ever created under root registry `id`.
    pub open spec fn role_count_of(self, id: PrincipalId) -> u64 {
        self.root_of(id).role_count
    }

    /// How many permissions were ever created under root registry `id`.
    pub open spec fn permission_count_of(self, id: PrincipalId) -> u64 {
        self.root_of(id).permission_count
    }

    /// A role record with key (root, name) exists.
    pub open spec fn has_role(self, root: PrincipalId, name: Seq<u8>) -> bool {
        exists|i: int|
            0 <= i < self.roles@.len() && role_matches(#[trigger] self.roles@[i], root, name)
    }

    /// A permission record with key (root, name) exists.
    pub open spec fn has_permission(self, root: PrincipalId, name: Seq<u8>) -> bool {
        exists|i: int|
            0 <= i < self.permissions@.len() && permission_matches(
                #[trigger] self.permissions@[i],
                root,
                name,
            )
    }

    /// A grant edge with key (role, permission) exists.
    pub open spec fn has_grant(self, role: RoleRefV, permission: PermissionRefV) -> bool {
        exists|i: int|
            0 <= i < self.grants@.len() && grant_matches(#[trigger] self.grants@[i], role, permission)
    }

    /// An assignment edge with key (root, user, role) exists.
    pub open spec fn has_assignment(
        self,
        root: PrincipalId,
        user: PrincipalId,
        role: RoleRefV,
    ) -> bool {
        exists|i: int|
            0 <= i < self.assignments@.len() && assignment_matches(
                #[trigger] self.assignments@[i],
                root,
                user,
                role,
            )
    }

    /// Index of the assignment edge with key (root, user, role); meaningful
    /// only under `wf` and `has_assignment`.
    pub open spec fn assignment_index(
        self,
        root: PrincipalId,
        user: PrincipalId,
        role: RoleRefV,
    ) -> int {
        choose|i: int|
            0 <= i < self.assignments@.len() && assignment_matches(
                #[trigger] self.assignments@[i],
                root,
                user,
                role,
            )
    }

    /// The assignment edge with key (root, user, role).
    pub open spec fn assignment_of(
        self,
        root: PrincipalId,
        user: PrincipalId,
        role: RoleRefV,
    ) -> UserRole {
        self.assignments@[self.assignment_index(root, user, role)]
    }

    /// Every table holds at most one record per key.
    pub open spec fn keys_unique(self) -> bool {
        &&& forall|i: int, j: int|
            0 <= i < j < self.roots@.len() ==> (#[trigger] self.roots@[i]).root_id != (
            #[trigger] self.roots@[j]).root_id
        &&& forall|i: int, j: int|
            0 <= i < j < self.roles@.len() ==> !((#[trigger] self.roles@[i]).root == (
            #[trigger] self.roles@[j]).root && self.roles@[i].name@ == self.roles@[j].name@)
        &&& forall|i: int, j: int|
            0 <= i < j < self.permissions@.len() ==> !((#[trigger] self.permissions@[i]).root == (
            #[trigger] self.permissions@[j]).root && self.permissions@[i].name@
                == self.permissions@[j].name@)
        &&& forall|i: int, j: int|
            0 <= i < j < self.grants@.len() ==> !((#[trigger] self.grants@[i])@.role == (
            #[trigger] self.grants@[j])@.role && self.grants@[i]@.permission
                == self.grants@[j]@.permission)
        &&& forall|i: int, j: int|
            0 <= i < j < self.assignments@.len() ==> !((#[trigger] self.assignments@[i]).root == (
            #[trigger] self.assignments@[j]).root && self.assignments@[i].user
                == self.assignments@[j].user && self.assignments@[i].role@
                == self.assignments@[j].role@)
    }

    /// Every stored name went through validation.
    pub open spec fn names_valid(self) -> bool {
        &&& forall|i: int|
            0 <= i < self.roles@.len() ==> valid_name((#[trigger] self.roles@[i]).name@)
        &&& forall|i: int|
            0 <= i < self.permissions@.len() ==> valid_name((#[trigger] self.permissions@[i]).name@)
    }

    /// Every record's referenced parents exist.  Roles, permissions and
    /// root registries are never deleted, so the references a record was
    /// created with stay resolvable.
    pub open spec fn refs_resolve(self) -> bool {
        &&& forall|i: int|
            0 <= i < self.roles@.len() ==> self.has_root((#[trigger] self.roles@[i]).root)
        &&& forall|i: int|
            0 <= i < self.permissions@.len() ==> self.has_root(
                (#[trigger] self.permissions@[i]).root,
            )
        &&& forall|i: int|
            0 <= i < self.grants@.len() ==> {
                let g = #[trigger] self.grants@[i];
                self.has_role(g.role@.root, g.role@.name) && self.has_permission(
                    g.permission@.root,
                    g.permission@.name,
                ) && g.role@.root == g.permission@.root
            }
        &&& forall|i: int|
            0 <= i < self.assignments@.len() ==> {
                let a = #[trigger] self.assignments@[i];
                self.has_role(a.role@.root, a.role@.name) && self.has_root(a.root)
                    && a.role@.root == a.root
            }
    }

    /// Well-formedness of the store: key uniqueness, validated names, and
    /// resolvable references.  Every operation preserves it.
    pub open spec fn wf(self) -> bool {
        self.keys_unique() && self.names_valid() && self.refs_resolve()
    }

    /// An empty store.
    pub fn new() -> (s: RbacStore)
        ensures
            s.wf(),
            s.roots@.len() == 0,
            s.roles@.len() == 0,
            s.permissions@.len() == 0,
            s.grants@.len() == 0,
            s.assignments@.len() == 0,
    {
        RbacStore {
            roots: Vec::new(),
            roles: Vec::new(),
            permissions: Vec::new(),
            grants: Vec::new(),
            assignments: Vec::new(),
        }
    }

    /// Position of the root-authority record keyed by `id`, if any.
    pub(crate) fn find_root(&self, id: PrincipalId) -> (r: Option<usize>)
        ensures
            match r {
                Some(i) => i < self.roots@.len() && self.roots@[i as int].root_id == id,
                None => !self.has_root(id),
            },
    {
        let mut i: usize = 0;
        while i < self.roots.len()
            invariant
                i <= self.roots@.len(),
                forall|j: int| 0 <= j < i ==> (#[trigger] self.roots@[j]).root_id != id,
            decreases self.roots@.len() - i,
        {
            if self.roots[i].root_id == id {
                return Some(i);
            }
            i += 1;
        }
        None
    }

    /// Position of the role record keyed by (root, name), if any.
    pub(crate) fn find_role(&self, root: PrincipalId, name: &Vec<u8>) -> (r: Option<usize>)
        ensures
            match r {
                Some(i) => i < self.roles@.len() && role_matches(self.roles@[i as int], root, name@),
                None => !self.has_role(root, name@),
            },
    {
        let mut i: usize = 0;
        while i < self.roles.len()
            invariant
                i <= self.roles@.len(),
                forall|j: int| 0 <= j < i ==> !role_matches(#[trigger] self.roles@[j], root, name@),
            decreases self.roles@.len() - i,
        {
            if self.roles[i].root == root && bytes_eq(&self.roles[i].name, name) {
                return Some(i);
            }
            i += 1;
        }
        None
    }

    /// Position of the permission record keyed by (root, name), if any.
    pub(crate) fn find_permission(&self, root: PrincipalId, name: &Vec<u8>) -> (r: Option<usize>)
        ensures
            match r {
                Some(i) => i < self.permissions@.len() && permission_matches(
                    self.permissions@[i as int],
                    root,
                    name@,
                ),
                None => !self.has_permission(root, name@),
            },
    {
        let mut i: usize = 0;
        while i < self.permissions.len()
            invariant
                i <= self.permissions@.len(),
                forall|j: int|
                    0 <= j < i ==> !permission_matches(
                        #[trigger] self.permissions@[j],
                        root,
                        name@,
                    ),
            decreases self.permissions@.len() - i,
        {
            if self.permissions[i].root == root && bytes_eq(&self.permissions[i].name, name) {
                return Some(i);
            }
            i += 1;
        }
        None
    }

    /// Position of the grant edge keyed by (role, permission), if any.
    pub(crate) fn find_grant(&self, role: &RoleRef, permission: &PermissionRef) -> (r: Option<
        usize,
    >)
        ensures
            match r {
                Some(i) => i < self.grants@.len() && grant_matches(
                    self.grants@[i as int],
                    role@,
                    permission@,
                ),
                None => !self.has_grant(role@, permission@),
            },
    {
        let mut i: usize = 0;
        while i < self.grants.len()
            invariant
                i <= self.grants@.len(),
                forall|j: int|
                    0 <= j < i ==> !grant_matches(#[trigger] self.grants@[j], role@, permission@),
            decreases self.grants@.len() - i,
        {
            if role_ref_eq(&self.grants[i].role, role) && permission_ref_eq(
                &self.grants[i].permission,
                permission,
            ) {
                return Some(i);
            }
            i += 1;
        }
        None
    }

    /// Position of the assignment edge keyed by (root, user, role), if any.
    pub(crate) fn find_assignment(
        &self,
        root: PrincipalId,
        user: PrincipalId,
        role: &RoleRef,
    ) -> (r: Option<usize>)
        ensures
            match r {
                Some(i) => i < self.assignments@.len() && assignment_matches(
                    self.assignments@[i as int],
                    root,
                    user,
                    role@,
                ),
                None => !self.has_assignment(root, user, role@),
            },
    {
        let mut i: usize = 0;
        while i < self.assignments.len()
            invariant
                i <= self.assignments@.len(),
                forall|j: int|
                    0 <= j < i ==> !assignment_matches(
                        #[trigger] self.assignments@[j],
                        root,
                        user,
                        role@,
                    ),
            decreases self.assignments@.len() - i,
        {
            if self.assignments[i].root == root && self.assignments[i].user == user && role_ref_eq(
                &self.assignments[i].role,
                role,
            ) {
                return Some(i);
            }
            i += 1;
        }
        None
    }

    /// The root-authority record keyed by `id`, if any.
    pub fn get_root(&self, id: PrincipalId) -> (r: Option<&RootAuthority>)
        requires
            self.wf(),
        ensures
            match r {
                Some(x) => self.has_root(id) && *x == self.root_of(id),
                None => !self.has_root(id),
            },
    {
        match self.find_root(id) {
            Some(i) => {
                proof {
                    self.lemma_root_index_is(id, i as int);
                }
                Some(&self.roots[i])
            },
            None => None,
        }
    }

    /// The role record keyed by (root, name), if any.
    pub fn get_role(&self, root: PrincipalId, name: &Vec<u8>) -> (r: Option<&Role>)
        ensures
            match r {
                Some(x) => self.has_role(root, name@) && x.root == root && x.name@ == name@,
                None => !self.has_role(root, name@),
            },
    {
        match self.find_role(root, name) {
            Some(i) => Some(&self.roles[i]),
            None => None,
        }
    }

    /// The permission record keyed by (root, name), if any.
    pub fn get_permission(&self, root: PrincipalId, name: &Vec<u8>) -> (r: Option<&Permission>)
        ensures
            match r {
                Some(x) => self.has_permission(root, name@) && x.root == root && x.name@ == name@,
                None => !self.has_permission(root, name@),
            },
    {
        match self.find_permission(root, name) {
            Some(i) => Some(&self.permissions[i]),
            None => None,
        }
    }

    /// The grant edge keyed by (role, permission), if any.
    pub fn get_role_permission(&self, role: &RoleRef, permission: &PermissionRef) -> (r: Option<
        &RolePermission,
    >)
        ensures
            match r {
                Some(g) => self.has_grant(role@, permission@) && g.role@ == role@ && g.permission@
                    == permission@,
                None => !self.has_grant(role@, permission@),
            },
    {
        match self.find_grant(role, permission) {
            Some(i) => Some(&self.grants[i]),
            None => None,
        }
    }

    /// The assignment edge keyed by (root, user, role), if any.
    pub fn get_user_role(
        &self,
        root: PrincipalId,
        user: PrincipalId,
        role: &RoleRef,
    ) -> (r: Option<&UserRole>)
        requires
            self.wf(),
        ensures
            match r {
                Some(a) => self.has_assignment(root, user, role@) && *a == self.assignment_of(
                    root,
                    user,
                    role@,
                ),
                None => !self.has_assignment(root, user, role@),
            },
    {
        match self.find_assignment(root, user, role) {
            Some(i) => {
                proof {
                    self.lemma_assignment_index_is(root, user, role@, i as int);
                }
                Some(&self.assignments[i])
            },
            None => None,
        }
    }

    /// Under key uniqueness, any index holding the key `id` is the index the
    /// model functions speak of.
    pub proof fn lemma_root_index_is(self, id: PrincipalId, i: int)
        requires
            self.keys_unique(),
            0 <= i < self.roots@.len(),
            self.roots@[i].root_id == id,
        ensures
            self.has_root(id),
            self.root_index(id) == i,
            self.root_of(id) == self.roots@[i],
    {
        assert(self.has_root(id));
        let j = self.root_index(id);
        if i < j {
            assert(self.roots@[i].root_id != self.roots@[j].root_id);
        } else if j < i {
            assert(self.roots@[j].root_id != self.roots@[i].root_id);
        }
    }

    /// Under key uniqueness, any index holding the key (root, user, role) is
    /// the index the model functions speak of.
    pub proof fn lemma_assignment_index_is(
        self,
        root: PrincipalId,
        user: PrincipalId,
        role: RoleRefV,
        i: int,
    )
        requires
            self.keys_unique(),
            0 <= i < self.assignments@.len(),
            assignment_matches(self.assignments@[i], root, user, role),
        ensures
            self.has_assignment(root, user, role),
            self.assignment_index(root, user, role) == i,
            self.assignment_of(root, user, role) == self.assignments@[i],
    {
        assert(self.has_assignment(root, user, role));
        let j = self.assignment_index(root, user, role);
        if i < j {
            assert(!(self.assignments@[i].root == self.assignments@[j].root
                && self.assignments@[i].user == self.assignments@[j].user
                && self.assignments@[i].role@ == self.assignments@[j].role@));
        } else if j < i {
            assert(!(self.assignments@[j].root == self.assignments@[i].root
                && self.assignments@[j].user == self.assignments@[i].user
                && self.assignments@[j].role@ == self.assignments@[i].role@));
        }
    }
}

} // verus!
