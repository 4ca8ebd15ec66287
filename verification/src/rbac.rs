//! Role-based access control: roles for the parts of the runtime, the
//! accounts that hold them, and the check made before a call is let in.

use vstd::prelude::*;
use crate::system::{AccountId, Origin, admitted, ensure_admitted, ensure_root, ensure_signed};
use crate::table::{
    assoc_map, copy_bytes, distinct_keys, lemma_assoc_absent, lemma_assoc_at, lemma_assoc_push,
    lemma_assoc_remove, lemma_assoc_update, lemma_distinct_push, same_bytes,
};

verus! {

/// What a role allows in a part of the runtime.
#[derive(Clone, Copy, PartialEq, Eq, Debug, Structural)]
pub enum Permission {
    Execute,
    Manage,
}

/// The name of a permission, as bytes.
pub open spec fn permission_name(permission: Permission) -> Seq<u8> {
    match permission {
        Permission::Execute => seq![80u8, 101u8, 114u8, 109u8, 105u8, 115u8, 115u8, 105u8, 111u8, 110u8, 58u8, 58u8, 69u8, 120u8, 101u8, 99u8, 117u8, 116u8, 101u8],
        Permission::Manage => seq![80u8, 101u8, 114u8, 109u8, 105u8, 115u8, 115u8, 105u8, 111u8, 110u8, 58u8, 58u8, 77u8, 97u8, 110u8, 97u8, 103u8, 101u8],
    }
}

impl Permission {
    /// The name of the permission: `Permission::Execute` or
    /// `Permission::Manage`.
    pub fn as_bytes(&self) -> (name: Vec<u8>)
        ensures
            name@ == permission_name(*self),
    {
        let name = match self {
            Permission::Execute => vec![80u8, 101u8, 114u8, 109u8, 105u8, 115u8, 115u8, 105u8, 111u8, 110u8, 58u8, 58u8, 69u8, 120u8, 101u8, 99u8, 117u8, 116u8, 101u8],
            Permission::Manage => vec![80u8, 101u8, 114u8, 109u8, 105u8, 115u8, 115u8, 105u8, 111u8, 110u8, 58u8, 58u8, 77u8, 97u8, 110u8, 97u8, 103u8, 101u8],
        };
        assert(name@ =~= permission_name(*self));
        name
    }
}

impl Default for Permission {
    fn default() -> (permission: Self)
        ensures
            permission == Permission::Execute,
    {
        Permission::Execute
    }
}

/// A permission in one part of the runtime, which is named by `pallet`.
#[derive(Clone, PartialEq, Eq, Debug)]
pub struct Role {
    pub pallet: Vec<u8>,
    pub permission: Permission,
}

pub struct RoleView {
    pub pallet: Seq<u8>,
    pub permission: Permission,
}

impl View for Role {
    type V = RoleView;

    open spec fn view(&self) -> RoleView {
        RoleView { pallet: self.pallet@, permission: self.permission }
    }
}

impl Role {
    /// A role with the same contents.
    pub fn duplicate(&self) -> (copy: Self)
        ensures
            copy@ == self@,
    {
        Role { pallet: copy_bytes(self.pallet.as_slice()), permission: self.permission }
    }

    /// Whether two roles are the same role.
    pub fn same(&self, other: &Role) -> (same: bool)
        ensures
            same == (self@ == other@),
    {
        self.permission == other.permission && same_bytes(
            self.pallet.as_slice(),
            other.pallet.as_slice(),
        )
    }
}

/// The values of a list of roles, in order.
pub open spec fn roles_view(roles: Seq<Role>) -> Seq<RoleView> {
    Seq::new(roles.len(), |i: int| roles[i]@)
}

/// Why a call was refused.
#[derive(Clone, Copy, PartialEq, Eq, Debug, Structural)]
pub enum Error {
    AccessDenied,
    RoleExisted,
}

/// Why a call was refused.
pub type DispatchError = crate::system::DispatchError<Error>;

/// What a call announces to the outside.
#[derive(Clone, PartialEq, Eq, Debug)]
pub enum Event {
    /// A role was created: the caller, the part of the runtime, the name of
    /// the permission.
    RoleCreated(AccountId, Vec<u8>, Vec<u8>),
    /// A role was taken from an account: the account, the part of the
    /// runtime.
    AccessRevoked(AccountId, Vec<u8>),
    /// A role was given to an account: the account, the part of the runtime.
    AccessGranted(AccountId, Vec<u8>),
    /// An account was made super admin.
    SuperAdminAdded(AccountId),
}

pub type RawEvent = Event;

pub enum EventView {
    RoleCreated(AccountId, Seq<u8>, Seq<u8>),
    AccessRevoked(AccountId, Seq<u8>),
    AccessGranted(AccountId, Seq<u8>),
    SuperAdminAdded(AccountId),
}

impl View for Event {
    type V = EventView;

    open spec fn view(&self) -> EventView {
        match *self {
            Event::RoleCreated(who, pallet, permission) => EventView::RoleCreated(
                who,
                pallet@,
                permission@,
            ),
            Event::AccessRevoked(account, pallet) => EventView::AccessRevoked(account, pallet@),
            Event::AccessGranted(account, pallet) => EventView::AccessGranted(account, pallet@),
            Event::SuperAdminAdded(account) => EventView::SuperAdminAdded(account),
        }
    }
}

/// A transaction that is let in, and how the pool treats it.
#[derive(Clone, PartialEq, Eq, Debug)]
pub struct ValidTransaction {
    pub priority: u64,
    pub requires: Vec<Vec<u8>>,
    pub provides: Vec<Vec<u8>>,
    pub longevity: u64,
    pub propagate: bool,
}

/// Why a transaction is not let in.
#[derive(Clone, Copy, PartialEq, Eq, Debug, Structural)]
pub enum InvalidTransaction {
    /// The call is not expected of this account.
    Call,
}

/// What the access control holds, as maps. A key that is missing from a map
/// stands for `false`.
pub struct ModuleView {
    pub super_admins: Map<AccountId, bool>,
    pub permissions: Map<(AccountId, RoleView), bool>,
    pub roles: Seq<RoleView>,
}

impl ModuleView {
    /// Nothing stored: no super admin, no role, no permission.
    pub open spec fn empty() -> ModuleView {
        ModuleView { super_admins: Map::empty(), permissions: Map::empty(), roles: Seq::empty() }
    }

    /// Whether an account is recorded as holding a role.
    pub open spec fn permitted(self, account: AccountId, role: RoleView) -> bool {
        self.permissions.dom().contains((account, role)) && self.permissions[(account, role)]
    }

    /// Whether an account is a super admin. An account counts as one as soon
    /// as it has an entry.
    pub open spec fn is_super_admin(self, account: AccountId) -> bool {
        self.super_admins.dom().contains(account)
    }

    /// Whether an account holds a role that exists.
    pub open spec fn holds(self, account: AccountId, role: RoleView) -> bool {
        self.roles.contains(role) && self.permitted(account, role)
    }

    /// Whether an account may call into a part of the runtime: it holds the
    /// role to manage it or the role to execute in it.
    pub open spec fn verify_access(self, account: AccountId, pallet: Seq<u8>) -> bool {
        self.holds(account, RoleView { pallet, permission: Permission::Manage }) || self.holds(
            account,
            RoleView { pallet, permission: Permission::Execute },
        )
    }

    /// Whether an account may hand out the roles of a part of the runtime:
    /// it holds the role to manage it.
    pub open spec fn verify_manage_access(self, account: AccountId, pallet: Seq<u8>) -> bool {
        self.holds(account, RoleView { pallet, permission: Permission::Manage })
    }

    /// Whether a transaction of an account that calls into a part of the
    /// runtime is let in: the account is a super admin or may call into that
    /// part.
    pub open spec fn authorized(self, who: AccountId, pallet: Seq<u8>) -> bool {
        self.is_super_admin(who) || self.verify_access(who, pallet)
    }
}

#[derive(PartialEq, Eq, Debug)]
struct AdminEntry {
    account: AccountId,
    flag: bool,
}

#[derive(PartialEq, Eq, Debug)]
struct PermissionEntry {
    account: AccountId,
    role: Role,
    flag: bool,
}

spec fn admin_pairs(entries: Seq<AdminEntry>) -> Seq<(AccountId, bool)> {
    Seq::new(entries.len(), |i: int| (entries[i].account, entries[i].flag))
}

spec fn permission_pairs(entries: Seq<PermissionEntry>) -> Seq<((AccountId, RoleView), bool)> {
    Seq::new(entries.len(), |i: int| ((entries[i].account, entries[i].role@), entries[i].flag))
}

/// The storage of the access control.
#[derive(PartialEq, Eq, Debug)]
pub struct Module {
    super_admins: Vec<AdminEntry>,
    permissions: Vec<PermissionEntry>,
    roles: Vec<Role>,
}

impl View for Module {
    type V = ModuleView;

    closed spec fn view(&self) -> ModuleView {
        ModuleView {
            super_admins: assoc_map(admin_pairs(self.super_admins@)),
            permissions: assoc_map(permission_pairs(self.permissions@)),
            roles: roles_view(self.roles@),
        }
    }
}

impl Clone for Module {
    /// An access control that holds the same.
    fn clone(&self) -> (copy: Self)
        ensures
            copy@ == self@,
    {
        proof {
            use_type_invariant(self);
        }
        let mut super_admins: Vec<AdminEntry> = Vec::new();
        let mut i: usize = 0;
        while i < self.super_admins.len()
            invariant
                i <= self.super_admins.len(),
                super_admins@.len() == i,
                forall|j: int|
                    0 <= j < i ==> super_admins@[j].account == self.super_admins@[j].account
                        && super_admins@[j].flag == self.super_admins@[j].flag,
            decreases self.super_admins.len() - i,
        {
            super_admins.push(
                AdminEntry {
                    account: self.super_admins[i].account,
                    flag: self.super_admins[i].flag,
                },
            );
            i += 1;
        }
        assert(admin_pairs(super_admins@) =~= admin_pairs(self.super_admins@));
        let mut permissions: Vec<PermissionEntry> = Vec::new();
        let mut i: usize = 0;
        while i < self.permissions.len()
            invariant
                i <= self.permissions.len(),
                permissions@.len() == i,
                forall|j: int|
                    0 <= j < i ==> permissions@[j].account == self.permissions@[j].account
                        && permissions@[j].role@ == self.permissions@[j].role@
                        && permissions@[j].flag == self.permissions@[j].flag,
            decreases self.permissions.len() - i,
        {
            permissions.push(
                PermissionEntry {
                    account: self.permissions[i].account,
                    role: self.permissions[i].role.duplicate(),
                    flag: self.permissions[i].flag,
                },
            );
            i += 1;
        }
        assert(permission_pairs(permissions@) =~= permission_pairs(self.permissions@));
        let mut roles: Vec<Role> = Vec::new();
        let mut i: usize = 0;
        while i < self.roles.len()
            invariant
                i <= self.roles.len(),
                roles@.len() == i,
                forall|j: int| 0 <= j < i ==> roles@[j]@ == self.roles@[j]@,
            decreases self.roles.len() - i,
        {
            roles.push(self.roles[i].duplicate());
            i += 1;
        }
        assert(roles_view(roles@) =~= roles_view(self.roles@));
        Module { super_admins, permissions, roles }
    }
}

impl Module {
    #[verifier::type_invariant]
    spec fn well_formed(self) -> bool {
        &&& distinct_keys(admin_pairs(self.super_admins@))
        &&& distinct_keys(permission_pairs(self.permissions@))
    }

    /// An access control that holds nothing.
    pub fn new() -> (module: Module)
        ensures
            module@ == ModuleView::empty(),
    {
        let module = Module { super_admins: Vec::new(), permissions: Vec::new(), roles: Vec::new() };
        assert(module@.super_admins =~= Map::empty());
        assert(module@.permissions =~= Map::empty());
        assert(module@.roles =~= Seq::empty());
        module
    }

    /// An access control that starts with the given super admins and
    /// nothing else.
    pub fn genesis(super_admins: &[AccountId]) -> (module: Module)
        ensures
            module@.permissions == ModuleView::empty().permissions,
            module@.roles == ModuleView::empty().roles,
            forall|account: AccountId|
                module@.is_super_admin(account) <==> super_admins@.contains(account),
            forall|account: AccountId| #[trigger]
                module@.is_super_admin(account) ==> module@.super_admins[account],
    {
        let mut module = Module::new();
        let mut i: usize = 0;
        while i < super_admins.len()
            invariant
                i <= super_admins.len(),
                module@.permissions == ModuleView::empty().permissions,
                module@.roles == ModuleView::empty().roles,
                forall|account: AccountId|
                    module@.is_super_admin(account) <==> super_admins@.subrange(
                        0,
                        i as int,
                    ).contains(account),
                forall|account: AccountId| #[trigger]
                    module@.is_super_admin(account) ==> module@.super_admins[account],
            decreases super_admins.len() - i,
        {
            let ghost before = module@;
            let ghost done = super_admins@.subrange(0, i as int);
            let ghost next = super_admins@.subrange(0, i + 1);
            let added = super_admins[i];
            module.insert_super_admin(added);
            proof {
                assert(next =~= done.push(added));
                assert(module@.super_admins == before.super_admins.insert(added, true));
                assert forall|account: AccountId|
                    module@.is_super_admin(account) <==> next.contains(account) by {
                    assert(before.is_super_admin(account) <==> done.contains(account));
                    assert(module@.is_super_admin(account) <==> before.is_super_admin(account)
                        || account == added);
                    if done.contains(account) {
                        let k = choose|k: int| 0 <= k < done.len() && done[k] == account;
                        assert(next[k] == account);
                    }
                    if next.contains(account) {
                        let k = choose|k: int| 0 <= k < next.len() && next[k] == account;
                        if k < done.len() {
                            assert(done[k] == account);
                        }
                    }
                    assert(next[i as int] == added);
                }
                assert forall|account: AccountId| #[trigger]
                    module@.is_super_admin(account) implies module@.super_admins[account] by {
                    if account != added {
                        assert(before.is_super_admin(account));
                    }
                }
            }
            i += 1;
        }
        assert(super_admins@.subrange(0, super_admins@.len() as int) =~= super_admins@);
        module
    }

    fn find_super_admin(&self, account: AccountId) -> (found: Option<usize>)
        ensures
            match found {
                Some(i) => i < self.super_admins@.len() && self.super_admins@[i as int].account
                    == account,
                None => forall|j: int|
                    0 <= j < self.super_admins@.len() ==> (
                    #[trigger] self.super_admins@[j]).account != account,
            },
    {
        let mut i: usize = 0;
        while i < self.super_admins.len()
            invariant
                i <= self.super_admins@.len(),
                forall|j: int| 0 <= j < i ==> (#[trigger] self.super_admins@[j]).account != account,
            decreases self.super_admins@.len() - i,
        {
            if self.super_admins[i].account == account {
                return Some(i);
            }
            i += 1;
        }
        None
    }

    fn find_permission(&self, account: AccountId, role: &Role) -> (found: Option<usize>)
        ensures
            match found {
                Some(i) => i < self.permissions@.len() && self.permissions@[i as int].account
                    == account && self.permissions@[i as int].role@ == role@,
                None => forall|j: int|
                    0 <= j < self.permissions@.len() ==> !((
                    #[trigger] self.permissions@[j]).account == account
                        && self.permissions@[j].role@ == role@),
            },
    {
        let mut i: usize = 0;
        while i < self.permissions.len()
            invariant
                i <= self.permissions@.len(),
                forall|j: int|
                    0 <= j < i ==> !((#[trigger] self.permissions@[j]).account == account
                        && self.permissions@[j].role@ == role@),
            decreases self.permissions@.len() - i,
        {
            if self.permissions[i].account == account && self.permissions[i].role.same(role) {
                return Some(i);
            }
            i += 1;
        }
        None
    }

    /// Whether `account` is a super admin.
    pub fn is_super_admin(&self, account: AccountId) -> (listed: bool)
        ensures
            listed == self@.is_super_admin(account),
    {
        proof {
            use_type_invariant(self);
        }
        match self.find_super_admin(account) {
            Some(i) => {
                proof {
                    lemma_assoc_at(admin_pairs(self.super_admins@), i as int);
                }
                true
            },
            None => {
                proof {
                    lemma_assoc_absent(admin_pairs(self.super_admins@), account);
                }
                false
            },
        }
    }

    /// What is stored for `account` among the super admins; `false` if
    /// nothing is.
    pub fn super_admins(&self, account: AccountId) -> (flag: bool)
        ensures
            flag == (self@.super_admins.dom().contains(account) && self@.super_admins[account]),
    {
        proof {
            use_type_invariant(self);
        }
        match self.find_super_admin(account) {
            Some(i) => {
                proof {
                    lemma_assoc_at(admin_pairs(self.super_admins@), i as int);
                }
                self.super_admins[i].flag
            },
            None => {
                proof {
                    lemma_assoc_absent(admin_pairs(self.super_admins@), account);
                }
                false
            },
        }
    }

    /// Whether `account` is recorded as holding `role`.
    pub fn permissions(&self, account: AccountId, role: &Role) -> (flag: bool)
        ensures
            flag == self@.permitted(account, role@),
    {
        proof {
            use_type_invariant(self);
        }
        match self.find_permission(account, role) {
            Some(i) => {
                proof {
                    lemma_assoc_at(permission_pairs(self.permissions@), i as int);
                }
                self.permissions[i].flag
            },
            None => {
                proof {
                    lemma_assoc_absent(permission_pairs(self.permissions@), (account, role@));
                }
                false
            },
        }
    }

    /// The roles that exist, oldest first.
    pub fn roles(&self) -> (roles: Vec<Role>)
        ensures
            roles_view(roles@) == self@.roles,
    {
        let mut roles: Vec<Role> = Vec::new();
        let mut i: usize = 0;
        while i < self.roles.len()
            invariant
                i <= self.roles.len(),
                roles@.len() == i,
                forall|j: int| 0 <= j < i ==> roles@[j]@ == self.roles@[j]@,
            decreases self.roles.len() - i,
        {
            roles.push(self.roles[i].duplicate());
            i += 1;
        }
        assert(roles_view(roles@) =~= roles_view(self.roles@));
        roles
    }

    /// Whether `role` exists.
    pub fn role_exists(&self, role: &Role) -> (listed: bool)
        ensures
            listed == self@.roles.contains(role@),
    {
        let mut i: usize = 0;
        while i < self.roles.len()
            invariant
                i <= self.roles.len(),
                forall|j: int| 0 <= j < i ==> self.roles@[j]@ != role@,
            decreases self.roles.len() - i,
        {
            if self.roles[i].same(role) {
                assert(roles_view(self.roles@)[i as int] == role@);
                return true;
            }
            i += 1;
        }
        assert(!roles_view(self.roles@).contains(role@)) by {
            if roles_view(self.roles@).contains(role@) {
                let k = choose|k: int|
                    0 <= k < roles_view(self.roles@).len() && roles_view(self.roles@)[k] == role@;
                assert(self.roles@[k]@ == role@);
            }
        }
        false
    }

    fn insert_super_admin(&mut self, account: AccountId)
        ensures
            final(self)@ == (ModuleView {
                super_admins: old(self)@.super_admins.insert(account, true),
                ..old(self)@
            }),
    {
        proof {
            use_type_invariant(&*self);
        }
        let ghost before = admin_pairs(self.super_admins@);
        let found = self.find_super_admin(account);
        let mut entries: Vec<AdminEntry> = Vec::new();
        core::mem::swap(&mut self.super_admins, &mut entries);
        match found {
            Some(i) => {
                proof {
                    lemma_assoc_update(before, i as int, true);
                }
                entries.set(i, AdminEntry { account, flag: true });
                assert(admin_pairs(entries@) =~= before.update(i as int, (account, true)));
            },
            None => {
                proof {
                    lemma_assoc_push(before, account, true);
                    lemma_distinct_push(before, account, true);
                }
                entries.push(AdminEntry { account, flag: true });
                assert(admin_pairs(entries@) =~= before.push((account, true)));
            },
        }
        self.super_admins = entries;
    }

    fn insert_permission(&mut self, account: AccountId, role: Role)
        ensures
            final(self)@ == (ModuleView {
                permissions: old(self)@.permissions.insert((account, role@), true),
                ..old(self)@
            }),
    {
        proof {
            use_type_invariant(&*self);
        }
        let ghost before = permission_pairs(self.permissions@);
        let ghost key = (account, role@);
        let found = self.find_permission(account, &role);
        let mut entries: Vec<PermissionEntry> = Vec::new();
        core::mem::swap(&mut self.permissions, &mut entries);
        match found {
            Some(i) => {
                proof {
                    lemma_assoc_update(before, i as int, true);
                }
                entries.set(i, PermissionEntry { account, role, flag: true });
                assert(permission_pairs(entries@) =~= before.update(i as int, (key, true)));
            },
            None => {
                proof {
                    assert forall|j: int| 0 <= j < before.len() implies (#[trigger] before[j]).0
                        != key by {
                        assert(before[j].0 == (entries@[j].account, entries@[j].role@));
                    }
                    lemma_assoc_push(before, key, true);
                    lemma_distinct_push(before, key, true);
                }
                entries.push(PermissionEntry { account, role, flag: true });
                assert(permission_pairs(entries@) =~= before.push((key, true)));
            },
        }
        self.permissions = entries;
    }

    fn remove_permission(&mut self, account: AccountId, role: &Role)
        ensures
            final(self)@ == (ModuleView {
                permissions: old(self)@.permissions.remove((account, role@)),
                ..old(self)@
            }),
    {
        proof {
            use_type_invariant(&*self);
        }
        let ghost before = permission_pairs(self.permissions@);
        let ghost key = (account, role@);
        let found = self.find_permission(account, role);
        match found {
            Some(i) => {
                let mut entries: Vec<PermissionEntry> = Vec::new();
                core::mem::swap(&mut self.permissions, &mut entries);
                proof {
                    lemma_assoc_remove(before, i as int);
                }
                let _ = entries.remove(i);
                assert(permission_pairs(entries@) =~= before.remove(i as int));
                self.permissions = entries;
            },
            None => {
                proof {
                    assert forall|j: int| 0 <= j < before.len() implies (#[trigger] before[j]).0
                        != key by {
                        assert(before[j].0 == (
                            self.permissions@[j].account,
                            self.permissions@[j].role@,
                        ));
                    }
                    lemma_assoc_absent(before, key);
                    assert(assoc_map(before).remove(key) =~= assoc_map(before));
                }
            },
        }
    }

    /// Whether `account` may call into the part of the runtime named
    /// `pallet`.
    pub fn verify_access(&self, account: AccountId, pallet: Vec<u8>) -> (allowed: bool)
        ensures
            allowed == self@.verify_access(account, pallet@),
    {
        let execute_role = Role {
            pallet: copy_bytes(pallet.as_slice()),
            permission: Permission::Execute,
        };
        let manage_role = Role { pallet, permission: Permission::Manage };
        if (self.role_exists(&manage_role) && self.permissions(account, &manage_role)) || (
        self.role_exists(&execute_role) && self.permissions(account, &execute_role)) {
            return true;
        }
        false
    }

    fn verify_manage_access(&self, account: AccountId, pallet: Vec<u8>) -> (allowed: bool)
        ensures
            allowed == self@.verify_manage_access(account, pallet@),
    {
        let role = Role { pallet, permission: Permission::Manage };
        if self.role_exists(&role) && self.permissions(account, &role) {
            return true;
        }
        false
    }

    /// Creates a role and gives it to the caller. `may_invoke` is the
    /// answer of the authorization to whether this caller may create roles.
    /// A role that exists is not created again.
    pub fn create_role(
        &mut self,
        origin: Origin,
        may_invoke: bool,
        pallet_name: Vec<u8>,
        permission: Permission,
    ) -> (result: Result<Event, DispatchError>)
        ensures
            match result {
                Ok(event) => {
                    let role = RoleView { pallet: pallet_name@, permission };
                    &&& admitted(origin, may_invoke)
                    &&& !old(self)@.roles.contains(role)
                    &&& final(self)@ == (ModuleView {
                        roles: old(self)@.roles.push(role),
                        permissions: old(self)@.permissions.insert(
                            (origin->Signed_0, role),
                            true,
                        ),
                        ..old(self)@
                    })
                    &&& event@ == EventView::RoleCreated(
                        origin->Signed_0,
                        pallet_name@,
                        permission_name(permission),
                    )
                },
                Err(e) => {
                    &&& final(self)@ == old(self)@
                    &&& e == if !admitted(origin, may_invoke) {
                        DispatchError::BadOrigin
                    } else {
                        DispatchError::Module(Error::RoleExisted)
                    }
                    &&& admitted(origin, may_invoke) ==> old(self)@.roles.contains(
                        RoleView { pallet: pallet_name@, permission },
                    )
                },
            },
    {
        proof {
            use_type_invariant(&*self);
        }
        let who = match ensure_admitted::<Error>(origin, may_invoke) {
            Ok(who) => who,
            Err(e) => {
                return Err(e);
            },
        };
        let role = Role { pallet: copy_bytes(pallet_name.as_slice()), permission };
        if self.role_exists(&role) {
            return Err(DispatchError::Module(Error::RoleExisted));
        }
        let ghost before = roles_view(self.roles@);
        let mut roles: Vec<Role> = Vec::new();
        core::mem::swap(&mut self.roles, &mut roles);
        roles.push(role.duplicate());
        assert(roles_view(roles@) =~= before.push(role@));
        self.roles = roles;
        self.insert_permission(who, role);
        Ok(Event::RoleCreated(who, pallet_name, permission.as_bytes()))
    }

    /// Gives a role to an account. The caller must hold the role to manage
    /// the part of the runtime that the role is for.
    pub fn assign_role(&mut self, origin: Origin, account_id: AccountId, role: Role) -> (result:
        Result<Event, DispatchError>)
        ensures
            match result {
                Ok(event) => {
                    &&& origin is Signed
                    &&& old(self)@.verify_manage_access(origin->Signed_0, role@.pallet)
                    &&& final(self)@ == (ModuleView {
                        permissions: old(self)@.permissions.insert((account_id, role@), true),
                        ..old(self)@
                    })
                    &&& event@ == EventView::AccessGranted(account_id, role@.pallet)
                },
                Err(e) => {
                    &&& final(self)@ == old(self)@
                    &&& e == if !(origin is Signed) {
                        DispatchError::BadOrigin
                    } else {
                        DispatchError::Module(Error::AccessDenied)
                    }
                    &&& origin is Signed ==> !old(self)@.verify_manage_access(
                        origin->Signed_0,
                        role@.pallet,
                    )
                },
            },
    {
        let who = match ensure_signed::<Error>(origin) {
            Ok(who) => who,
            Err(e) => {
                return Err(e);
            },
        };
        if !self.verify_manage_access(who, copy_bytes(role.pallet.as_slice())) {
            return Err(DispatchError::Module(Error::AccessDenied));
        }
        let pallet = copy_bytes(role.pallet.as_slice());
        self.insert_permission(account_id, role);
        Ok(Event::AccessGranted(account_id, pallet))
    }

    /// Takes a role from an account. The caller must hold the role to
    /// manage the part of the runtime that the role is for.
    pub fn revoke_access(&mut self, origin: Origin, account_id: AccountId, role: Role) -> (result:
        Result<Event, DispatchError>)
        ensures
            match result {
                Ok(event) => {
                    &&& origin is Signed
                    &&& old(self)@.verify_manage_access(origin->Signed_0, role@.pallet)
                    &&& final(self)@ == (ModuleView {
                        permissions: old(self)@.permissions.remove((account_id, role@)),
                        ..old(self)@
                    })
                    &&& event@ == EventView::AccessRevoked(account_id, role@.pallet)
                },
                Err(e) => {
                    &&& final(self)@ == old(self)@
                    &&& e == if !(origin is Signed) {
                        DispatchError::BadOrigin
                    } else {
                        DispatchError::Module(Error::AccessDenied)
                    }
                    &&& origin is Signed ==> !old(self)@.verify_manage_access(
                        origin->Signed_0,
                        role@.pallet,
                    )
                },
            },
    {
        let who = match ensure_signed::<Error>(origin) {
            Ok(who) => who,
            Err(e) => {
                return Err(e);
            },
        };
        if !self.verify_manage_access(who, copy_bytes(role.pallet.as_slice())) {
            return Err(DispatchError::Module(Error::AccessDenied));
        }
        self.remove_permission(account_id, &role);
        Ok(Event::AccessRevoked(account_id, role.pallet))
    }

    /// Makes an account super admin. Only the root may do so.
    pub fn add_super_admin(&mut self, origin: Origin, account_id: AccountId) -> (result: Result<
        Event,
        DispatchError,
    >)
        ensures
            match result {
                Ok(event) => {
                    &&& origin is Root
                    &&& final(self)@ == (ModuleView {
                        super_admins: old(self)@.super_admins.insert(account_id, true),
                        ..old(self)@
                    })
                    &&& event@ == EventView::SuperAdminAdded(account_id)
                },
                Err(e) => {
                    &&& !(origin is Root)
                    &&& final(self)@ == old(self)@
                    &&& e == DispatchError::BadOrigin
                },
            },
    {
        if let Err(e) = ensure_root::<Error>(origin) {
            return Err(e);
        }
        self.insert_super_admin(account_id);
        Ok(Event::SuperAdminAdded(account_id))
    }

    /// Decides whether a transaction of `who` that calls into the part of
    /// the runtime named `pallet_name` is let in. It is let in if `who` is a
    /// super admin or may call into that part; its priority is then the
    /// weight of the call, it never expires and it is passed on.
    pub fn validate(&self, who: AccountId, pallet_name: &[u8], weight: u64) -> (validity: Result<
        ValidTransaction,
        InvalidTransaction,
    >)
        ensures
            validity is Ok <==> self@.authorized(who, pallet_name@),
            match validity {
                Ok(valid) => {
                    &&& valid.priority == weight
                    &&& valid.requires@.len() == 0
                    &&& valid.provides@.len() == 0
                    &&& valid.longevity == u64::MAX
                    &&& valid.propagate
                },
                Err(e) => e == InvalidTransaction::Call,
            },
    {
        if self.is_super_admin(who) {
            Ok(
                ValidTransaction {
                    priority: weight,
                    requires: Vec::new(),
                    provides: Vec::new(),
                    longevity: u64::MAX,
                    propagate: true,
                },
            )
        } else if self.verify_access(who, copy_bytes(pallet_name)) {
            Ok(
                ValidTransaction {
                    priority: weight,
                    requires: Vec::new(),
                    provides: Vec::new(),
                    longevity: u64::MAX,
                    propagate: true,
                },
            )
        } else {
            Err(InvalidTransaction::Call)
        }
    }
}

/// Who creates a role may then call into the part of the runtime that the
/// role is for, and a super admin is let in everywhere.
pub proof fn creator_gains_access(
    state: ModuleView,
    who: AccountId,
    pallet: Seq<u8>,
    permission: Permission,
)
    ensures
        ({
            let role = RoleView { pallet, permission };
            let after = ModuleView {
                roles: state.roles.push(role),
                permissions: state.permissions.insert((who, role), true),
                ..state
            };
            after.verify_access(who, pallet) && after.authorized(who, pallet)
        }),
        forall|admin: AccountId, any: Seq<u8>|
            state.is_super_admin(admin) ==> #[trigger] state.authorized(admin, any),
{
    let role = RoleView { pallet, permission };
    let roles = state.roles.push(role);
    assert(roles[state.roles.len() as int] == role);
    assert(roles.contains(role));
}

/// An account from which a role was taken does not hold it any more.
pub proof fn revoked_role_is_not_held(state: ModuleView, account: AccountId, role: RoleView)
    ensures
        !(ModuleView { permissions: state.permissions.remove((account, role)), ..state }).holds(
            account,
            role,
        ),
{
}

} // verus!
