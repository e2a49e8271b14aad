//! Role-based access control: roles, the fixed permission table, and the
//! delegation rule.

use vstd::prelude::*;

use crate::ids::Owner;
use crate::keyed::{KeyedMap, SameKey};

verus! {

/// Roles, from most to least privileged.
#[derive(Clone, Copy, Debug, PartialEq, Eq, Structural, PartialOrd, Ord, Hash)]
pub enum Role {
    /// Full control over the system.
    SuperAdmin,
    /// Can add and remove applications and configure the system.
    Admin,
    /// Can manage monitored applications.
    Operator,
    /// Can submit events.
    DataIngester,
    /// Read-only access.
    Viewer,
}

impl Default for Role {
    fn default() -> (r: Role)
        ensures
            r == Role::Viewer,
    {
        Role::Viewer
    }
}

/// Permissions that operations require.
#[derive(Clone, Copy, Debug, PartialEq, Eq, Structural, Hash)]
pub enum Permission {
    /// Add monitored applications.
    AddApplication,
    /// Remove monitored applications.
    RemoveApplication,
    /// Capture and submit events.
    CaptureEvents,
    /// Modify metric definitions.
    ModifyMetrics,
    /// Configure system settings.
    ConfigureSystem,
    /// View data.
    ViewData,
    /// Manage other owners' roles.
    ManageRoles,
    /// Pause and resume ingestion.
    ControlIngestion,
}

/// Errors of role management.
#[derive(Clone, Copy, Debug, PartialEq, Eq, Structural)]
pub enum RBACError {
    /// The super admin's role cannot be changed or removed.
    CannotDemoteSuperAdmin,
    /// The caller lacks the permission for the operation.
    InsufficientPermissions,
    /// The caller cannot manage an owner of equal or higher role.
    CannotManageHigherRole,
}

/// The fixed permission table.
pub open spec fn role_grants(role: Role, permission: Permission) -> bool {
    match role {
        Role::SuperAdmin => true,
        Role::Admin => permission != Permission::ConfigureSystem,
        Role::Operator => matches!(
            permission,
            Permission::AddApplication | Permission::RemoveApplication | Permission::CaptureEvents
                | Permission::ViewData
        ),
        Role::DataIngester => matches!(permission, Permission::CaptureEvents | Permission::ViewData),
        Role::Viewer => permission == Permission::ViewData,
    }
}

/// The delegation rule: a super admin manages everyone; an admin manages
/// operators, data ingesters and viewers; nobody else manages anyone.
pub open spec fn role_manages(caller: Role, target: Role) -> bool {
    match caller {
        Role::SuperAdmin => true,
        Role::Admin => matches!(target, Role::Operator | Role::DataIngester | Role::Viewer),
        _ => false,
    }
}

/// The role of `owner` under `roles`: its assignment, or viewer when it has
/// none.
pub open spec fn role_in(roles: Map<Owner, Role>, owner: Owner) -> Role {
    if roles.contains_key(owner) {
        roles[owner]
    } else {
        Role::Viewer
    }
}

/// Role assignments and the designated super admin.
#[derive(Clone, Debug)]
pub struct RBACState {
    /// Role assignments.
    pub roles: KeyedMap<Owner, Role>,
    /// The super admin, whose role cannot be changed.
    pub super_admin: Option<Owner>,
}

impl RBACState {
    /// The assignments are a map, and the super admin holds the super admin
    /// role.
    pub open spec fn wf(&self) -> bool {
        &&& self.roles.wf()
        &&& self.super_admin matches Some(sa) ==> self.roles@.contains_key(sa)
            && self.roles@[sa] == Role::SuperAdmin
    }

    /// The role of `owner`.
    pub open spec fn role_of(&self, owner: Owner) -> Role {
        role_in(self.roles@, owner)
    }

    /// A state whose only assignment makes `super_admin` the super admin.
    pub fn new(super_admin: Owner) -> (r: RBACState)
        ensures
            r.wf(),
            r.super_admin == Some(super_admin),
            r.roles@ == map![super_admin => Role::SuperAdmin],
    {
        let mut roles: KeyedMap<Owner, Role> = KeyedMap::new();
        roles.insert(super_admin, Role::SuperAdmin);
        assert(roles@ =~= map![super_admin => Role::SuperAdmin]);
        RBACState { roles, super_admin: Some(super_admin) }
    }

    /// Whether `owner` is the designated super admin.
    fn is_super_admin(&self, owner: &Owner) -> (r: bool)
        ensures
            r == (self.super_admin == Some(*owner)),
    {
        match &self.super_admin {
            Some(sa) => sa.same_key(owner),
            None => false,
        }
    }

    /// The role of `owner` (viewer when unassigned).
    pub fn get_role(&self, owner: &Owner) -> (r: Role)
        requires
            self.wf(),
        ensures
            r == self.role_of(*owner),
    {
        match self.roles.get(owner) {
            Some(role) => *role,
            None => Role::Viewer,
        }
    }

    /// Assigns `role` to `owner`. Fails, changing nothing, when `owner` is
    /// the super admin and `role` is not super admin.
    pub fn assign_role(&mut self, owner: Owner, role: Role) -> (r: Result<(), RBACError>)
        requires
            old(self).wf(),
        ensures
            final(self).wf(),
            final(self).super_admin == old(self).super_admin,
            (old(self).super_admin == Some(owner) && role != Role::SuperAdmin) ==> r == Err::<
                (),
                RBACError,
            >(RBACError::CannotDemoteSuperAdmin) && *final(self) == *old(self),
            !(old(self).super_admin == Some(owner) && role != Role::SuperAdmin) ==> r is Ok
                && final(self).roles@ == old(self).roles@.insert(owner, role),
    {
        if self.is_super_admin(&owner) && role != Role::SuperAdmin {
            return Err(RBACError::CannotDemoteSuperAdmin);
        }
        self.roles.insert(owner, role);
        Ok(())
    }

    /// Removes the assignment of `owner`, who reverts to viewer. Fails,
    /// changing nothing, when `owner` is the super admin.
    pub fn remove_role(&mut self, owner: &Owner) -> (r: Result<(), RBACError>)
        requires
            old(self).wf(),
        ensures
            final(self).wf(),
            final(self).super_admin == old(self).super_admin,
            old(self).super_admin == Some(*owner) ==> r == Err::<(), RBACError>(
                RBACError::CannotDemoteSuperAdmin,
            ) && *final(self) == *old(self),
            old(self).super_admin != Some(*owner) ==> r is Ok && final(self).roles@ == old(
                self,
            ).roles@.remove(*owner),
    {
        if self.is_super_admin(owner) {
            return Err(RBACError::CannotDemoteSuperAdmin);
        }
        self.roles.remove(owner);
        Ok(())
    }

    /// Whether `owner`'s role grants `permission`.
    pub fn has_permission(&self, owner: &Owner, permission: &Permission) -> (r: bool)
        requires
            self.wf(),
        ensures
            r == role_grants(self.role_of(*owner), *permission),
    {
        let role = self.get_role(owner);
        Self::role_has_permission(&role, permission)
    }

    /// Whether `role` grants `permission` in the fixed table.
    pub fn role_has_permission(role: &Role, permission: &Permission) -> (r: bool)
        ensures
            r == role_grants(*role, *permission),
    {
        match role {
            Role::SuperAdmin => true,
            Role::Admin => match permission {
                Permission::AddApplication | Permission::RemoveApplication
                | Permission::CaptureEvents | Permission::ModifyMetrics | Permission::ViewData
                | Permission::ManageRoles | Permission::ControlIngestion => true,
                Permission::ConfigureSystem => false,
            },
            Role::Operator => match permission {
                Permission::AddApplication | Permission::RemoveApplication
                | Permission::CaptureEvents | Permission::ViewData => true,
                _ => false,
            },
            Role::DataIngester => match permission {
                Permission::CaptureEvents | Permission::ViewData => true,
                _ => false,
            },
            Role::Viewer => match permission {
                Permission::ViewData => true,
                _ => false,
            },
        }
    }

    /// Whether `caller` may manage `target` under the delegation rule.
    pub fn can_manage(&self, caller: &Owner, target: &Owner) -> (r: bool)
        requires
            self.wf(),
        ensures
            r == role_manages(self.role_of(*caller), self.role_of(*target)),
    {
        let caller_role = self.get_role(caller);
        let target_role = self.get_role(target);
        match caller_role {
            Role::SuperAdmin => true,
            Role::Admin => match target_role {
                Role::Operator | Role::DataIngester | Role::Viewer => true,
                _ => false,
            },
            _ => false,
        }
    }
}

} // verus!

verus! {

/// In a fresh state, the super admin holds every permission and every other
/// owner holds exactly the permission to view data.
pub proof fn lemma_fresh_state_permissions(state: RBACState, super_admin: Owner, other: Owner, permission: Permission)
    requires
        state.super_admin == Some(super_admin),
        state.roles@ == map![super_admin => Role::SuperAdmin],
        other != super_admin,
    ensures
        role_grants(state.role_of(super_admin), permission),
        role_grants(state.role_of(other), permission) == (permission == Permission::ViewData),
{
}

} // verus!
