use pine_analytics::ids::Owner;
use pine_analytics::rbac::{Permission, RBACError, RBACState, Role};

fn test_owner(id: u8) -> Owner {
    Owner::Address20([id; 20])
}

#[test]
fn test_super_admin_has_all_permissions() {
    let admin = test_owner(1);
    let state = RBACState::new(admin.clone());

    assert!(state.has_permission(&admin, &Permission::AddApplication));
    assert!(state.has_permission(&admin, &Permission::ManageRoles));
    assert!(state.has_permission(&admin, &Permission::ConfigureSystem));
}

#[test]
fn test_viewer_only_has_view_permission() {
    let admin = test_owner(1);
    let viewer = test_owner(2);
    let state = RBACState::new(admin);

    assert!(state.has_permission(&viewer, &Permission::ViewData));
    assert!(!state.has_permission(&viewer, &Permission::AddApplication));
    assert!(!state.has_permission(&viewer, &Permission::CaptureEvents));
}

#[test]
fn test_cannot_demote_super_admin() {
    let admin = test_owner(1);
    let mut state = RBACState::new(admin.clone());

    let result = state.assign_role(admin, Role::Viewer);
    assert!(matches!(result, Err(RBACError::CannotDemoteSuperAdmin)));
}

const ALL: [Permission; 8] = [
    Permission::AddApplication,
    Permission::RemoveApplication,
    Permission::CaptureEvents,
    Permission::ModifyMetrics,
    Permission::ConfigureSystem,
    Permission::ViewData,
    Permission::ManageRoles,
    Permission::ControlIngestion,
];

#[test]
fn fresh_state_super_admin_all_viewer_only_view() {
    let admin = test_owner(1);
    let state = RBACState::new(admin);
    for p in ALL.iter() {
        assert!(state.has_permission(&admin, p));
        assert_eq!(state.has_permission(&test_owner(3), p), *p == Permission::ViewData);
    }
}

#[test]
fn permission_table_is_fixed() {
    let count = |r: Role| ALL.iter().filter(|p| RBACState::role_has_permission(&r, p)).count();
    assert_eq!(count(Role::SuperAdmin), 8);
    assert_eq!(count(Role::Admin), 7);
    assert!(!RBACState::role_has_permission(&Role::Admin, &Permission::ConfigureSystem));
    assert_eq!(count(Role::Operator), 4);
    assert!(!RBACState::role_has_permission(&Role::Operator, &Permission::ModifyMetrics));
    assert_eq!(count(Role::DataIngester), 2);
    assert!(RBACState::role_has_permission(&Role::DataIngester, &Permission::CaptureEvents));
    assert_eq!(count(Role::Viewer), 1);
}

#[test]
fn super_admin_cannot_be_removed_but_others_revert_to_viewer() {
    let admin = test_owner(1);
    let other = test_owner(2);
    let mut state = RBACState::new(admin);
    assert!(matches!(state.remove_role(&admin), Err(RBACError::CannotDemoteSuperAdmin)));
    assert_eq!(state.get_role(&admin), Role::SuperAdmin);
    assert!(state.assign_role(other, Role::Operator).is_ok());
    assert_eq!(state.get_role(&other), Role::Operator);
    assert!(state.remove_role(&other).is_ok());
    assert_eq!(state.get_role(&other), Role::Viewer);
    assert!(state.assign_role(admin, Role::SuperAdmin).is_ok());
}

#[test]
fn delegation_rule() {
    let sa = test_owner(1);
    let admin = test_owner(2);
    let admin2 = test_owner(3);
    let op = test_owner(4);
    let ing = test_owner(5);
    let viewer = test_owner(6);
    let mut state = RBACState::new(sa);
    state.assign_role(admin, Role::Admin).unwrap();
    state.assign_role(admin2, Role::Admin).unwrap();
    state.assign_role(op, Role::Operator).unwrap();
    state.assign_role(ing, Role::DataIngester).unwrap();
    assert!(state.can_manage(&sa, &admin));
    assert!(state.can_manage(&sa, &sa));
    assert!(state.can_manage(&admin, &op));
    assert!(state.can_manage(&admin, &ing));
    assert!(state.can_manage(&admin, &viewer));
    assert!(!state.can_manage(&admin, &admin2));
    assert!(!state.can_manage(&admin, &sa));
    assert!(!state.can_manage(&op, &viewer));
    assert!(!state.can_manage(&viewer, &viewer));
}
