use docstore::registry::{RegistryError, WorkspaceRegistry};

#[test]
fn created_workspace_ids_follow_the_serial_counter() {
    let mut registry = WorkspaceRegistry::new();
    let w0 = registry
        .create_normal_workspace(String::from("u1"))
        .unwrap();
    let w1 = registry
        .create_normal_workspace(String::from("u1"))
        .unwrap();
    assert_eq!(w0.id, String::from("ws-0"));
    assert_eq!(w1.id, String::from("ws-1"));
}

#[test]
fn creating_twice_yields_two_distinct_ids_and_both_are_listed() {
    let mut registry = WorkspaceRegistry::new();
    let user = String::from("alice");
    let w0 = registry.create_normal_workspace(user.clone()).unwrap();
    let w1 = registry.create_normal_workspace(user.clone()).unwrap();
    assert_ne!(w0.id, w1.id);
    let listed = registry.get_user_workspaces(&user).unwrap();
    assert_eq!(listed.len(), 2);
    assert_eq!(listed[0].id, w0.id);
    assert_eq!(listed[1].id, w1.id);
}

#[test]
fn listing_filters_by_owner_in_creation_order() {
    let mut registry = WorkspaceRegistry::new();
    let alice = String::from("alice");
    let bob = String::from("bob");
    let a0 = registry.create_normal_workspace(alice.clone()).unwrap();
    let b0 = registry.create_normal_workspace(bob.clone()).unwrap();
    let a1 = registry.create_normal_workspace(alice.clone()).unwrap();
    let for_alice = registry.get_user_workspaces(&alice).unwrap();
    assert_eq!(for_alice.len(), 2);
    assert_eq!(for_alice[0].id, a0.id);
    assert_eq!(for_alice[1].id, a1.id);
    assert_eq!(for_alice[0].owner_user_id, alice);
    let for_bob = registry.get_user_workspaces(&bob).unwrap();
    assert_eq!(for_bob.len(), 1);
    assert_eq!(for_bob[0].id, b0.id);
}

#[test]
fn listing_for_user_without_workspaces_is_empty() {
    let registry = WorkspaceRegistry::new();
    let listed = registry.get_user_workspaces(&String::from("nobody")).unwrap();
    assert!(listed.is_empty());
}

#[test]
fn failed_backend_fails_create_and_list() {
    let mut registry = WorkspaceRegistry::new_unavailable();
    let user = String::from("alice");
    assert!(matches!(
        registry.create_normal_workspace(user.clone()),
        Err(RegistryError::Backend)
    ));
    assert!(matches!(
        registry.get_user_workspaces(&user),
        Err(RegistryError::Backend)
    ));
}

#[test]
fn registry_error_message() {
    assert_eq!(
        RegistryError::Backend.message(),
        String::from("workspace registry backend unavailable")
    );
}

#[test]
fn update_workspace_is_a_no_op_success() {
    let registry = WorkspaceRegistry::new();
    assert!(registry.update_workspace());
}
