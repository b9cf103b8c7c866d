use winx_code_agent::error::WinxError;
use winx_code_agent::security::{Action, Role, RoleBasedAccess, SecurityManager};

fn message(e: &WinxError) -> String {
    e.to_text().unwrap()
}

#[test]
fn test_default_role_reads_but_does_not_write() {
    let access = RoleBasedAccess::new();
    assert!(access.check_permission("anyone", &Action::ReadFile, None));
    assert!(access.check_permission("anyone", &Action::SaveContext, Some("/etc/passwd")));
    assert!(!access.check_permission("anyone", &Action::WriteFile, None));
    assert!(!access.check_permission("anyone", &Action::ExecuteCommand, Some("/tmp")));
}

#[test]
fn test_assign_unknown_role_is_refused() {
    let mut access = RoleBasedAccess::default();
    let err = access.assign_role("alice", "ghost").unwrap_err();
    assert!(matches!(err, WinxError::InvalidArgument { .. }));
    assert_eq!(message(&err), "Invalid argument: Role 'ghost' does not exist");
    assert!(!access.check_permission("alice", &Action::WriteFile, None));
}

#[test]
fn test_assigned_admin_role_decides() {
    let mut access = RoleBasedAccess::new();
    access.add_role(SecurityManager::create_admin_role());
    access.assign_role("alice", "admin").unwrap();
    assert!(access.check_permission("alice", &Action::WriteFile, Some("/any/where")));
    assert!(access.check_permission("alice", &Action::AccessEnvironment, None));
    // Other users keep the default role.
    assert!(!access.check_permission("bob", &Action::WriteFile, None));
    // Reassigning replaces the earlier assignment.
    access.add_role(SecurityManager::create_readonly_role());
    access.assign_role("alice", "readonly").unwrap();
    assert!(!access.check_permission("alice", &Action::WriteFile, None));
    assert!(access.check_permission("alice", &Action::ExecuteCommand, None));
}

#[test]
fn test_add_role_replaces_same_name() {
    let mut access = RoleBasedAccess::new();
    let mut role = Role::default();
    role.allowed_actions.push(Action::WriteFile);
    access.add_role(role);
    // The default role now allows writing and no longer reading.
    assert!(access.check_permission("x", &Action::WriteFile, None));
    assert!(!access.check_permission("x", &Action::ReadFile, None));
}

#[test]
fn test_denied_and_allowed_paths_compare_components() {
    let mut access = RoleBasedAccess::new();
    let mut role = Role::default();
    role.name = "dev".to_string();
    role.allowed_actions.push(Action::EditFile);
    role.allowed_paths.push("/home/dev".to_string());
    role.denied_paths.push("/home/dev/secret".to_string());
    access.add_role(role);
    access.assign_role("dev", "dev").unwrap();
    assert!(access.check_permission("dev", &Action::EditFile, Some("/home/dev/src/main.rs")));
    assert!(!access.check_permission("dev", &Action::EditFile, Some("/home/dev/secret/key")));
    // "/home/developer" does not lie under "/home/dev".
    assert!(!access.check_permission("dev", &Action::EditFile, Some("/home/developer/x")));
    assert!(!access.check_permission("dev", &Action::EditFile, Some("/etc/hosts")));
    // Without a path only the action counts.
    assert!(access.check_permission("dev", &Action::EditFile, None));
}

#[test]
fn test_manager_refusal_messages() {
    let manager = SecurityManager::new();
    let err = manager.check_permission("bob", Action::WriteFile, Some("/tmp/x")).unwrap_err();
    assert!(matches!(err, WinxError::PermissionDenied { .. }));
    assert_eq!(
        message(&err),
        "Permission denied: User 'bob' does not have permission for action 'WriteFile' on path 'Some(\"/tmp/x\")'"
    );
    let err = manager.check_permission("bob", Action::LoadPlugin, None).unwrap_err();
    assert_eq!(
        message(&err),
        "Permission denied: User 'bob' does not have permission for action 'LoadPlugin' on path 'None'"
    );
    assert!(manager.check_permission("bob", Action::ReadFile, Some("/tmp/x")).is_ok());
}

#[test]
fn test_sandbox_limits_paths() {
    let mut manager = SecurityManager::with_settings(false, vec!["/work".to_string()], vec![], true);
    assert!(manager.is_sandboxed());
    assert!(manager.check_permission("u", Action::ReadFile, Some("/work/a.txt")).is_ok());
    let err = manager.check_permission("u", Action::ReadFile, Some("/etc/a.txt")).unwrap_err();
    assert_eq!(
        message(&err),
        "Permission denied: Access to path '/etc/a.txt' is not allowed in sandboxed mode"
    );
    manager.add_allowed_path("/etc".to_string());
    assert!(manager.check_permission("u", Action::ReadFile, Some("/etc/a.txt")).is_ok());
    manager.set_sandboxed(false);
    assert!(manager.check_permission("u", Action::ReadFile, Some("/var/a.txt")).is_ok());
}

#[test]
fn test_hosts() {
    let mut manager = SecurityManager::default();
    assert!(manager.is_host_allowed("example.com"));
    manager.add_allowed_host("api.example.com".to_string());
    manager.add_allowed_host("api.example.com".to_string());
    assert!(manager.is_host_allowed("api.example.com"));
    assert!(!manager.is_host_allowed("example.com"));
}

#[test]
fn test_plugin_signatures_and_role_access() {
    let mut manager = SecurityManager::new();
    let err = manager.verify_plugin_signature("plugin.wasm").unwrap_err();
    assert_eq!(message(&err), "Plugin signature verification not yet implemented");
    manager.set_verify_signatures(false);
    assert_eq!(manager.verify_plugin_signature("plugin.wasm").unwrap(), true);
    manager.get_role_based_access().add_role(SecurityManager::create_admin_role());
    manager.get_role_based_access().assign_role("root", "admin").unwrap();
    assert!(manager.check_permission("root", Action::WriteFile, Some("/x")).is_ok());
}

#[test]
fn test_readonly_role_contents() {
    let role = SecurityManager::create_readonly_role();
    assert_eq!(role.name, "readonly");
    assert_eq!(role.allowed_commands, vec!["ls", "pwd", "cat", "grep", "find"]);
    assert_eq!(role.allowed_actions.len(), 3);
    let admin = SecurityManager::create_admin_role();
    assert_eq!(admin.allowed_actions.len(), 9);
}
