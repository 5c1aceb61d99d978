use plugin_host::identity::PluginIdentity;
use plugin_host::registry::{CapabilityRegistry, IssueError};

fn vocab() -> Vec<String> {
    vec![
        "perm:x".to_string(),
        "window:allow-is-fullscreen".to_string(),
        "shell:allow-execute".to_string(),
    ]
}

fn subject(window: &str, webview: &str) -> PluginIdentity {
    PluginIdentity::from_labels(window.to_string(), webview.to_string())
}

#[test]
fn deny_by_default_for_unknown_subject() {
    let reg = CapabilityRegistry::new(vocab());
    let perms = reg.permissions_of(&subject("never-granted", ""));
    assert!(perms.is_empty());
}

#[test]
fn deny_by_default_after_other_grants() {
    let mut reg = CapabilityRegistry::new(vocab());
    let r = reg.issue(subject("win-a", ""), vec!["perm:x".to_string()]);
    assert!(r.is_ok());
    let perms = reg.permissions_of(&subject("win-b", ""));
    assert!(perms.is_empty());
}

#[test]
fn unknown_permission_is_rejected_without_partial_grant() {
    let mut reg = CapabilityRegistry::new(vocab());
    let r = reg.issue(
        subject("win-a", ""),
        vec!["perm:x".to_string(), "perm:not-in-vocabulary".to_string()],
    );
    assert_eq!(r, Err(IssueError::UnknownPermission));
    // No partial grant was recorded: the subject still has no permissions.
    let perms = reg.permissions_of(&subject("win-a", ""));
    assert!(perms.is_empty());
    assert!(!reg.has_grant(&subject("win-a", "")));
}

#[test]
fn duplicate_subject_is_rejected() {
    let mut reg = CapabilityRegistry::new(vocab());
    assert!(reg.issue(subject("win-a", ""), vec!["perm:x".to_string()]).is_ok());
    let r = reg.issue(subject("win-a", ""), vec!["shell:allow-execute".to_string()]);
    assert_eq!(r, Err(IssueError::DuplicateSubject));
    // The original grant is untouched.
    let perms = reg.permissions_of(&subject("win-a", ""));
    assert_eq!(perms, vec!["perm:x".to_string()]);
}

#[test]
fn issued_permissions_are_returned() {
    let mut reg = CapabilityRegistry::new(vocab());
    let wanted = vec!["perm:x".to_string(), "window:allow-is-fullscreen".to_string()];
    assert!(reg.issue(subject("win-a", "view-a"), wanted.clone()).is_ok());
    let perms = reg.permissions_of(&subject("win-a", "view-a"));
    assert_eq!(perms, wanted);
}

#[test]
fn webview_label_distinguishes_subjects() {
    let mut reg = CapabilityRegistry::new(vocab());
    assert!(reg.issue(subject("win-a", "view-a"), vec!["perm:x".to_string()]).is_ok());
    assert!(reg.permissions_of(&subject("win-a", "")).is_empty());
    assert!(reg.permissions_of(&subject("win-a", "view-b")).is_empty());
    assert!(!reg.permissions_of(&subject("win-a", "view-a")).is_empty());
}

#[test]
fn revoke_reports_and_is_idempotent() {
    let mut reg = CapabilityRegistry::new(vocab());
    assert!(reg.issue(subject("win-a", ""), vec!["perm:x".to_string()]).is_ok());
    assert!(reg.revoke(&subject("win-a", "")));
    assert!(reg.permissions_of(&subject("win-a", "")).is_empty());
    // A second revoke finds nothing and reports so, without an error.
    assert!(!reg.revoke(&subject("win-a", "")));
}

#[test]
fn revoke_leaves_other_grants_alone() {
    let mut reg = CapabilityRegistry::new(vocab());
    assert!(reg.issue(subject("win-a", ""), vec!["perm:x".to_string()]).is_ok());
    assert!(reg.issue(subject("win-b", ""), vec!["shell:allow-execute".to_string()]).is_ok());
    assert!(reg.revoke(&subject("win-a", "")));
    assert_eq!(
        reg.permissions_of(&subject("win-b", "")),
        vec!["shell:allow-execute".to_string()]
    );
}

#[test]
fn revoke_then_reissue_succeeds() {
    let mut reg = CapabilityRegistry::new(vocab());
    assert!(reg.issue(subject("win-a", ""), vec!["perm:x".to_string()]).is_ok());
    assert!(reg.revoke(&subject("win-a", "")));
    assert!(reg.issue(subject("win-a", ""), vec!["shell:allow-execute".to_string()]).is_ok());
    assert_eq!(
        reg.permissions_of(&subject("win-a", "")),
        vec!["shell:allow-execute".to_string()]
    );
}

#[test]
fn expose_requires_committed_grant() {
    let mut reg = CapabilityRegistry::new(vocab());
    let mut exposed: Vec<PluginIdentity> = Vec::new();
    // Before the grant is committed the surface may not be shown.
    assert!(!plugin_host::expose_surface(&reg, &mut exposed, subject("win-a", "")));
    assert!(exposed.is_empty());
    assert!(reg.issue(subject("win-a", ""), vec!["perm:x".to_string()]).is_ok());
    assert!(plugin_host::expose_surface(&reg, &mut exposed, subject("win-a", "")));
    assert_eq!(exposed.len(), 1);
}

#[test]
fn single_permission_helper_issues_one_permission() {
    let mut reg = CapabilityRegistry::new(vocab());
    let r = plugin_host::issue_single_capability(
        &mut reg,
        "toolbox-plugin-window-plugin-b".to_string(),
        "toolbox-plugin-webview-plugin-b".to_string(),
        "window:allow-is-fullscreen".to_string(),
    );
    assert!(r.is_ok());
    let perms = reg.permissions_of(&subject(
        "toolbox-plugin-window-plugin-b",
        "toolbox-plugin-webview-plugin-b",
    ));
    assert_eq!(perms, vec!["window:allow-is-fullscreen".to_string()]);
}

#[test]
fn single_permission_helper_rejects_unknown_permission() {
    let mut reg = CapabilityRegistry::new(vocab());
    let r = plugin_host::issue_single_capability(
        &mut reg,
        "win-a".to_string(),
        "".to_string(),
        "perm:not-in-vocabulary".to_string(),
    );
    assert_eq!(r, Err(IssueError::UnknownPermission));
}
