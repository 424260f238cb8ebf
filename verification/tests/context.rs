use tiny_ai_shell::context::{branch_from_head, default_context, gather};

fn names(n: usize) -> Vec<String> {
    (0..n).map(|i| format!("file{}", i)).collect()
}

#[test]
fn test_gather_os_is_linux() {
    let ctx = gather("/home/user".to_string(), names(3), None);
    assert_eq!(ctx.os, "linux");
}

#[test]
fn test_gather_pwd_is_nonempty() {
    let ctx = gather("/home/user".to_string(), names(3), None);
    assert!(!ctx.pwd.is_empty());
}

#[test]
fn test_gather_files_at_most_20() {
    let ctx = gather("/home/user".to_string(), names(25), None);
    assert!(ctx.files.len() <= 20);
    assert_eq!(ctx.files, names(20));
    let ctx = gather("/home/user".to_string(), names(5), None);
    assert_eq!(ctx.files, names(5));
}

#[test]
fn test_is_git_detection() {
    let branch = branch_from_head("ref: refs/heads/main\n");
    assert_eq!(branch, Some("main".to_string()));
    let ctx = gather("/repo".to_string(), vec![], Some("ref: refs/heads/main\n".to_string()));
    assert_eq!(ctx.branch, Some("main".to_string()));
}

#[test]
fn test_branch_detached_head() {
    let branch = branch_from_head("abc1234def5678abc1234def5678abc1234def56\n");
    assert_eq!(branch, None);
}

#[test]
fn test_default_context() {
    let ctx = default_context();
    assert_eq!(ctx.os, "linux");
    assert!(ctx.pwd.is_empty());
    assert!(ctx.files.is_empty());
    assert!(ctx.branch.is_none());
}

#[test]
fn no_repository_no_branch() {
    let ctx = gather("/tmp".to_string(), vec![], None);
    assert!(ctx.branch.is_none());
    assert_eq!(branch_from_head("  ref: refs/heads/feature/x  "), Some("feature/x".to_string()));
}
