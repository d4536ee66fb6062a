use gpui_docs::sync::{
    example_roots, git_rev, gpui_crate, oracle_summary, plan_sync, revs_comparable_exec,
    same_git_rev, stderr_excerpt, sync_log, zed_root, SyncStep,
};

#[test]
fn same_git_rev_accepts_prefix() {
    let full = "d9ad6aff67e47de43abb270d22de75dd950f1b48";
    assert!(same_git_rev(full, full));
    assert!(same_git_rev(full, "d9ad6af"));
    assert!(same_git_rev("d9ad6af", full));
    assert!(!same_git_rev(full, "6e2fae619c45"));
    assert!(!same_git_rev("abc", "abcdef1"));
    assert!(!same_git_rev("", full));
}

#[test]
fn same_git_rev_ignores_ascii_case() {
    assert!(same_git_rev("D9AD6AFF", "d9ad6aff67e4"));
    assert!(!same_git_rev("d9ad6a", "d9ad6a"));
    assert!(revs_comparable_exec("d9ad6af", "d9ad6aff"));
    assert!(!revs_comparable_exec("aaaaaaaé", "aaaaaaaa"));
}

#[test]
fn layout_of_the_zed_checkout() {
    assert_eq!(zed_root("/c"), "/c/src/zed-gpui");
    assert_eq!(gpui_crate("/c"), "/c/src/zed-gpui/crates/gpui");
    let roots = example_roots("/c");
    assert_eq!(roots[0], ("zed-gpui".to_string(), "/c/src/zed-gpui".to_string()));
    assert_eq!(roots[1], ("tutorial".to_string(), "/c/src/tutorial".to_string()));
    assert_eq!(roots[2], ("gpui-component".to_string(), "/c/src/gpui-component".to_string()));
    assert_eq!(git_rev("  d9ad6af\n"), "d9ad6af");
}

#[test]
fn oracle_summary_cuts_the_commit() {
    assert_eq!(
        oracle_summary(12, 3, "d9ad6aff67e47de43abb270d22de75dd950f1b48"),
        "[oracle] 12 symbols, 3 examples, zed d9ad6aff67e4"
    );
    assert_eq!(oracle_summary(0, 0, ""), "[oracle] 0 symbols, 0 examples, zed ");
}

#[test]
fn plans_each_kind_of_sync() {
    assert!(matches!(plan_sync(true, false, Some("abc")), SyncStep::CheckoutPinned(r) if r == "abc"));
    assert!(matches!(plan_sync(true, true, None), SyncStep::Pull));
    assert!(matches!(plan_sync(false, true, Some("abc")), SyncStep::CloneFull(Some(r)) if r == "abc"));
    assert!(matches!(plan_sync(false, false, None), SyncStep::CloneSparse(None)));
}

#[test]
fn sync_log_lines() {
    let results = vec![
        ("book".to_string(), Ok("pulled".to_string())),
        ("zed-gpui".to_string(), Err("git fetch failed".to_string())),
    ];
    let log = sync_log(&results, &Ok("[oracle] 1 symbols, 0 examples, zed abc".to_string()));
    assert_eq!(log, "[book] pulled\n[zed-gpui] ERROR: git fetch failed\n[oracle] 1 symbols, 0 examples, zed abc");
    let log = sync_log(&Vec::new(), &Err("boom".to_string()));
    assert_eq!(log, "[oracle] ERROR: boom");
}

#[test]
fn stderr_is_trimmed_and_capped() {
    assert_eq!(stderr_excerpt("  fatal: x \n"), "fatal: x");
    let long = "é".repeat(900);
    assert_eq!(stderr_excerpt(&long).chars().count(), 800);
}

#[test]
fn same_git_rev_is_symmetric() {
    let pairs = [
        ("d9ad6aff67e47de43abb270d22de75dd950f1b48", "d9ad6af"),
        ("D9AD6AFF", "d9ad6aff67e4"),
        ("d9ad6a", "d9ad6aff67e4"),
        ("abcdef012", "abcdef013"),
    ];
    for (a, b) in pairs {
        assert_eq!(same_git_rev(a, b), same_git_rev(b, a));
    }
    assert!(same_git_rev("d9ad6aff67e47de43abb270d22de75dd950f1b48", "d9ad6af"));
    assert!(!same_git_rev("d9ad6a", "d9ad6aff67e4"));
}
