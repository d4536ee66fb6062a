use gpui_docs::sources::{
    cache_dir_from, is_safe_source_id, remote_checkout_rev, remotes, repo_dir, resolve_zed_rev,
    CacheDirError, ZED_PINNED_REV,
};

#[test]
fn rejects_traversal_ids() {
    assert!(!is_safe_source_id("../x"));
    assert!(!is_safe_source_id("a/b"));
    assert!(!is_safe_source_id("-evil"));
    assert!(is_safe_source_id("book"));
}

#[test]
fn zed_rev_defaults_to_pin() {
    assert_eq!(resolve_zed_rev(None).as_deref(), Some(ZED_PINNED_REV));
    assert_eq!(resolve_zed_rev(Some("")).as_deref(), Some(ZED_PINNED_REV));
    assert_eq!(resolve_zed_rev(Some("  abcdef1  ")).as_deref(), Some("abcdef1"));
    assert_eq!(resolve_zed_rev(Some("HEAD")), None);
    assert_eq!(resolve_zed_rev(Some("main")), None);
    assert_eq!(resolve_zed_rev(Some("master")), None);
}

#[test]
fn zed_remote_declares_the_pin() {
    let all = remotes();
    let zed = all.iter().find(|r| r.id == "zed-gpui").unwrap();
    assert_eq!(zed.rev, Some(ZED_PINNED_REV));
    assert_eq!(zed.sparse, vec!["crates/gpui"]);
}

#[test]
fn more_ids_and_repo_dirs() {
    assert!(!is_safe_source_id(""));
    assert!(!is_safe_source_id("a\\b"));
    assert!(!is_safe_source_id("a..b"));
    assert!(is_safe_source_id("gpui-component"));
    assert_eq!(repo_dir("/c", "book").unwrap(), "/c/src/book");
    let err = repo_dir("/c", "../x").unwrap_err();
    assert_eq!(err.id, "../x");
    assert_eq!(err.message(), "invalid source id \"../x\"");
}

#[test]
fn zed_rev_names_are_case_insensitive_and_blank_is_the_pin() {
    assert_eq!(resolve_zed_rev(Some("Main")), None);
    assert_eq!(resolve_zed_rev(Some("head")), None);
    assert_eq!(resolve_zed_rev(Some("   ")).as_deref(), Some(ZED_PINNED_REV));
}

#[test]
fn checkout_rev_per_remote() {
    let all = remotes();
    assert_eq!(all.len(), 5);
    let ids: Vec<&str> = all.iter().map(|r| r.id).collect();
    assert_eq!(ids, vec!["book", "tutorial", "gpui-component", "zed-gpui", "awesome"]);
    assert_eq!(remote_checkout_rev(&all[0], Some("abc1234")), None);
    assert_eq!(remote_checkout_rev(&all[3], Some("abc1234")).as_deref(), Some("abc1234"));
    assert_eq!(remote_checkout_rev(&all[3], Some("HEAD")), None);
    assert_eq!(remote_checkout_rev(&all[3], None).as_deref(), Some(ZED_PINNED_REV));
}

#[test]
fn cache_dir_preference_order() {
    assert_eq!(cache_dir_from(Some("/x"), Some("/xdg"), Some("/h")).unwrap(), "/x");
    assert_eq!(cache_dir_from(Some(""), Some("/xdg"), None).unwrap_err(), CacheDirError::EmptyOverride);
    assert_eq!(cache_dir_from(None, Some("/xdg"), Some("/h")).unwrap(), "/xdg/mcp-server-gpui-docs");
    assert_eq!(cache_dir_from(None, Some(""), Some("/h")).unwrap(), "/h/.cache/mcp-server-gpui-docs");
    let e = cache_dir_from(None, None, Some("")).unwrap_err();
    assert_eq!(e, CacheDirError::NoHome);
    assert_eq!(cache_dir_from(None, None, None).unwrap_err(), CacheDirError::NoHome);
    assert!(e.message().contains("refusing world-writable /tmp"));
    assert_eq!(CacheDirError::EmptyOverride.message(), "GPUI_MCP_CACHE is empty");
}
