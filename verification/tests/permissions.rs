use bors::permissions::{
    CachedUserPermissions, PermissionResolver, PermissionType, UserPermissions,
    CACHE_DURATION_SECS,
};

fn snapshot(review: &[&str], try_users: &[&str]) -> UserPermissions {
    UserPermissions::new(
        review.iter().map(|s| s.to_string()).collect(),
        try_users.iter().map(|s| s.to_string()).collect(),
    )
}

#[test]
fn permissions_membership() {
    let perms = snapshot(&["alice"], &["alice", "bob"]);
    assert!(perms.has_permission("alice", PermissionType::Review));
    assert!(perms.has_permission("alice", PermissionType::Try));
    assert!(!perms.has_permission("bob", PermissionType::Review));
    assert!(perms.has_permission("bob", PermissionType::Try));
    assert!(!perms.has_permission("mallory", PermissionType::Review));
    assert!(!perms.has_permission("mallory", PermissionType::Try));
}

#[test]
fn permissions_as_resolver() {
    let perms = snapshot(&["alice"], &[]);
    let resolver: &dyn PermissionResolver = &perms;
    assert!(resolver.has_permission("alice", PermissionType::Review));
    assert!(!resolver.has_permission("alice", PermissionType::Try));
}

#[test]
fn cache_fresh_after_construction() {
    let cache = CachedUserPermissions::new(snapshot(&["alice"], &[]), 1000);
    assert!(!cache.is_stale(1000));
    assert!(cache.has_permission("alice", PermissionType::Review));
    assert!(!cache.has_permission("bob", PermissionType::Review));
}

#[test]
fn cache_stale_only_after_duration() {
    let cache = CachedUserPermissions::new(snapshot(&[], &[]), 1000);
    assert!(!cache.is_stale(1000 + CACHE_DURATION_SECS));
    assert!(cache.is_stale(1000 + CACHE_DURATION_SECS + 1));
}

#[test]
fn cache_stale_when_clock_runs_backwards() {
    let cache = CachedUserPermissions::new(snapshot(&[], &[]), 1000);
    assert!(cache.is_stale(999));
}

#[test]
fn cache_refresh_success_replaces_snapshot() {
    let mut cache = CachedUserPermissions::new(snapshot(&["alice"], &[]), 1000);
    let later = 1000 + CACHE_DURATION_SECS + 1;
    assert!(cache.is_stale(later));
    cache.apply_refresh(Some(snapshot(&["bob"], &[])), later);
    assert!(!cache.is_stale(later));
    assert!(!cache.has_permission("alice", PermissionType::Review));
    assert!(cache.has_permission("bob", PermissionType::Review));
}

#[test]
fn cache_refresh_failure_keeps_serving_old_snapshot() {
    let mut cache = CachedUserPermissions::new(snapshot(&["alice"], &["carol"]), 1000);
    let later = 1000 + CACHE_DURATION_SECS + 1;
    cache.apply_refresh(None, later);
    assert!(cache.has_permission("alice", PermissionType::Review));
    assert!(cache.has_permission("carol", PermissionType::Try));
    assert!(cache.is_stale(later));
}
