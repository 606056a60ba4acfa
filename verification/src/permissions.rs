//! Permission snapshot and cache: decides whether a user may perform an
//! action, from a snapshot of user sets that is replaced wholesale by a
//! refresh and served unchanged while a refresh is unavailable.
//!
//! The snapshot holds plain username strings; loading it from the remote
//! team roster, and the clock, belong to the surrounding program, which
//! hands this module the loaded sets and the current time as plain values.

use vstd::prelude::*;

use crate::text::{contains_str, str_views};

verus! {

/// The two action classes the bot authorizes.
#[derive(Debug, Clone, Copy, PartialEq, Eq)]
pub enum PermissionType {
    /// Can approve pull requests for merging.
    Review,
    /// Can start a try build.
    Try,
}

/// For how long a permission snapshot stays fresh, in seconds.
pub const CACHE_DURATION_SECS: u64 = 60;

/// Model of a permission snapshot: the two sets of eligible usernames.
#[verifier::ext_equal]
pub struct PermissionsModel {
    pub review_users: Set<Seq<char>>,
    pub try_users: Set<Seq<char>>,
}

impl PermissionsModel {
    /// Whether `username` may perform actions of class `permission`.
    pub open spec fn allows(self, username: Seq<char>, permission: PermissionType) -> bool {
        match permission {
            PermissionType::Review => self.review_users.contains(username),
            PermissionType::Try => self.try_users.contains(username),
        }
    }
}

/// Decides if a user can perform various actions using the bot.
pub trait PermissionResolver {
    /// The authorization relation the resolver answers from.
    spec fn resolves(&self, username: Seq<char>, permission: PermissionType) -> bool;

    /// Answers whether `username` may perform actions of class `permission`.
    fn has_permission(&self, username: &str, permission: PermissionType) -> (r: bool)
        ensures
            r == self.resolves(username@, permission),
    ;
}

/// An immutable pair of user sets: who may review and who may try.
pub struct UserPermissions {
    review_users: Vec<String>,
    try_users: Vec<String>,
}

impl View for UserPermissions {
    type V = PermissionsModel;

    /// The two sets of usernames the snapshot holds.
    closed spec fn view(&self) -> PermissionsModel {
        PermissionsModel {
            review_users: str_views(self.review_users@).to_set(),
            try_users: str_views(self.try_users@).to_set(),
        }
    }
}

impl UserPermissions {
    /// Wraps the loaded user lists into a snapshot.
    pub fn new(review_users: Vec<String>, try_users: Vec<String>) -> (r: Self)
        ensures
            r@.review_users == str_views(review_users@).to_set(),
            r@.try_users == str_views(try_users@).to_set(),
    {
        UserPermissions { review_users, try_users }
    }

    /// Whether `username` is in the set that `permission` asks about.
    pub fn has_permission(&self, username: &str, permission: PermissionType) -> (r: bool)
        ensures
            r == self@.allows(username@, permission),
    {
        match permission {
            PermissionType::Review => contains_str(&self.review_users, username),
            PermissionType::Try => contains_str(&self.try_users, username),
        }
    }
}

impl PermissionResolver for UserPermissions {
    /// A bare snapshot resolves by its own membership.
    open spec fn resolves(&self, username: Seq<char>, permission: PermissionType) -> bool {
        self@.allows(username, permission)
    }

    fn has_permission(&self, username: &str, permission: PermissionType) -> (r: bool) {
        UserPermissions::has_permission(self, username, permission)
    }
}

/// Model of the cache: the current snapshot and when it was created, in
/// seconds.
#[verifier::ext_equal]
pub struct CacheModel {
    pub permissions: PermissionsModel,
    pub created_at: int,
}

/// The cache state right after a construction or a successful refresh at
/// `now`.
pub open spec fn spec_new_cache(permissions: PermissionsModel, now: int) -> CacheModel {
    CacheModel { permissions, created_at: now }
}

/// Whether a snapshot created at `c.created_at` is stale at `now`: its age
/// exceeds the cache duration, or the clock ran backwards.
pub open spec fn spec_is_stale(c: CacheModel, now: int) -> bool {
    now < c.created_at || now - c.created_at > CACHE_DURATION_SECS
}

/// What a refresh attempt leaves in the cache: a successful load replaces
/// the snapshot wholesale, a failed one leaves the cache untouched.
pub open spec fn spec_apply_refresh(
    c: CacheModel,
    outcome: Option<PermissionsModel>,
    now: int,
) -> CacheModel {
    match outcome {
        Option::Some(p) => spec_new_cache(p, now),
        Option::None => c,
    }
}

/// A permission snapshot together with its creation time.
pub struct CachedUserPermissions {
    permissions: UserPermissions,
    created_at: u64,
}

impl View for CachedUserPermissions {
    type V = CacheModel;

    closed spec fn view(&self) -> CacheModel {
        CacheModel { permissions: self.permissions@, created_at: self.created_at as int }
    }
}

impl CachedUserPermissions {
    /// Caches a freshly loaded snapshot, stamped with the current time.
    pub fn new(permissions: UserPermissions, now: u64) -> (r: Self)
        ensures
            r@ == spec_new_cache(permissions@, now as int),
    {
        CachedUserPermissions { permissions, created_at: now }
    }

    /// Whether the snapshot is too old to be trusted at `now`. A clock that
    /// ran backwards also counts as stale.
    pub fn is_stale(&self, now: u64) -> (r: bool)
        ensures
            r == spec_is_stale(self@, now as int),
    {
        now < self.created_at || now - self.created_at > CACHE_DURATION_SECS
    }

    /// Installs the outcome of a refresh attempt: a successful load replaces
    /// the snapshot, a failed one (`None`) keeps the previous snapshot so
    /// queries keep being answered.
    pub fn apply_refresh(&mut self, outcome: Option<UserPermissions>, now: u64)
        ensures
            final(self)@ == spec_apply_refresh(
                old(self)@,
                match outcome {
                    Option::Some(p) => Option::Some(p@),
                    Option::None => Option::None,
                },
                now as int,
            ),
    {
        match outcome {
            Option::Some(p) => {
                self.permissions = p;
                self.created_at = now;
            },
            Option::None => {},
        }
    }

    /// Answers an authorization query from the current snapshot, whatever
    /// its age: queries never fail.
    pub fn has_permission(&self, username: &str, permission: PermissionType) -> (r: bool)
        ensures
            r == self@.permissions.allows(username@, permission),
    {
        self.permissions.has_permission(username, permission)
    }
}

// ---------------------------------------------------------------------------
// Cache laws.
// ---------------------------------------------------------------------------

/// Immediately after construction the snapshot is fresh, so a query made
/// then triggers no refresh, and it answers by the initially loaded
/// membership.
pub proof fn lemma_query_after_construction(
    p: PermissionsModel,
    now: int,
    username: Seq<char>,
    permission: PermissionType,
)
    ensures
        !spec_is_stale(spec_new_cache(p, now), now),
        spec_new_cache(p, now).permissions.allows(username, permission) == p.allows(
            username,
            permission,
        ),
{
}

/// After a successful refresh the cache answers by the new snapshot's
/// membership alone, whatever the old snapshot held.
pub proof fn lemma_refresh_success_replaces(
    c: CacheModel,
    p: PermissionsModel,
    now: int,
    username: Seq<char>,
    permission: PermissionType,
)
    ensures
        spec_apply_refresh(c, Option::Some(p), now).permissions.allows(username, permission)
            == p.allows(username, permission),
        !spec_is_stale(spec_apply_refresh(c, Option::Some(p), now), now),
{
}

/// A failed refresh leaves the cache exactly as it was: a query right after
/// is still answered, from the previous snapshot.
pub proof fn lemma_refresh_failure_keeps_snapshot(
    c: CacheModel,
    now: int,
    username: Seq<char>,
    permission: PermissionType,
)
    ensures
        spec_apply_refresh(c, Option::None, now) == c,
        spec_apply_refresh(c, Option::None, now).permissions.allows(username, permission)
            == c.permissions.allows(username, permission),
{
}

} // verus!
