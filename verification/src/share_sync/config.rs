//! Subscriptions to shares.
use vstd::prelude::*;

use crate::share_sync::diff::{LocalTarget, NetdiskTarget, SyncTarget};
use crate::text;
use crate::text::{copy_opt, copy_texts};

verus! {

/// When a subscription is polled.
#[derive(Debug, Clone, Copy, PartialEq, Eq, Structural)]
pub struct PollConfig {
    pub enabled: bool,
    /// Seconds between two polls; zero for none.
    pub interval_secs: u64,
}

/// A share that is kept in step with some directories.
#[derive(Debug)]
pub struct ShareSubscription {
    pub id: String,
    pub name: String,
    pub share_url: String,
    pub password: Option<String>,
    pub include_paths: Vec<String>,
    pub exclude_patterns: Vec<String>,
    pub targets: Vec<SyncTarget>,
    pub enabled: bool,
    pub poll_config: PollConfig,
    /// The account that the subscription belongs to; zero for none yet.
    pub owner_uid: u64,
    /// Seconds since the Unix epoch.
    pub created_at: i64,
    pub updated_at: i64,
    /// Whether the link was found to be dead. It is not polled then.
    pub link_invalid: bool,
    pub link_invalid_reason: Option<String>,
    pub consecutive_link_failures: u32,
}

fn copy_target(t: &SyncTarget) -> (r: SyncTarget)
    ensures
        r == *t,
{
    match t {
        SyncTarget::Local(l) => SyncTarget::Local(LocalTarget { local_path: l.local_path.clone() }),
        SyncTarget::Netdisk(n) => SyncTarget::Netdisk(
            NetdiskTarget { remote_path: n.remote_path.clone() },
        ),
    }
}

fn copy_targets(v: &Vec<SyncTarget>) -> (r: Vec<SyncTarget>)
    ensures
        r@ == v@,
{
    let mut r: Vec<SyncTarget> = Vec::new();
    let mut i: usize = 0;
    while i < v.len()
        invariant
            i <= v@.len(),
            r@ == v@.take(i as int),
        decreases v@.len() - i,
    {
        r.push(copy_target(&v[i]));
        i += 1;
        assert(v@.take(i as int) =~= v@.take(i - 1).push(v@[i - 1]));
    }
    assert(v@.take(i as int) =~= v@);
    r
}

/// What a `ShareSubscription` holds.
#[verifier::ext_equal]
pub struct SubscriptionView {
    pub id: Seq<char>,
    pub name: Seq<char>,
    pub share_url: Seq<char>,
    pub password: Option<Seq<char>>,
    pub include_paths: Seq<Seq<char>>,
    pub exclude_patterns: Seq<Seq<char>>,
    pub targets: Seq<SyncTarget>,
    pub enabled: bool,
    pub poll_config: PollConfig,
    pub owner_uid: u64,
    pub created_at: i64,
    pub updated_at: i64,
    pub link_invalid: bool,
    pub link_invalid_reason: Option<Seq<char>>,
    pub consecutive_link_failures: u32,
}

impl View for ShareSubscription {
    type V = SubscriptionView;

    open spec fn view(&self) -> SubscriptionView {
        SubscriptionView {
            id: self.id@,
            name: self.name@,
            share_url: self.share_url@,
            password: text::opt_text(self.password),
            include_paths: text::texts(self.include_paths@),
            exclude_patterns: text::texts(self.exclude_patterns@),
            targets: self.targets@,
            enabled: self.enabled,
            poll_config: self.poll_config,
            owner_uid: self.owner_uid,
            created_at: self.created_at,
            updated_at: self.updated_at,
            link_invalid: self.link_invalid,
            link_invalid_reason: text::opt_text(self.link_invalid_reason),
            consecutive_link_failures: self.consecutive_link_failures,
        }
    }
}

impl Clone for ShareSubscription {
    fn clone(&self) -> (r: Self)
        ensures
            r@ == self@,
    {
        ShareSubscription {
            id: self.id.clone(),
            name: self.name.clone(),
            share_url: self.share_url.clone(),
            password: copy_opt(&self.password),
            include_paths: copy_texts(&self.include_paths),
            exclude_patterns: copy_texts(&self.exclude_patterns),
            targets: copy_targets(&self.targets),
            enabled: self.enabled,
            poll_config: self.poll_config,
            owner_uid: self.owner_uid,
            created_at: self.created_at,
            updated_at: self.updated_at,
            link_invalid: self.link_invalid,
            link_invalid_reason: copy_opt(&self.link_invalid_reason),
            consecutive_link_failures: self.consecutive_link_failures,
        }
    }
}

} // verus!
