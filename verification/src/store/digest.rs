//! What changed recently in a project.

use vstd::prelude::*;

use crate::store::records::{Handoff, HandoffView};

verus! {

/// One entry of the commit log.
#[derive(Debug)]
pub struct CommitRecord {
    /// Number of the commit.
    pub seq: u64,
    /// When, by the writer's clock.
    pub at_ms: i64,
    /// Whether a page was written or deleted.
    pub kind: String,
    /// Path of the page.
    pub path: String,
}

/// One session's activity inside the window.
#[derive(Debug)]
pub struct SessionSummary {
    /// Session whose head moved.
    pub session_id: String,
    /// Observations committed across the session's chain.
    pub observations: u64,
    /// When the head was last committed.
    pub last_seen_ms: i64,
}

/// Recent activity in one project, the newest first within each part.
#[derive(Debug)]
pub struct Digest {
    /// Commits in the window, deletions among them.
    pub pages: Vec<CommitRecord>,
    /// Sessions whose head moved inside the window.
    pub sessions: Vec<SessionSummary>,
    /// Handoffs with any activity inside the window.
    pub handoffs: Vec<Handoff>,
}

impl Digest {
    /// Whether the window contained nothing at all.
    pub fn is_empty(&self) -> (empty: bool)
        ensures
            empty == (self.pages@.len() == 0 && self.sessions@.len() == 0 && self.handoffs@.len()
                == 0),
    {
        self.pages.len() == 0 && self.sessions.len() == 0 && self.handoffs.len() == 0
    }
}

/// The later of a time and an optional one.
pub open spec fn latest(at: i64, other: Option<i64>) -> i64 {
    match other {
        Some(o) => if o > at {
            o
        } else {
            at
        },
        None => at,
    }
}

/// The time that makes a handoff recent: that of its latest stage.
pub open spec fn activity_ms(handoff: HandoffView) -> i64 {
    latest(latest(handoff.created_at_ms, handoff.claimed_at_ms), handoff.finished_at_ms)
}

/// The time that makes a handoff recent: that of its latest stage.
pub fn handoff_activity_ms(handoff: &Handoff) -> (at: i64)
    ensures
        at == activity_ms(handoff@),
{
    let mut newest: i64 = handoff.created_at_ms;
    if let Some(at) = handoff.claimed_at_ms {
        if at > newest {
            newest = at;
        }
    }
    if let Some(at) = handoff.finished_at_ms {
        if at > newest {
            newest = at;
        }
    }
    newest
}

/// A handoff is as recent as any of its stages: it is in a window exactly when one
/// of them is.
pub proof fn law_any_stage_makes_a_handoff_recent(handoff: HandoffView, since_ms: i64)
    ensures
        activity_ms(handoff) >= since_ms <==> {
            ||| handoff.created_at_ms >= since_ms
            ||| handoff.claimed_at_ms matches Some(at) && at >= since_ms
            ||| handoff.finished_at_ms matches Some(at) && at >= since_ms
        },
{
}

} // verus!
