//! How hard to fight for a commit point, and how an immutable object is stored.

use vstd::prelude::*;

use crate::store::probe::{write_view, WriteReply, WriteView};
use crate::store::version::{ErrorView, ObjectVersion, StoreError, VersionView};

verus! {

/// How hard to fight for the commit point before giving up.
#[derive(Clone, Copy, Debug)]
pub struct RetryPolicy {
    /// Total attempts, including the first.
    pub max_attempts: u32,
    /// Base backoff between attempts in nanoseconds; multiplied by the attempt
    /// number.
    pub base_delay_ns: u64,
}

impl Default for RetryPolicy {
    /// Eight attempts, five milliseconds apart at first.
    fn default() -> (policy: Self)
        ensures
            policy.max_attempts == 8,
            policy.base_delay_ns == 5_000_000,
    {
        RetryPolicy { max_attempts: 8, base_delay_ns: 5_000_000 }
    }
}

/// What a lost race leads to.
pub enum RaceView {
    /// Try again at once.
    Again,
    /// Try again after so many nanoseconds.
    After(nat),
    /// Give up.
    GiveUp,
}

/// What a race that was lost at the given attempt leads to.
pub open spec fn lost_race(policy: RetryPolicy, attempt: nat) -> RaceView {
    if attempt >= policy.max_attempts {
        RaceView::GiveUp
    } else if policy.base_delay_ns == 0 || attempt == 0 {
        RaceView::Again
    } else {
        RaceView::After(policy.base_delay_ns as nat * attempt)
    }
}

/// What a lost race leads to.
#[derive(Clone, Copy, Debug)]
pub enum Race {
    /// Try again at once.
    Again,
    /// Try again after so many nanoseconds.
    After(u128),
    /// Give up.
    GiveUp,
}

impl View for Race {
    type V = RaceView;

    open spec fn view(&self) -> RaceView {
        match *self {
            Race::Again => RaceView::Again,
            Race::After(ns) => RaceView::After(ns as nat),
            Race::GiveUp => RaceView::GiveUp,
        }
    }
}

impl RetryPolicy {
    /// What a race that was lost at the given attempt leads to.
    pub fn lost(&self, attempt: u32) -> (race: Race)
        ensures
            race@ == lost_race(*self, attempt as nat),
    {
        if attempt >= self.max_attempts {
            return Race::GiveUp;
        }
        if self.base_delay_ns == 0 || attempt == 0 {
            return Race::Again;
        }
        assert(self.base_delay_ns * attempt <= u64::MAX * u32::MAX) by (nonlinear_arith)
            requires
                self.base_delay_ns <= u64::MAX,
                attempt <= u32::MAX,
        ;
        assert(0 <= self.base_delay_ns * attempt) by (nonlinear_arith);
        Race::After(self.base_delay_ns as u128 * attempt as u128)
    }
}

/// What the reply to the replacement of a commit point leads to.
#[derive(Debug)]
pub enum Settled {
    /// The replacement stands, under this version.
    Won(ObjectVersion),
    /// Try again at once.
    Again,
    /// Try again after so many nanoseconds.
    After(u128),
    /// Every attempt was lost.
    GiveUp,
    /// The backend failed.
    Failed(StoreError),
}

/// What a `Settled` says.
pub enum SettledView {
    Won(VersionView),
    Again,
    After(nat),
    GiveUp,
    Failed(ErrorView),
}

impl View for Settled {
    type V = SettledView;

    open spec fn view(&self) -> SettledView {
        match *self {
            Settled::Won(version) => SettledView::Won(version@),
            Settled::Again => SettledView::Again,
            Settled::After(ns) => SettledView::After(ns as nat),
            Settled::GiveUp => SettledView::GiveUp,
            Settled::Failed(error) => SettledView::Failed(error@),
        }
    }
}

/// What the reply to the replacement of a commit point leads to.
pub open spec fn settled(policy: RetryPolicy, attempt: nat, reply: WriteView) -> SettledView {
    match reply {
        Ok(version) => SettledView::Won(version),
        Err(error) => if lost(reply) {
            match lost_race(policy, attempt) {
                RaceView::GiveUp => SettledView::GiveUp,
                RaceView::Again => SettledView::Again,
                RaceView::After(ns) => SettledView::After(ns),
            }
        } else {
            SettledView::Failed(error)
        },
    }
}

impl RetryPolicy {
    /// What the reply to the replacement of a commit point leads to.
    pub fn settle(&self, attempt: u32, reply: WriteReply) -> (outcome: Settled)
        ensures
            outcome@ == settled(*self, attempt as nat, write_view(reply)),
            outcome is Again || outcome is After ==> attempt < self.max_attempts,
    {
        match reply {
            Ok(version) => Settled::Won(version),
            Err(error) => {
                if error.lost_the_race() {
                    match self.lost(attempt) {
                        Race::GiveUp => Settled::GiveUp,
                        Race::Again => Settled::Again,
                        Race::After(ns) => Settled::After(ns),
                    }
                } else {
                    Settled::Failed(error)
                }
            },
        }
    }
}

// ---- Immutable objects ---------------------------------------------------------------

/// What follows the attempt to create an immutable object.
#[derive(Debug)]
pub enum CreateStep {
    /// It was created.
    Created,
    /// Something stands there already: read it and compare.
    Compare,
    /// The attempt failed.
    Failed(StoreError),
}

/// Whether a reply says that a precondition failed.
pub open spec fn lost(reply: WriteView) -> bool {
    reply matches Err(error) && (error is Precondition || error is AlreadyExists)
}

/// What follows the attempt to create an immutable object.
pub fn after_create(reply: WriteReply) -> (step: CreateStep)
    ensures
        match step {
            CreateStep::Created => write_view(reply) is Ok,
            CreateStep::Compare => lost(write_view(reply)),
            CreateStep::Failed(error) => write_view(reply) == WriteView::Err(error@) && !lost(
                write_view(reply),
            ),
        },
{
    match reply {
        Ok(_) => CreateStep::Created,
        Err(error) => {
            if error.lost_the_race() {
                CreateStep::Compare
            } else {
                CreateStep::Failed(error)
            }
        },
    }
}

/// What the comparison with an object that stands there already says: the same bytes are
/// a replay, anything else is corruption.
pub fn after_compare(key: &str, existing: &Vec<u8>, wanted: &Vec<u8>) -> (created: Result<
    bool,
    StoreError,
>)
    ensures
        match created {
            Ok(new) => existing@ == wanted@ && !new,
            Err(error) => existing@ != wanted@ && error@ == ErrorView::Corrupt(
                key@ + " already exists with different content"@,
            ),
        },
{
    if same_bytes(existing, wanted) {
        Ok(false)
    } else {
        Err(different_content(key))
    }
}

/// Whether two objects hold the same bytes.
fn same_bytes(a: &Vec<u8>, b: &Vec<u8>) -> (same: bool)
    ensures
        same == (a@ == b@),
{
    if a.len() != b.len() {
        return false;
    }
    let mut i: usize = 0;
    while i < a.len()
        invariant
            i <= a@.len(),
            a@.len() == b@.len(),
            a@.take(i as int) == b@.take(i as int),
        decreases a@.len() - i,
    {
        if a[i] != b[i] {
            assert(a@[i as int] != b@[i as int]);
            return false;
        }
        assert(a@.take(i + 1) =~= a@.take(i as int).push(a@[i as int]));
        assert(b@.take(i + 1) =~= b@.take(i as int).push(b@[i as int]));
        i += 1;
    }
    assert(a@.take(i as int) =~= a@ && b@.take(i as int) =~= b@);
    true
}

/// The failure of a write that met another content.
pub(crate) fn different_content(key: &str) -> (error: StoreError)
    ensures
        error@ == ErrorView::Corrupt(key@ + " already exists with different content"@),
{
    let mut what: String = key.to_owned();
    what.append(" already exists with different content");
    StoreError::Corrupt(what)
}

} // verus!
