//! Leases: the right of one machine to do a piece of work for a while.

use vstd::prelude::*;

use crate::store::commit::{flag_view, opt_version};
use crate::store::probe::{write_view, WriteReply, WriteView};
use crate::store::records::{Lease, LeaseView};
use crate::store::retry::{settled, RetryPolicy, Settled, SettledView};
use crate::store::version::{ErrorView, ObjectVersion, StoreError, VersionView};

verus! {

/// A held lease, with the version needed to renew or release it.
#[derive(Debug)]
pub struct LeaseGuard {
    /// Key of the lease.
    pub key: String,
    /// Current contents.
    pub lease: Lease,
    /// Version it was last written at.
    pub version: ObjectVersion,
}

/// What a `LeaseGuard` says.
pub struct GuardView {
    pub key: Seq<char>,
    pub lease: LeaseView,
    pub version: VersionView,
}

impl View for LeaseGuard {
    type V = GuardView;

    open spec fn view(&self) -> GuardView {
        GuardView { key: self.key@, lease: self.lease@, version: self.version@ }
    }
}

/// What the reply to a renewal amounts to: whether the lease is still held, and the guard
/// afterwards.
pub open spec fn renewed_by(guard: GuardView, next: LeaseView, reply: WriteView) -> (
    Result<bool, ErrorView>,
    GuardView,
) {
    match reply {
        Ok(version) => (Ok(true), GuardView { lease: next, version, ..guard }),
        Err(error) => if error is Precondition || error is NotFound || error is AlreadyExists {
            (Ok(false), guard)
        } else {
            (Err(error), guard)
        },
    }
}

impl LeaseGuard {
    /// What a renewal writes: the same lease, taken now.
    pub fn renewed(&self, now_ms: i64, ttl_ms: i64) -> (next: Lease)
        requires
            i64::MIN <= now_ms + ttl_ms <= i64::MAX,
        ensures
            next@ == (LeaseView {
                acquired_at_ms: now_ms,
                expires_at_ms: (now_ms + ttl_ms) as i64,
                ..self@.lease
            }),
    {
        let mut next: Lease = self.lease.clone();
        next.acquired_at_ms = now_ms;
        next.expires_at_ms = now_ms + ttl_ms;
        next
    }

    /// What the reply to a renewal amounts to. False means that the lease moved on:
    /// it is lost, and the guard stays as it was.
    pub fn renew(&mut self, next: Lease, reply: WriteReply) -> (held: Result<bool, StoreError>)
        ensures
            (flag_view(held), final(self)@) == renewed_by(old(self)@, next@, write_view(reply)),
            reply is Err ==> *final(self) == *old(self),
    {
        match reply {
            Ok(version) => {
                self.lease = next;
                self.version = version;
                Ok(true)
            },
            Err(error) => match error {
                StoreError::Precondition => Ok(false),
                StoreError::NotFound => Ok(false),
                StoreError::AlreadyExists => Ok(false),
                _ => Err(error),
            },
        }
    }

    /// What a release writes: the same lease, run out now.
    pub fn released(&self, now_ms: i64) -> (next: Lease)
        ensures
            next@ == (LeaseView { expires_at_ms: now_ms, ..self@.lease }),
    {
        let mut next: Lease = self.lease.clone();
        next.expires_at_ms = now_ms;
        next
    }

    /// What the reply to a release amounts to. Losing the race is no failure: the
    /// lease runs out by itself.
    pub fn release(reply: WriteReply) -> (done: Result<(), StoreError>)
        ensures
            match write_view(reply) {
                Ok(_) => done is Ok,
                Err(error) => if error is Precondition || error is NotFound {
                    done is Ok
                } else {
                    done matches Err(e) && e@ == error
                },
            },
    {
        match reply {
            Ok(_) => Ok(()),
            Err(error) => match error {
                StoreError::Precondition => Ok(()),
                StoreError::NotFound => Ok(()),
                _ => Err(error),
            },
        }
    }
}

// ---- Taking a lease ----------------------------------------------------------------------

/// How far the taking of a lease has come.
#[derive(Debug)]
pub enum LeasePhase {
    /// The lease is being read.
    Reading,
    /// The lease is being replaced by this one.
    Swapping(Lease),
    /// The backoff after a lost race.
    Waiting,
    /// Nothing more to do.
    Finished,
}

/// What a `LeasePhase` says.
pub enum LeasePhaseView {
    Reading,
    Swapping(LeaseView),
    Waiting,
    Finished,
}

impl View for LeasePhase {
    type V = LeasePhaseView;

    open spec fn view(&self) -> LeasePhaseView {
        match *self {
            LeasePhase::Reading => LeasePhaseView::Reading,
            LeasePhase::Swapping(next) => LeasePhaseView::Swapping(next@),
            LeasePhase::Waiting => LeasePhaseView::Waiting,
            LeasePhase::Finished => LeasePhaseView::Finished,
        }
    }
}

/// The taking of a lease under way.
#[derive(Debug)]
pub struct LeaseRun {
    /// Key of the lease.
    pub key: String,
    /// Machine that wants it.
    pub owner: String,
    /// Caller-supplied clock.
    pub now_ms: i64,
    /// For how long.
    pub ttl_ms: i64,
    /// Schema number of the record.
    pub schema: u32,
    /// How hard to fight for it.
    pub retry: RetryPolicy,
    /// Attempts so far.
    pub attempt: u32,
    /// How far it has come.
    pub phase: LeasePhase,
}

/// What a `LeaseRun` says.
pub struct LeaseRunView {
    pub key: Seq<char>,
    pub owner: Seq<char>,
    pub now_ms: i64,
    pub ttl_ms: i64,
    pub schema: u32,
    pub retry: RetryPolicy,
    pub attempt: nat,
    pub phase: LeasePhaseView,
}

impl View for LeaseRun {
    type V = LeaseRunView;

    open spec fn view(&self) -> LeaseRunView {
        LeaseRunView {
            key: self.key@,
            owner: self.owner@,
            now_ms: self.now_ms,
            ttl_ms: self.ttl_ms,
            schema: self.schema,
            retry: self.retry,
            attempt: self.attempt as nat,
            phase: self.phase@,
        }
    }
}

/// What happened.
#[derive(Debug)]
pub enum LeaseEvent {
    /// The lease was read.
    Read(Result<(Lease, ObjectVersion), StoreError>),
    /// The backend replied to the replacement of the lease.
    Swapped(WriteReply),
    /// The backoff is over.
    Waited,
}

/// What a `LeaseEvent` says.
pub enum LeaseEventView {
    Read(Result<(LeaseView, VersionView), ErrorView>),
    Swapped(WriteView),
    Waited,
}

impl View for LeaseEvent {
    type V = LeaseEventView;

    open spec fn view(&self) -> LeaseEventView {
        match *self {
            LeaseEvent::Read(Ok(found)) => LeaseEventView::Read(Ok((found.0@, found.1@))),
            LeaseEvent::Read(Err(error)) => LeaseEventView::Read(Err(error@)),
            LeaseEvent::Swapped(reply) => LeaseEventView::Swapped(write_view(reply)),
            LeaseEvent::Waited => LeaseEventView::Waited,
        }
    }
}

/// What to do next.
#[derive(Debug)]
pub enum LeaseAction {
    /// Read the lease.
    Read,
    /// Replace the lease if it still has this version; create it where there is
    /// none.
    Swap(Lease, Option<ObjectVersion>),
    /// Wait so many nanoseconds.
    Wait(u128),
    /// It is over. `None` means that another machine holds the lease.
    Finish(Result<Option<LeaseGuard>, StoreError>),
}

/// What a `LeaseAction` says.
pub enum LeaseActionView {
    Read,
    Swap(LeaseView, Option<VersionView>),
    Wait(nat),
    Finish(Result<Option<GuardView>, ErrorView>),
}

impl View for LeaseAction {
    type V = LeaseActionView;

    open spec fn view(&self) -> LeaseActionView {
        match *self {
            LeaseAction::Read => LeaseActionView::Read,
            LeaseAction::Swap(next, expected) => LeaseActionView::Swap(
                next@,
                opt_version(expected),
            ),
            LeaseAction::Wait(ns) => LeaseActionView::Wait(ns as nat),
            LeaseAction::Finish(Ok(Some(guard))) => LeaseActionView::Finish(Ok(Some(guard@))),
            LeaseAction::Finish(Ok(None)) => LeaseActionView::Finish(Ok(None)),
            LeaseAction::Finish(Err(error)) => LeaseActionView::Finish(Err(error@)),
        }
    }
}

/// The lease that a machine takes after `current`.
pub open spec fn taken(run: LeaseRunView, current: Option<LeaseView>) -> LeaseView {
    LeaseView {
        schema: run.schema,
        owner: run.owner,
        epoch: match current {
            Some(lease) => (lease.epoch + 1) as u64,
            None => 1,
        },
        acquired_at_ms: run.now_ms,
        expires_at_ms: (run.now_ms + run.ttl_ms) as i64,
    }
}

/// The taking of a lease that is over.
pub open spec fn lease_over(
    run: LeaseRunView,
    result: Result<Option<GuardView>, ErrorView>,
) -> (LeaseRunView, LeaseActionView) {
    (
        LeaseRunView { phase: LeasePhaseView::Finished, ..run },
        LeaseActionView::Finish(result),
    )
}

/// How the taking of a lease goes on. A lease that has not run out is left to the
/// machine that holds it.
pub open spec fn lease_on(run: LeaseRunView, event: LeaseEventView) -> (
    LeaseRunView,
    LeaseActionView,
) {
    match (run.phase, event) {
        (LeasePhaseView::Reading, LeaseEventView::Read(Ok(found))) => if run.now_ms
            < found.0.expires_at_ms {
            lease_over(run, Ok(None))
        } else {
            (
                LeaseRunView { phase: LeasePhaseView::Swapping(taken(run, Some(found.0))), ..run },
                LeaseActionView::Swap(taken(run, Some(found.0)), Some(found.1)),
            )
        },
        (LeasePhaseView::Reading, LeaseEventView::Read(Err(error))) => if error is NotFound {
            (
                LeaseRunView { phase: LeasePhaseView::Swapping(taken(run, None)), ..run },
                LeaseActionView::Swap(taken(run, None), None),
            )
        } else {
            lease_over(run, Err(error))
        },
        (LeasePhaseView::Swapping(next), LeaseEventView::Swapped(reply)) => match settled(
            run.retry,
            run.attempt,
            reply,
        ) {
            SettledView::Won(version) => lease_over(
                run,
                Ok(Some(GuardView { key: run.key, lease: next, version })),
            ),
            SettledView::GiveUp => lease_over(run, Ok(None)),
            SettledView::Failed(error) => lease_over(run, Err(error)),
            SettledView::Again => (
                LeaseRunView { attempt: run.attempt + 1, phase: LeasePhaseView::Reading, ..run },
                LeaseActionView::Read,
            ),
            SettledView::After(ns) => (
                LeaseRunView { phase: LeasePhaseView::Waiting, ..run },
                LeaseActionView::Wait(ns),
            ),
        },
        (LeasePhaseView::Waiting, LeaseEventView::Waited) => (
            LeaseRunView { attempt: run.attempt + 1, phase: LeasePhaseView::Reading, ..run },
            LeaseActionView::Read,
        ),
        _ => (run, LeaseActionView::Read),
    }
}

impl LeaseRun {
    /// The lease ends at a time that there is, and there are attempts left where
    /// one is to follow.
    pub open spec fn wf(&self) -> bool {
        &&& self.attempt > 0
        &&& i64::MIN <= self.now_ms + self.ttl_ms <= i64::MAX
        &&& self.phase is Waiting ==> self.attempt < self.retry.max_attempts
    }

    /// Whether the event is one that the phase waits for.
    pub open spec fn awaits(&self, event: LeaseEvent) -> bool {
        match self.phase {
            LeasePhase::Reading => event matches LeaseEvent::Read(reply) && (reply matches Ok(found)
                ==> found.0.epoch < u64::MAX),
            LeasePhase::Swapping(_) => event is Swapped,
            LeasePhase::Waiting => event is Waited,
            LeasePhase::Finished => false,
        }
    }

    /// The start: the first thing to do is to read the lease.
    pub fn start(
        key: String,
        owner: String,
        now_ms: i64,
        ttl_ms: i64,
        schema: u32,
        retry: RetryPolicy,
    ) -> (next: (LeaseRun, LeaseAction))
        requires
            i64::MIN <= now_ms + ttl_ms <= i64::MAX,
        ensures
            next.0.wf(),
            next.0@ == (LeaseRunView {
                key: key@,
                owner: owner@,
                now_ms,
                ttl_ms,
                schema,
                retry,
                attempt: 1,
                phase: LeasePhaseView::Reading,
            }),
            next.1@ == LeaseActionView::Read,
    {
        (
            LeaseRun {
                key,
                owner,
                now_ms,
                ttl_ms,
                schema,
                retry,
                attempt: 1,
                phase: LeasePhase::Reading,
            },
            LeaseAction::Read,
        )
    }

    /// Takes in what happened and says what to do next.
    pub fn next(self, event: LeaseEvent) -> (next: (LeaseRun, LeaseAction))
        requires
            self.wf(),
            self.awaits(event),
        ensures
            next.0.wf(),
            (next.0@, next.1@) == lease_on(self@, event@),
    {
        let mut run: LeaseRun = self;
        match event {
            LeaseEvent::Read(reply) => {
                let (epoch, expected): (u64, Option<ObjectVersion>) = match reply {
                    Ok((lease, version)) => {
                        if !lease.is_expired(run.now_ms) {
                            run.phase = LeasePhase::Finished;
                            return (run, LeaseAction::Finish(Ok(None)));
                        }
                        (lease.epoch + 1, Some(version))
                    },
                    Err(StoreError::NotFound) => (1, None),
                    Err(error) => {
                        run.phase = LeasePhase::Finished;
                        return (run, LeaseAction::Finish(Err(error)));
                    },
                };
                let next = Lease {
                    schema: run.schema,
                    owner: run.owner.clone(),
                    epoch,
                    acquired_at_ms: run.now_ms,
                    expires_at_ms: run.now_ms + run.ttl_ms,
                };
                run.phase = LeasePhase::Swapping(next.clone());
                (run, LeaseAction::Swap(next, expected))
            },
            LeaseEvent::Swapped(reply) => {
                let outcome: Settled = run.retry.settle(run.attempt, reply);
                match outcome {
                    Settled::Won(version) => {
                        let guard: Option<LeaseGuard> = match run.phase {
                            LeasePhase::Swapping(lease) => Some(
                                LeaseGuard { key: run.key.clone(), lease, version },
                            ),
                            _ => None,
                        };
                        run.phase = LeasePhase::Finished;
                        (run, LeaseAction::Finish(Ok(guard)))
                    },
                    Settled::GiveUp => {
                        run.phase = LeasePhase::Finished;
                        (run, LeaseAction::Finish(Ok(None)))
                    },
                    Settled::Failed(error) => {
                        run.phase = LeasePhase::Finished;
                        (run, LeaseAction::Finish(Err(error)))
                    },
                    Settled::Again => {
                        run.attempt = run.attempt + 1;
                        run.phase = LeasePhase::Reading;
                        (run, LeaseAction::Read)
                    },
                    Settled::After(ns) => {
                        run.phase = LeasePhase::Waiting;
                        (run, LeaseAction::Wait(ns))
                    },
                }
            },
            LeaseEvent::Waited => {
                run.attempt = run.attempt + 1;
                run.phase = LeasePhase::Reading;
                (run, LeaseAction::Read)
            },
        }
    }
}

/// A lease that has not run out is not taken: whoever reads it walks away and
/// writes nothing.
pub proof fn law_a_live_lease_is_respected(
    run: LeaseRunView,
    lease: LeaseView,
    version: VersionView,
)
    requires
        run.phase is Reading,
        run.now_ms < lease.expires_at_ms,
    ensures
        lease_on(run, LeaseEventView::Read(Ok((lease, version)))).1 == LeaseActionView::Finish(
            Ok(None),
        ),
{
}

/// Every taking of a lease that has run out counts its epoch up by one and is
/// bound to the version that was read, so that of two machines that read the same
/// lease at most one gets it.
pub proof fn law_a_lease_is_taken_from_what_was_read(
    run: LeaseRunView,
    lease: LeaseView,
    version: VersionView,
)
    requires
        run.phase is Reading,
        run.now_ms >= lease.expires_at_ms,
        lease.epoch < u64::MAX,
    ensures
        lease_on(run, LeaseEventView::Read(Ok((lease, version)))).1 matches LeaseActionView::Swap(
            next,
            expected,
        ) && next.epoch == lease.epoch + 1 && next.owner == run.owner && expected == Some(version),
{
}

/// A released lease is free at once: whoever reads it next takes it.
pub proof fn law_a_released_lease_is_free(
    guard: GuardView,
    released_at: i64,
    run: LeaseRunView,
    version: VersionView,
)
    requires
        run.phase is Reading,
        run.now_ms >= released_at,
    ensures
        lease_on(
            run,
            LeaseEventView::Read(
                Ok((LeaseView { expires_at_ms: released_at, ..guard.lease }, version)),
            ),
        ).1 is Swap,
{
}

} // verus!
