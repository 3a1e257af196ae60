//! The sync loop: which outside work comes next, decided from what came back.
//!
//! The loop owns no socket, no store and no clock. It hands out one action at
//! a time; whoever performs the action reports the outcome as an event, and
//! the next action follows from it.

use vstd::pervasive::unreached;
use vstd::prelude::*;

use crate::archive::{
    ArchiveBatchResult, ArchiveCandidate, ArchiveCandidateView, MatchedScope, MatchedScopeView,
    SaveSubscription, SaveSubscriptionView,
};
use crate::batch::{
    deadline_fits, empty_batch, BatchView, PendingBatch, FLUSH_BATCH_SIZE, FLUSH_DEADLINE,
};
use crate::plan::{plan_saved, plan_subscriptions};
use crate::subscription::{MatchedEvent, MatchedEventView, Subscription, SubscriptionView};
use crate::table::Table;
use crate::views::views;

verus! {

/// What the loop is waiting for.
pub enum SyncStage {
    /// The saved rows.
    Listing,
    /// That the session has taken the planned set, whose scopes are held here.
    Applying(Table<MatchedScope>),
    /// A reload request, the deadline, an event, or the end.
    Waiting,
    /// The archive's answer to a batch.
    Archiving(AfterFlush),
    /// That the change of metrics was announced.
    Notifying(AfterFlush),
    /// Nothing more.
    Finished,
}

/// What the loop goes back to when a batch is dealt with.
pub enum AfterFlush {
    /// To waiting.
    Wait,
    /// To the listing that was under way when the deadline passed.
    List,
    /// To the applying that was under way then, of the set with these scopes.
    Apply(Table<MatchedScope>),
    /// To nothing: the loop ends.
    End,
}

pub enum AfterFlushView {
    Wait,
    List,
    Apply(Map<Seq<char>, MatchedScopeView>),
    End,
}

impl View for AfterFlush {
    type V = AfterFlushView;

    open spec fn view(&self) -> AfterFlushView {
        match self {
            AfterFlush::Wait => AfterFlushView::Wait,
            AfterFlush::List => AfterFlushView::List,
            AfterFlush::Apply(scopes) => AfterFlushView::Apply(scopes@),
            AfterFlush::End => AfterFlushView::End,
        }
    }
}

pub enum SyncStageView {
    Listing,
    Applying(Map<Seq<char>, MatchedScopeView>),
    Waiting,
    Archiving(AfterFlushView),
    Notifying(AfterFlushView),
    Finished,
}

impl View for SyncStage {
    type V = SyncStageView;

    open spec fn view(&self) -> SyncStageView {
        match self {
            SyncStage::Listing => SyncStageView::Listing,
            SyncStage::Applying(scopes) => SyncStageView::Applying(scopes@),
            SyncStage::Waiting => SyncStageView::Waiting,
            SyncStage::Archiving(after) => SyncStageView::Archiving(after@),
            SyncStage::Notifying(after) => SyncStageView::Notifying(after@),
            SyncStage::Finished => SyncStageView::Finished,
        }
    }
}

/// What can happen to the loop.
pub enum SyncEvent {
    /// The saved rows were read, or could not be.
    Listed(Result<Vec<SaveSubscription>, String>),
    /// The session has the planned set.
    Applied,
    /// The loop is to end.
    Cancelled,
    /// The saved rows have changed.
    ReloadRequested,
    /// The deadline of the pending batch has passed.
    DeadlineElapsed,
    /// An event came from the session, at the time `now`.
    Received { event: MatchedEvent, now: u64 },
    /// No more events will come.
    EventsEnded,
    /// The archive has dealt with a batch, or failed to.
    Archived(Result<ArchiveBatchResult, String>),
    /// The change of metrics was announced.
    Notified,
}

/// An event as far as it matters: of a failure, only that it was one.
pub enum SyncEventView {
    Listed(Option<Seq<SaveSubscriptionView>>),
    Applied,
    Cancelled,
    ReloadRequested,
    DeadlineElapsed,
    Received { event: MatchedEventView, now: u64 },
    EventsEnded,
    Archived(Option<ArchiveBatchResult>),
    Notified,
}

impl View for SyncEvent {
    type V = SyncEventView;

    open spec fn view(&self) -> SyncEventView {
        match self {
            SyncEvent::Listed(Ok(rows)) => SyncEventView::Listed(Some(views(rows@))),
            SyncEvent::Listed(Err(_)) => SyncEventView::Listed(None),
            SyncEvent::Applied => SyncEventView::Applied,
            SyncEvent::Cancelled => SyncEventView::Cancelled,
            SyncEvent::ReloadRequested => SyncEventView::ReloadRequested,
            SyncEvent::DeadlineElapsed => SyncEventView::DeadlineElapsed,
            SyncEvent::Received { event, now } => SyncEventView::Received {
                event: event@,
                now: *now,
            },
            SyncEvent::EventsEnded => SyncEventView::EventsEnded,
            SyncEvent::Archived(Ok(result)) => SyncEventView::Archived(Some(*result)),
            SyncEvent::Archived(Err(_)) => SyncEventView::Archived(None),
            SyncEvent::Notified => SyncEventView::Notified,
        }
    }
}

/// What is to be done next.
///
/// An action that may take a while, and during which candidates may be
/// buffered, comes with their deadline: when that passes before the action is
/// done, the loop is to be told.
pub enum SyncAction {
    /// Read the saved rows.
    List { deadline: Option<u64> },
    /// Give the session this set of subscriptions.
    Apply { subscriptions: Vec<Subscription>, deadline: Option<u64> },
    /// Go on with the listing or the applying that is under way.
    Resume { deadline: Option<u64> },
    /// Wait for whatever comes first.
    Wait { deadline: Option<u64> },
    /// Hand these candidates to the archive.
    Archive(Vec<ArchiveCandidate>),
    /// Announce that agent metrics have changed.
    Notify,
    /// End.
    Finish,
}

pub enum SyncActionView {
    List { deadline: Option<u64> },
    Apply { subscriptions: Seq<SubscriptionView>, deadline: Option<u64> },
    Resume { deadline: Option<u64> },
    Wait { deadline: Option<u64> },
    Archive(Seq<ArchiveCandidateView>),
    Notify,
    Finish,
}

impl View for SyncAction {
    type V = SyncActionView;

    open spec fn view(&self) -> SyncActionView {
        match self {
            SyncAction::List { deadline } => SyncActionView::List { deadline: *deadline },
            SyncAction::Apply { subscriptions, deadline } => SyncActionView::Apply {
                subscriptions: views(subscriptions@),
                deadline: *deadline,
            },
            SyncAction::Resume { deadline } => SyncActionView::Resume { deadline: *deadline },
            SyncAction::Wait { deadline } => SyncActionView::Wait { deadline: *deadline },
            SyncAction::Archive(candidates) => SyncActionView::Archive(views(candidates@)),
            SyncAction::Notify => SyncActionView::Notify,
            SyncAction::Finish => SyncActionView::Finish,
        }
    }
}

impl SyncActionView {
    /// The deadline that the action comes with, where it comes with one.
    pub open spec fn deadline(self) -> Option<u64> {
        match self {
            SyncActionView::List { deadline } => deadline,
            SyncActionView::Apply { deadline, .. } => deadline,
            SyncActionView::Resume { deadline } => deadline,
            SyncActionView::Wait { deadline } => deadline,
            _ => None,
        }
    }
}

/// One archive sync session.
pub struct SyncLoop {
    /// The scope of each subscription in force, by id.
    pub scopes: Table<MatchedScope>,
    pub pending: PendingBatch,
    pub stage: SyncStage,
}

pub struct SyncView {
    pub scopes: Map<Seq<char>, MatchedScopeView>,
    pub pending: BatchView,
    pub stage: SyncStageView,
}

impl View for SyncLoop {
    type V = SyncView;

    open spec fn view(&self) -> SyncView {
        SyncView { scopes: self.scopes@, pending: self.pending@, stage: self.stage@ }
    }
}

impl SyncView {
    /// Whether the event is one that the loop is waiting for.
    pub open spec fn accepts(self, event: SyncEventView) -> bool {
        match event {
            SyncEventView::Listed(_) => self.stage is Listing,
            SyncEventView::Applied => self.stage is Applying,
            SyncEventView::Cancelled => self.stage is Waiting,
            SyncEventView::ReloadRequested => self.stage is Waiting,
            SyncEventView::DeadlineElapsed => self.pending.deadline is Some && (self.stage is Waiting
                || self.stage is Listing || self.stage is Applying),
            SyncEventView::Received { event, now } => self.stage is Waiting && (self.buffers(event)
                && self.pending.candidates.len() == 0 ==> deadline_fits(now)),
            SyncEventView::EventsEnded => self.stage is Waiting,
            SyncEventView::Archived(_) => self.stage is Archiving,
            SyncEventView::Notified => self.stage is Notifying,
        }
    }

    /// Whether the event belongs to a subscription in force. Others are dropped:
    /// without a scope no match can be claimed.
    pub open spec fn buffers(self, event: MatchedEventView) -> bool {
        self.scopes.contains_key(event.subscription_id)
    }

    /// What the event becomes: its text, under the scope of its subscription.
    pub open spec fn candidate(self, event: MatchedEventView) -> ArchiveCandidateView {
        ArchiveCandidateView {
            raw_event_json: event.event,
            matched_scope: self.scopes[event.subscription_id],
        }
    }

    /// Back to waiting.
    pub open spec fn wait(self) -> (SyncView, SyncActionView) {
        (
            SyncView { stage: SyncStageView::Waiting, ..self },
            SyncActionView::Wait { deadline: self.pending.deadline },
        )
    }

    /// On after a flush.
    pub open spec fn resume(self, after: AfterFlushView) -> (SyncView, SyncActionView) {
        let resume = SyncActionView::Resume { deadline: self.pending.deadline };
        match after {
            AfterFlushView::Wait => self.wait(),
            AfterFlushView::List => (SyncView { stage: SyncStageView::Listing, ..self }, resume),
            AfterFlushView::Apply(scopes) => (
                SyncView { stage: SyncStageView::Applying(scopes), ..self },
                resume,
            ),
            AfterFlushView::End => (
                SyncView { stage: SyncStageView::Finished, ..self },
                SyncActionView::Finish,
            ),
        }
    }

    /// Hands the pending candidates to the archive, all of them and in order;
    /// where there are none, there is nothing to hand over.
    pub open spec fn flush(self, after: AfterFlushView) -> (SyncView, SyncActionView) {
        let emptied = SyncView { pending: empty_batch(), ..self };
        if self.pending.candidates.len() == 0 {
            emptied.resume(after)
        } else {
            (
                SyncView { stage: SyncStageView::Archiving(after), ..emptied },
                SyncActionView::Archive(self.pending.candidates),
            )
        }
    }

    /// What the loop goes back to when the deadline passes now: what it is
    /// waiting for.
    pub open spec fn under_way(self) -> AfterFlushView {
        match self.stage {
            SyncStageView::Listing => AfterFlushView::List,
            SyncStageView::Applying(scopes) => AfterFlushView::Apply(scopes),
            _ => AfterFlushView::Wait,
        }
    }

    /// What the loop goes back to when the batch at the archive is dealt with.
    pub open spec fn after_flush(self) -> AfterFlushView {
        match self.stage {
            SyncStageView::Archiving(after) => after,
            SyncStageView::Notifying(after) => after,
            _ => AfterFlushView::Wait,
        }
    }
}

/// The state and the action that follow on an event.
pub open spec fn sync_next(state: SyncView, event: SyncEventView) -> (SyncView, SyncActionView) {
    match event {
        SyncEventView::Listed(Some(rows)) => (
            SyncView { stage: SyncStageView::Applying(plan_saved(rows).scopes), ..state },
            SyncActionView::Apply {
                subscriptions: plan_saved(rows).subscriptions,
                deadline: state.pending.deadline,
            },
        ),
        SyncEventView::Listed(None) => state.wait(),
        SyncEventView::Applied => SyncView { scopes: state.stage->Applying_0, ..state }.wait(),
        SyncEventView::Cancelled => state.flush(AfterFlushView::End),
        SyncEventView::ReloadRequested => (
            SyncView { stage: SyncStageView::Listing, ..state },
            SyncActionView::List { deadline: state.pending.deadline },
        ),
        SyncEventView::DeadlineElapsed => state.flush(state.under_way()),
        SyncEventView::Received { event, now } => if state.buffers(event) {
            let buffered = SyncView {
                pending: state.pending.with(state.candidate(event), now),
                ..state
            };
            if buffered.pending.candidates.len() >= FLUSH_BATCH_SIZE {
                buffered.flush(AfterFlushView::Wait)
            } else {
                buffered.wait()
            }
        } else {
            state.wait()
        },
        SyncEventView::EventsEnded => state.flush(AfterFlushView::End),
        SyncEventView::Archived(result) => if announces(result) {
            (
                SyncView { stage: SyncStageView::Notifying(state.after_flush()), ..state },
                SyncActionView::Notify,
            )
        } else {
            state.resume(state.after_flush())
        },
        SyncEventView::Notified => state.resume(state.after_flush()),
    }
}

/// Whether the archive's answer is to be announced: only where it persisted
/// agent metrics.
pub open spec fn announces(result: Option<ArchiveBatchResult>) -> bool {
    result is Some && result->0.persisted_agent_metrics > 0
}

/// The loop before anything has happened.
pub open spec fn sync_start() -> SyncView {
    SyncView { scopes: Map::empty(), pending: empty_batch(), stage: SyncStageView::Listing }
}

impl SyncLoop {
    /// A new loop, and its first action: to read the saved rows.
    pub fn start() -> (started: (SyncLoop, SyncAction))
        ensures
            started.0@ == sync_start(),
            started.0.scopes@ == Map::<Seq<char>, MatchedScopeView>::empty(),
            started.0.pending.candidates@.len() == 0,
            started.0.pending.deadline is None,
            started.0.stage is Listing,
            started.1@ == (SyncActionView::List { deadline: None }),
    {
        let pending: PendingBatch = Default::default();
        (
            SyncLoop { scopes: Table::new(), pending, stage: SyncStage::Listing },
            SyncAction::List { deadline: None },
        )
    }

    /// Whether the event is one that the loop is waiting for.
    pub fn accepts(&self, event: &SyncEvent) -> (accepted: bool)
        ensures
            accepted == self@.accepts(event@),
    {
        match (event, &self.stage) {
            (SyncEvent::Listed(_), SyncStage::Listing) => true,
            (SyncEvent::Applied, SyncStage::Applying(_)) => true,
            (SyncEvent::Cancelled, SyncStage::Waiting) => true,
            (SyncEvent::ReloadRequested, SyncStage::Waiting) => true,
            (SyncEvent::DeadlineElapsed, SyncStage::Waiting) => self.pending.deadline.is_some(),
            (SyncEvent::DeadlineElapsed, SyncStage::Listing) => self.pending.deadline.is_some(),
            (SyncEvent::DeadlineElapsed, SyncStage::Applying(_)) => {
                self.pending.deadline.is_some()
            },
            (SyncEvent::Received { event, now }, SyncStage::Waiting) => {
                !self.scopes.contains_key(&event.subscription_id)
                    || !self.pending.candidates.is_empty() || *now <= u64::MAX - FLUSH_DEADLINE
            },
            (SyncEvent::EventsEnded, SyncStage::Waiting) => true,
            (SyncEvent::Archived(_), SyncStage::Archiving(_)) => true,
            (SyncEvent::Notified, SyncStage::Notifying(_)) => true,
            _ => false,
        }
    }

    fn wait(self) -> (next: (SyncLoop, SyncAction))
        ensures
            (next.0@, next.1@) == self@.wait(),
    {
        let deadline = self.pending.deadline;
        (
            SyncLoop { scopes: self.scopes, pending: self.pending, stage: SyncStage::Waiting },
            SyncAction::Wait { deadline },
        )
    }

    /// Puts a loop back to what follows a flush.
    fn resume(scopes: Table<MatchedScope>, pending: PendingBatch, after: AfterFlush) -> (next: (
        SyncLoop,
        SyncAction,
    ))
        ensures
            (next.0@, next.1@) == (SyncView {
                scopes: scopes@,
                pending: pending@,
                stage: SyncStageView::Waiting,
            }).resume(after@),
    {
        let deadline = pending.deadline;
        match after {
            AfterFlush::Wait => (
                SyncLoop { scopes, pending, stage: SyncStage::Waiting },
                SyncAction::Wait { deadline },
            ),
            AfterFlush::List => (
                SyncLoop { scopes, pending, stage: SyncStage::Listing },
                SyncAction::Resume { deadline },
            ),
            AfterFlush::Apply(planned) => (
                SyncLoop { scopes, pending, stage: SyncStage::Applying(planned) },
                SyncAction::Resume { deadline },
            ),
            AfterFlush::End => (
                SyncLoop { scopes, pending, stage: SyncStage::Finished },
                SyncAction::Finish,
            ),
        }
    }

    /// Flushes what is pending, if anything is.
    fn flush(scopes: Table<MatchedScope>, pending: PendingBatch, after: AfterFlush) -> (next: (
        SyncLoop,
        SyncAction,
    ))
        ensures
            (next.0@, next.1@) == (SyncView {
                scopes: scopes@,
                pending: pending@,
                stage: SyncStageView::Waiting,
            }).flush(after@),
    {
        let mut pending = pending;
        let candidates = pending.take();
        if candidates.is_empty() {
            SyncLoop::resume(scopes, pending, after)
        } else {
            (
                SyncLoop { scopes, pending, stage: SyncStage::Archiving(after) },
                SyncAction::Archive(candidates),
            )
        }
    }

    /// Moves on an event that the loop is waiting for.
    ///
    /// - Rows that were read are planned and applied; their scopes come into
    ///   force once the session has the set. Rows that could not be read leave
    ///   the previous set in force.
    /// - An event of a subscription in force is buffered, and the buffer is
    ///   flushed when it is full or when its deadline passes. Any other event
    ///   is dropped.
    /// - The deadline is kept while a reload is in progress too: the batch goes
    ///   out, and the reload goes on from where it was.
    /// - At the end, what is buffered is flushed first.
    pub fn step(self, event: SyncEvent) -> (next: (SyncLoop, SyncAction))
        requires
            self@.accepts(event@),
        ensures
            (next.0@, next.1@) == sync_next(self@, event@),
    {
        match event {
            SyncEvent::Listed(Ok(rows)) => {
                let (subscriptions, scopes) = plan_subscriptions(rows.as_slice());
                let deadline = self.pending.deadline;
                (
                    SyncLoop {
                        scopes: self.scopes,
                        pending: self.pending,
                        stage: SyncStage::Applying(scopes),
                    },
                    SyncAction::Apply { subscriptions, deadline },
                )
            },
            SyncEvent::Listed(Err(_)) => self.wait(),
            SyncEvent::Applied => match self.stage {
                SyncStage::Applying(scopes) => {
                    SyncLoop { scopes, pending: self.pending, stage: SyncStage::Waiting }.wait()
                },
                _ => unreached(),
            },
            SyncEvent::Cancelled => SyncLoop::flush(self.scopes, self.pending, AfterFlush::End),
            SyncEvent::ReloadRequested => {
                let deadline = self.pending.deadline;
                (
                    SyncLoop {
                        scopes: self.scopes,
                        pending: self.pending,
                        stage: SyncStage::Listing,
                    },
                    SyncAction::List { deadline },
                )
            },
            SyncEvent::DeadlineElapsed => {
                let after = match self.stage {
                    SyncStage::Listing => AfterFlush::List,
                    SyncStage::Applying(scopes) => AfterFlush::Apply(scopes),
                    _ => AfterFlush::Wait,
                };
                SyncLoop::flush(self.scopes, self.pending, after)
            },
            SyncEvent::Received { event, now } => self.receive(event, now),
            SyncEvent::EventsEnded => SyncLoop::flush(
                self.scopes,
                self.pending,
                AfterFlush::End,
            ),
            SyncEvent::Archived(result) => {
                let announced = match result {
                    Ok(result) => result.persisted_agent_metrics > 0,
                    Err(_) => false,
                };
                let after = match self.stage {
                    SyncStage::Archiving(after) => after,
                    _ => unreached(),
                };
                if announced {
                    (
                        SyncLoop {
                            scopes: self.scopes,
                            pending: self.pending,
                            stage: SyncStage::Notifying(after),
                        },
                        SyncAction::Notify,
                    )
                } else {
                    SyncLoop::resume(self.scopes, self.pending, after)
                }
            },
            SyncEvent::Notified => {
                let after = match self.stage {
                    SyncStage::Notifying(after) => after,
                    _ => unreached(),
                };
                SyncLoop::resume(self.scopes, self.pending, after)
            },
        }
    }

    fn receive(self, event: MatchedEvent, now: u64) -> (next: (SyncLoop, SyncAction))
        requires
            self@.accepts(SyncEventView::Received { event: event@, now }),
        ensures
            (next.0@, next.1@) == sync_next(
                self@,
                SyncEventView::Received { event: event@, now },
            ),
    {
        let matched_scope = match self.scopes.get(&event.subscription_id) {
            Some(scope) => scope.clone(),
            None => {
                return self.wait();
            },
        };
        let mut pending = self.pending;
        pending.push(ArchiveCandidate { raw_event_json: event.event, matched_scope }, now);
        if pending.is_full() {
            SyncLoop::flush(self.scopes, pending, AfterFlush::Wait)
        } else {
            SyncLoop { scopes: self.scopes, pending, stage: self.stage }.wait()
        }
    }
}

} // verus!
