//! What holds of every run of the sync loop.
//!
//! A run is the sequence of events that a loop was given from its start on,
//! each one that it was waiting for.

use vstd::prelude::*;

use crate::archive::{
    ArchiveBatchResult, ArchiveCandidateView, MatchedScopeView, SaveSubscriptionView,
};
use crate::batch::{empty_batch, FLUSH_BATCH_SIZE, FLUSH_DEADLINE};
use crate::plan::{plan_saved, PlanView};
use crate::subscription::MatchedEventView;
use crate::sync::{
    announces, sync_next, sync_start, AfterFlushView, SyncActionView, SyncEventView, SyncStageView,
    SyncView,
};

verus! {

/// The state after a run.
pub open spec fn state_after(events: Seq<SyncEventView>) -> SyncView
    decreases events.len(),
{
    if events.len() == 0 {
        sync_start()
    } else {
        sync_next(state_after(events.drop_last()), events.last()).0
    }
}

/// The action that is due after a run.
pub open spec fn action_after(events: Seq<SyncEventView>) -> SyncActionView {
    if events.len() == 0 {
        SyncActionView::List { deadline: None }
    } else {
        sync_next(state_after(events.drop_last()), events.last()).1
    }
}

/// Whether the loop was waiting for each event when it came.
pub open spec fn is_run(events: Seq<SyncEventView>) -> bool
    decreases events.len(),
{
    events.len() == 0 || (is_run(events.drop_last()) && state_after(events.drop_last()).accepts(
        events.last(),
    ))
}

/// The batches that a run handed to the archive, in order.
pub open spec fn batches(events: Seq<SyncEventView>) -> Seq<Seq<ArchiveCandidateView>>
    decreases events.len(),
{
    if events.len() == 0 {
        seq![]
    } else {
        match action_after(events) {
            SyncActionView::Archive(candidates) => batches(events.drop_last()).push(candidates),
            _ => batches(events.drop_last()),
        }
    }
}

/// The candidates in all of the batches, in order.
pub open spec fn archived(events: Seq<SyncEventView>) -> Seq<ArchiveCandidateView> {
    batches(events).flatten()
}

/// The candidates that a run's events became, in the order they came: one for
/// each event of a subscription that was in force.
pub open spec fn matched(events: Seq<SyncEventView>) -> Seq<ArchiveCandidateView>
    decreases events.len(),
{
    if events.len() == 0 {
        seq![]
    } else {
        let state = state_after(events.drop_last());
        match events.last() {
            SyncEventView::Received { event, .. } => if state.buffers(event) {
                matched(events.drop_last()).push(state.candidate(event))
            } else {
                matched(events.drop_last())
            },
            _ => matched(events.drop_last()),
        }
    }
}

/// No matched event is lost, doubled or moved: what was archived, followed by
/// what is still buffered, is what was matched.
pub proof fn law_matched_events_are_archived_or_pending(events: Seq<SyncEventView>)
    requires
        is_run(events),
    ensures
        archived(events) + state_after(events).pending.candidates == matched(events),
    decreases events.len(),
{
    if events.len() == 0 {
        assert(batches(events).flatten() =~= seq![]);
        assert(archived(events) + state_after(events).pending.candidates =~= matched(events));
    } else {
        let before = events.drop_last();
        law_matched_events_are_archived_or_pending(before);
        let all = batches(before);
        match action_after(events) {
            SyncActionView::Archive(candidates) => {
                lemma_flatten_push(all, candidates);
            },
            _ => {},
        }
        assert(archived(events) + state_after(events).pending.candidates =~= matched(events));
    }
}

/// Flattening with one more sequence at the end adds its items at the end.
proof fn lemma_flatten_push<A>(parts: Seq<Seq<A>>, last: Seq<A>)
    ensures
        parts.push(last).flatten() == parts.flatten() + last,
    decreases parts.len(),
{
    let more = parts.push(last);
    if parts.len() == 0 {
        assert(more.drop_first() =~= parts);
        assert(parts.flatten() =~= seq![]);
        assert(more.flatten() =~= last);
        assert(parts.flatten() + last =~= last);
    } else {
        assert(more.drop_first() =~= parts.drop_first().push(last));
        lemma_flatten_push(parts.drop_first(), last);
        assert(more.flatten() =~= parts.flatten() + last);
    }
}

/// The buffer stays below the batch size, it has a deadline exactly while
/// something is in it, and it is empty while a batch is at the archive and
/// when the loop has ended.
pub proof fn law_buffer_is_bounded_and_timed(events: Seq<SyncEventView>)
    requires
        is_run(events),
    ensures
        state_after(events).pending.candidates.len() < FLUSH_BATCH_SIZE,
        state_after(events).pending.timed(),
        (state_after(events).stage is Archiving || state_after(events).stage is Notifying
            || state_after(events).stage is Finished) ==> state_after(events).pending
            == empty_batch(),
    decreases events.len(),
{
    if events.len() > 0 {
        law_buffer_is_bounded_and_timed(events.drop_last());
        let before = state_after(events.drop_last());
        if before.pending.candidates.len() == 0 {
            assert(before.pending.candidates =~= seq![]);
        }
    }
}

/// A loop that has ended has archived every event that it matched: what was
/// buffered at the end went out too.
pub proof fn law_end_leaves_nothing_behind(events: Seq<SyncEventView>)
    requires
        is_run(events),
        state_after(events).stage is Finished,
    ensures
        archived(events) == matched(events),
{
    law_matched_events_are_archived_or_pending(events);
    law_buffer_is_bounded_and_timed(events);
    assert(archived(events) + state_after(events).pending.candidates =~= archived(events));
}

/// No batch is empty, and none is larger than the batch size.
pub proof fn law_batches_have_one_to_full_size(events: Seq<SyncEventView>, i: int)
    requires
        is_run(events),
        0 <= i < batches(events).len(),
    ensures
        0 < batches(events)[i].len() <= FLUSH_BATCH_SIZE,
    decreases events.len(),
{
    let before = events.drop_last();
    law_buffer_is_bounded_and_timed(before);
    if i < batches(before).len() {
        law_batches_have_one_to_full_size(before, i);
    }
}

/// A batch goes out below its full size only at the deadline or at the end.
pub proof fn law_partial_batches_wait_for_the_deadline_or_the_end(events: Seq<SyncEventView>)
    requires
        is_run(events),
        events.len() > 0,
        action_after(events) is Archive,
        action_after(events)->Archive_0.len() < FLUSH_BATCH_SIZE,
    ensures
        events.last() is DeadlineElapsed || events.last() is Cancelled
            || events.last() is EventsEnded,
{
}

/// The event that fills a batch sends it out at once, itself included.
pub proof fn law_full_batch_goes_out_at_once(
    state: SyncView,
    event: MatchedEventView,
    now: u64,
)
    requires
        state.stage is Waiting,
        state.buffers(event),
        state.pending.candidates.len() == FLUSH_BATCH_SIZE - 1,
    ensures
        state.accepts(SyncEventView::Received { event, now }),
        sync_next(state, SyncEventView::Received { event, now }).1 == SyncActionView::Archive(
            state.pending.candidates.push(state.candidate(event)),
        ),
        sync_next(state, SyncEventView::Received { event, now }).0.pending == empty_batch(),
{
}

/// The deadline is never held: whenever something is buffered, the passing of
/// the deadline is taken, and everything that is buffered goes out at once. A
/// reload that is in progress does not delay it.
pub proof fn law_deadline_is_never_held(events: Seq<SyncEventView>)
    requires
        is_run(events),
        state_after(events).pending.candidates.len() > 0,
    ensures
        state_after(events).accepts(SyncEventView::DeadlineElapsed),
        sync_next(state_after(events), SyncEventView::DeadlineElapsed).1
            == SyncActionView::Archive(state_after(events).pending.candidates),
        sync_next(state_after(events), SyncEventView::DeadlineElapsed).0.pending == empty_batch(),
{
    law_buffer_is_bounded_and_timed(events);
}

/// Whenever something is buffered, the action that is due comes with the
/// deadline: whoever performs it knows until when.
pub proof fn law_actions_come_with_the_deadline(events: Seq<SyncEventView>)
    requires
        is_run(events),
        state_after(events).pending.candidates.len() > 0,
    ensures
        action_after(events).deadline() is Some,
        action_after(events).deadline() == state_after(events).pending.deadline,
{
    law_buffer_is_bounded_and_timed(events);
    if events.len() > 0 {
        law_buffer_is_bounded_and_timed(events.drop_last());
    }
}

/// A reload goes on after a flush from where it was: when the deadline passes
/// while rows are read or a set is applied, then, once the batch is dealt with,
/// whatever the archive answers, the loop waits for the same thing as before,
/// the same scopes are in force, and only the buffer is empty. Nothing is read
/// or applied anew.
pub proof fn law_flush_during_a_reload_resumes_it(
    events: Seq<SyncEventView>,
    result: Option<ArchiveBatchResult>,
)
    requires
        is_run(events),
        state_after(events).pending.candidates.len() > 0,
        state_after(events).stage is Listing || state_after(events).stage is Applying,
    ensures
        ({
            let state = state_after(events);
            let flushed = sync_next(state, SyncEventView::DeadlineElapsed).0;
            let (answered, action) = sync_next(flushed, SyncEventView::Archived(result));
            let resumed = (
                SyncView { pending: empty_batch(), ..state },
                SyncActionView::Resume { deadline: None },
            );
            &&& flushed.accepts(SyncEventView::Archived(result))
            &&& if announces(result) {
                &&& action is Notify
                &&& answered.accepts(SyncEventView::Notified)
                &&& sync_next(answered, SyncEventView::Notified) == resumed
            } else {
                (answered, action) == resumed
            }
        }),
{
    law_buffer_is_bounded_and_timed(events);
}

/// While a batch is at the archive, nothing else is taken on: events wait with
/// the session, and so does the relay once it cannot deliver more.
pub proof fn law_archiving_holds_everything_back(state: SyncView, event: SyncEventView)
    requires
        state.stage is Archiving,
        state.accepts(event),
    ensures
        event is Archived,
{
}

/// The rows that a run read last; none before the first that could be read.
pub open spec fn rows_read(events: Seq<SyncEventView>) -> Option<Seq<SaveSubscriptionView>>
    decreases events.len(),
{
    if events.len() == 0 {
        None
    } else {
        match events.last() {
            SyncEventView::Listed(Some(rows)) => Some(rows),
            _ => rows_read(events.drop_last()),
        }
    }
}

/// The plan that a run applied last; none before the first.
pub open spec fn applied_plan(events: Seq<SyncEventView>) -> Option<PlanView>
    decreases events.len(),
{
    if events.len() == 0 {
        None
    } else if events.last() is Applied {
        match rows_read(events.drop_last()) {
            Some(rows) => Some(plan_saved(rows)),
            None => None,
        }
    } else {
        applied_plan(events.drop_last())
    }
}

/// The scopes of the set that is being applied, a flush in between or not.
pub open spec fn being_applied(state: SyncView) -> Option<Map<Seq<char>, MatchedScopeView>> {
    match state.stage {
        SyncStageView::Applying(scopes) => Some(scopes),
        SyncStageView::Archiving(AfterFlushView::Apply(scopes)) => Some(scopes),
        SyncStageView::Notifying(AfterFlushView::Apply(scopes)) => Some(scopes),
        _ => None,
    }
}

/// The scopes in force are those of the plan that the session was given last,
/// and a set that is being applied is the plan of the rows that were read last.
/// Nothing else changes them: not a failed listing, not an archived batch.
pub proof fn law_scopes_follow_the_applied_plan(events: Seq<SyncEventView>)
    requires
        is_run(events),
    ensures
        state_after(events).scopes == match applied_plan(events) {
            Some(plan) => plan.scopes,
            None => Map::empty(),
        },
        being_applied(state_after(events)) is Some ==> rows_read(events) is Some
            && being_applied(state_after(events))->0 == plan_saved(rows_read(events)->0).scopes,
        action_after(events) is Apply ==> rows_read(events) is Some && action_after(
            events,
        )->subscriptions == plan_saved(rows_read(events)->0).subscriptions && being_applied(
            state_after(events),
        ) is Some,
    decreases events.len(),
{
    if events.len() > 0 {
        law_scopes_follow_the_applied_plan(events.drop_last());
    }
}

/// A listing that fails leaves everything as it was: the same scopes in force,
/// the same buffer, no new set for the session, and the loop waits on.
pub proof fn law_failed_listing_changes_nothing(state: SyncView)
    requires
        state.stage is Listing,
    ensures
        sync_next(state, SyncEventView::Listed(None)).0 == (SyncView {
            stage: SyncStageView::Waiting,
            ..state
        }),
        sync_next(state, SyncEventView::Listed(None)).1 == (SyncActionView::Wait {
            deadline: state.pending.deadline,
        }),
{
}

/// A reload request reads the rows again, gives the session the new set, and
/// puts the scopes of that set in force; what is buffered is untouched.
pub proof fn law_reload_brings_the_new_set_in_force(
    state: SyncView,
    rows: Seq<SaveSubscriptionView>,
)
    requires
        state.stage is Waiting,
    ensures
        ({
            let (listing, list) = sync_next(state, SyncEventView::ReloadRequested);
            let (applying, apply) = sync_next(listing, SyncEventView::Listed(Some(rows)));
            let (waiting, wait) = sync_next(applying, SyncEventView::Applied);
            &&& list == SyncActionView::List { deadline: state.pending.deadline }
            &&& listing.accepts(SyncEventView::Listed(Some(rows)))
            &&& apply == SyncActionView::Apply {
                subscriptions: plan_saved(rows).subscriptions,
                deadline: state.pending.deadline,
            }
            &&& applying.scopes == state.scopes
            &&& applying.accepts(SyncEventView::Applied)
            &&& waiting == SyncView { scopes: plan_saved(rows).scopes, ..state }
            &&& wait == SyncActionView::Wait { deadline: state.pending.deadline }
        }),
{
}

/// How often a run was told to read the saved rows, the start included.
pub open spec fn listings(events: Seq<SyncEventView>) -> nat
    decreases events.len(),
{
    if events.len() == 0 {
        1
    } else if action_after(events) is List {
        listings(events.drop_last()) + 1
    } else {
        listings(events.drop_last())
    }
}

/// How many reload requests a run took.
pub open spec fn reloads(events: Seq<SyncEventView>) -> nat
    decreases events.len(),
{
    if events.len() == 0 {
        0
    } else if events.last() is ReloadRequested {
        reloads(events.drop_last()) + 1
    } else {
        reloads(events.drop_last())
    }
}

/// Each reload request that is taken reads the saved rows once more, and
/// nothing else does.
pub proof fn law_each_reload_lists_once(events: Seq<SyncEventView>)
    requires
        is_run(events),
    ensures
        listings(events) == 1 + reloads(events),
    decreases events.len(),
{
    if events.len() > 0 {
        law_each_reload_lists_once(events.drop_last());
    }
}

/// A reload request is taken while the loop waits, and only then. In
/// particular none is taken while a pass is in progress, that is, while rows
/// are read or a set is applied.
pub proof fn law_reloads_are_taken_between_passes(state: SyncView)
    ensures
        state.accepts(SyncEventView::ReloadRequested) <==> state.stage is Waiting,
        state.stage is Listing || state.stage is Applying ==> !state.accepts(
            SyncEventView::ReloadRequested,
        ),
{
}

/// What happens around a loop whose reload requests are kept as one permit: a
/// request sets the permit, and the loop takes a request by using it up.
pub enum Signal {
    /// A reload is requested, from outside.
    Requested,
    /// The loop is given an event.
    Given(SyncEventView),
}

/// The events that the loop was given.
pub open spec fn given(signals: Seq<Signal>) -> Seq<SyncEventView>
    decreases signals.len(),
{
    if signals.len() == 0 {
        seq![]
    } else {
        match signals.last() {
            Signal::Given(event) => given(signals.drop_last()).push(event),
            Signal::Requested => given(signals.drop_last()),
        }
    }
}

/// Whether a request is waiting to be taken.
pub open spec fn permit(signals: Seq<Signal>) -> bool
    decreases signals.len(),
{
    if signals.len() == 0 {
        false
    } else {
        match signals.last() {
            Signal::Requested => true,
            Signal::Given(SyncEventView::ReloadRequested) => false,
            Signal::Given(_) => permit(signals.drop_last()),
        }
    }
}

/// Whether the loop was waiting for each event when it came, and took reload
/// requests only where one was waiting to be taken.
pub open spec fn is_signalled_run(signals: Seq<Signal>) -> bool
    decreases signals.len(),
{
    signals.len() == 0 || (is_signalled_run(signals.drop_last()) && match signals.last() {
        Signal::Requested => true,
        Signal::Given(event) => state_after(given(signals.drop_last())).accepts(event) && (
        event is ReloadRequested ==> permit(signals.drop_last())),
    })
}

/// How many listings are made or bound to be made: one more than were made
/// where a request is waiting to be taken.
pub open spec fn listings_owed(signals: Seq<Signal>) -> nat {
    if permit(signals) {
        listings(given(signals)) + 1
    } else {
        listings(given(signals))
    }
}

/// One more signal, and what it does to the listings.
proof fn lemma_signal(signals: Seq<Signal>, signal: Signal)
    ensures
        given(signals.push(signal)) == match signal {
            Signal::Given(event) => given(signals).push(event),
            Signal::Requested => given(signals),
        },
        permit(signals.push(signal)) == match signal {
            Signal::Requested => true,
            Signal::Given(SyncEventView::ReloadRequested) => false,
            Signal::Given(_) => permit(signals),
        },
        listings(given(signals.push(signal))) == match signal {
            Signal::Given(SyncEventView::ReloadRequested) => listings(given(signals)) + 1,
            _ => listings(given(signals)),
        },
{
    let more = signals.push(signal);
    assert(more.drop_last() =~= signals);
    match signal {
        Signal::Given(event) => {
            assert(given(more).drop_last() =~= given(signals));
            assert(given(more).last() == event);
        },
        Signal::Requested => {},
    }
}

/// As long as no request is taken, no listing is made, and a request once made
/// waits to be taken.
proof fn lemma_untaken(before: Seq<Signal>, during: Seq<Signal>)
    requires
        forall|i: int|
            0 <= i < during.len() ==> #[trigger] during[i] != Signal::Given(
                SyncEventView::ReloadRequested,
            ),
    ensures
        listings(given(before + during)) == listings(given(before)),
        permit(before) || (exists|i: int|
            0 <= i < during.len() && #[trigger] during[i] is Requested) ==> permit(
            before + during,
        ),
    decreases during.len(),
{
    if during.len() == 0 {
        assert(before + during =~= before);
    } else {
        let fewer = during.drop_last();
        let last = during[during.len() - 1];
        assert forall|i: int| 0 <= i < fewer.len() implies #[trigger] fewer[i] != Signal::Given(
            SyncEventView::ReloadRequested,
        ) by {
            assert(during[i] == fewer[i]);
        }
        lemma_untaken(before, fewer);
        assert(before + during =~= (before + fewer).push(last));
        lemma_signal(before + fewer, last);
        if exists|i: int| 0 <= i < during.len() && #[trigger] during[i] is Requested {
            let i = choose|i: int| 0 <= i < during.len() && #[trigger] during[i] is Requested;
            if i < fewer.len() {
                assert(fewer[i] is Requested);
            }
        }
    }
}

/// Without further requests, what is owed stays as it is.
proof fn lemma_owed_is_kept(before: Seq<Signal>, after: Seq<Signal>)
    requires
        is_signalled_run(before + after),
        forall|i: int| 0 <= i < after.len() ==> !(#[trigger] after[i] is Requested),
    ensures
        listings_owed(before + after) == listings_owed(before),
    decreases after.len(),
{
    if after.len() == 0 {
        assert(before + after =~= before);
    } else {
        let fewer = after.drop_last();
        let last = after[after.len() - 1];
        assert(before + after =~= (before + fewer).push(last));
        assert((before + after).drop_last() =~= before + fewer);
        assert forall|i: int| 0 <= i < fewer.len() implies !(#[trigger] fewer[i] is Requested) by {
            assert(after[i] == fewer[i]);
        }
        lemma_owed_is_kept(before, fewer);
        lemma_signal(before + fewer, last);
    }
}

/// Reload requests coalesce. However many are made while none is taken, as
/// while a pass is in progress, and none behind that: exactly one more listing
/// follows. It is still owed for as long as the request waits, and it has been
/// made once the request is taken; there is no second one.
pub proof fn law_requests_during_a_pass_lead_to_one_more(
    before: Seq<Signal>,
    during: Seq<Signal>,
    after: Seq<Signal>,
)
    requires
        is_signalled_run(before + during + after),
        exists|i: int| 0 <= i < during.len() && #[trigger] during[i] is Requested,
        forall|i: int|
            0 <= i < during.len() ==> #[trigger] during[i] != Signal::Given(
                SyncEventView::ReloadRequested,
            ),
        forall|i: int| 0 <= i < after.len() ==> !(#[trigger] after[i] is Requested),
    ensures
        listings(given(before + during)) == listings(given(before)),
        permit(before + during),
        listings_owed(before + during + after) == listings(given(before)) + 1,
        permit(before + during + after) ==> listings(given(before + during + after)) == listings(
            given(before),
        ),
        !permit(before + during + after) ==> listings(given(before + during + after))
            == listings(given(before)) + 1,
{
    lemma_untaken(before, during);
    lemma_owed_is_kept(before + during, after);
}

/// The events of a signalled run are a run of the loop.
pub proof fn law_signalled_runs_are_runs(signals: Seq<Signal>)
    requires
        is_signalled_run(signals),
    ensures
        is_run(given(signals)),
    decreases signals.len(),
{
    if signals.len() > 0 {
        law_signalled_runs_are_runs(signals.drop_last());
        match signals.last() {
            Signal::Given(event) => {
                assert(given(signals).drop_last() =~= given(signals.drop_last()));
            },
            Signal::Requested => {},
        }
    }
}

/// An event of a subscription that is not in force leaves no trace.
pub proof fn law_events_without_scope_are_dropped(
    state: SyncView,
    event: MatchedEventView,
    now: u64,
)
    requires
        state.stage is Waiting,
        !state.scopes.contains_key(event.subscription_id),
    ensures
        state.accepts(SyncEventView::Received { event, now }),
        sync_next(state, SyncEventView::Received { event, now }) == (
            state,
            SyncActionView::Wait { deadline: state.pending.deadline },
        ),
{
}

/// The change of metrics is announced exactly when the archive says that it
/// persisted some. A failed archive call is not announced, and whatever the
/// answer, the loop ends only where it was to end anyway.
pub proof fn law_only_persisted_metrics_are_announced(
    state: SyncView,
    result: Option<ArchiveBatchResult>,
)
    requires
        state.stage is Archiving,
    ensures
        sync_next(state, SyncEventView::Archived(result)).1 is Notify <==> (result is Some
            && result->0.persisted_agent_metrics > 0),
        !announces(result) ==> sync_next(state, SyncEventView::Archived(result)) == state.resume(
            state.after_flush(),
        ),
        sync_next(state, SyncEventView::Archived(result)).1 is Finish ==> state.after_flush()
            is End,
        state.after_flush() is Wait && !announces(result) ==> sync_next(
            state,
            SyncEventView::Archived(result),
        ) == (
            SyncView { stage: SyncStageView::Waiting, ..state },
            SyncActionView::Wait { deadline: state.pending.deadline },
        ),
{
}

/// The end comes after at most one more batch: a waiting loop that is told to
/// end, or that runs out of events, hands over what is buffered, announces it
/// if need be, and ends whatever the archive answers.
pub proof fn law_end_comes_after_one_last_flush(
    state: SyncView,
    end: SyncEventView,
    result: Option<ArchiveBatchResult>,
)
    requires
        state.stage is Waiting,
        end is Cancelled || end is EventsEnded,
    ensures
        ({
            let (last, action) = sync_next(state, end);
            if state.pending.candidates.len() == 0 {
                &&& action is Finish
                &&& last.stage is Finished
            } else {
                let (answered, then_do) = sync_next(last, SyncEventView::Archived(result));
                &&& action == SyncActionView::Archive(state.pending.candidates)
                &&& last.accepts(SyncEventView::Archived(result))
                &&& if announces(result) {
                    &&& then_do is Notify
                    &&& answered.accepts(SyncEventView::Notified)
                    &&& sync_next(answered, SyncEventView::Notified).1 is Finish
                } else {
                    then_do is Finish
                }
            }
        }),
{
}

/// When the oldest buffered candidate arrived; none while nothing is buffered.
pub open spec fn oldest_arrival(events: Seq<SyncEventView>) -> Option<u64>
    decreases events.len(),
{
    if events.len() == 0 {
        None
    } else {
        let before = events.drop_last();
        if state_after(events).pending.candidates.len() == 0 {
            None
        } else if state_after(before).pending.candidates.len() == 0 {
            match events.last() {
                SyncEventView::Received { now, .. } => Some(now),
                _ => None,
            }
        } else {
            oldest_arrival(before)
        }
    }
}

/// While something is buffered, the deadline of whatever is due is the arrival
/// of the oldest buffered event plus the wait, however many events trickle in
/// behind it.
pub proof fn law_trickle_cannot_postpone_the_flush(events: Seq<SyncEventView>)
    requires
        is_run(events),
        state_after(events).pending.candidates.len() > 0,
    ensures
        oldest_arrival(events) is Some,
        state_after(events).pending.deadline == Some(
            (oldest_arrival(events)->0 + FLUSH_DEADLINE) as u64,
        ),
        oldest_arrival(events)->0 + FLUSH_DEADLINE <= u64::MAX,
        action_after(events).deadline() == state_after(events).pending.deadline,
    decreases events.len(),
{
    let before = events.drop_last();
    law_actions_come_with_the_deadline(events);
    law_buffer_is_bounded_and_timed(events);
    law_buffer_is_bounded_and_timed(before);
    if state_after(before).pending.candidates.len() > 0 {
        law_trickle_cannot_postpone_the_flush(before);
    }
}

/// The candidates that a run's events ought to become, told from the events
/// alone: for each event that was received under a subscription of the plan
/// applied last, the text of the event under the scope that this plan gives
/// for the subscription, in the order they were received.
pub open spec fn received_in_force(events: Seq<SyncEventView>) -> Seq<ArchiveCandidateView>
    decreases events.len(),
{
    if events.len() == 0 {
        seq![]
    } else {
        let before = received_in_force(events.drop_last());
        match (events.last(), applied_plan(events.drop_last())) {
            (SyncEventView::Received { event, .. }, Some(plan)) => if plan.scopes.contains_key(
                event.subscription_id,
            ) {
                before.push(
                    ArchiveCandidateView {
                        raw_event_json: event.event,
                        matched_scope: plan.scopes[event.subscription_id],
                    },
                )
            } else {
                before
            },
            _ => before,
        }
    }
}

/// What is archived is what was received: the archive gets the text of each
/// event of a subscription in force, under the scope that the applied plan
/// gives for that subscription, each once and in order. What it has not got
/// yet is buffered, and once the loop has ended, nothing is.
pub proof fn law_archive_gets_the_received_events(events: Seq<SyncEventView>)
    requires
        is_run(events),
    ensures
        archived(events) + state_after(events).pending.candidates == received_in_force(events),
        state_after(events).stage is Finished ==> archived(events) == received_in_force(events),
{
    law_matched_events_are_archived_or_pending(events);
    lemma_matched_are_received(events);
    if state_after(events).stage is Finished {
        law_end_leaves_nothing_behind(events);
    }
}

proof fn lemma_matched_are_received(events: Seq<SyncEventView>)
    requires
        is_run(events),
    ensures
        matched(events) == received_in_force(events),
    decreases events.len(),
{
    if events.len() > 0 {
        lemma_matched_are_received(events.drop_last());
        law_scopes_follow_the_applied_plan(events.drop_last());
    }
}

/// An event of a subscription in force is buffered as it is: behind what is
/// buffered already comes the event's own text under the scope that the
/// applied plan gives for its subscription, of whichever scope type. The loop
/// waits on, or, where that makes a full batch, all of it goes out.
pub proof fn law_event_is_buffered_with_its_text_and_scope(
    events: Seq<SyncEventView>,
    event: MatchedEventView,
    now: u64,
)
    requires
        is_run(events),
        state_after(events).accepts(SyncEventView::Received { event, now }),
        applied_plan(events) is Some,
        applied_plan(events)->0.scopes.contains_key(event.subscription_id),
    ensures
        ({
            let buffered = state_after(events).pending.candidates.push(
                ArchiveCandidateView {
                    raw_event_json: event.event,
                    matched_scope: applied_plan(events)->0.scopes[event.subscription_id],
                },
            );
            let (next, action) = sync_next(
                state_after(events),
                SyncEventView::Received { event, now },
            );
            &&& next.scopes == state_after(events).scopes
            &&& buffered.len() < 25 ==> action is Wait && next.stage is Waiting
                && next.pending.candidates == buffered
            &&& buffered.len() >= 25 ==> action == SyncActionView::Archive(buffered)
                && next.pending.candidates.len() == 0
        }),
{
    law_scopes_follow_the_applied_plan(events);
}

/// Whether a run was told to end: it was cancelled, or ran out of events.
pub open spec fn told_to_end(events: Seq<SyncEventView>) -> bool {
    exists|i: int|
        0 <= i < events.len() && (#[trigger] events[i] is Cancelled || events[i] is EventsEnded)
}

proof fn lemma_told_to_end(events: Seq<SyncEventView>)
    requires
        is_run(events),
    ensures
        state_after(events).stage is Finished || state_after(events).stage
            == SyncStageView::Archiving(AfterFlushView::End) || state_after(events).stage
            == SyncStageView::Notifying(AfterFlushView::End) <==> told_to_end(events),
    decreases events.len(),
{
    if events.len() > 0 {
        let before = events.drop_last();
        lemma_told_to_end(before);
        if told_to_end(before) {
            let i = choose|i: int|
                0 <= i < before.len() && (#[trigger] before[i] is Cancelled
                    || before[i] is EventsEnded);
            assert(events[i] is Cancelled || events[i] is EventsEnded);
        }
        if told_to_end(events) && !told_to_end(before) {
            let i = choose|i: int|
                0 <= i < events.len() && (#[trigger] events[i] is Cancelled
                    || events[i] is EventsEnded);
            if i < before.len() {
                assert(before[i] is Cancelled || before[i] is EventsEnded);
            }
        }
        if events.last() is Cancelled || events.last() is EventsEnded {
            assert(events[events.len() - 1] is Cancelled || events[events.len() - 1]
                is EventsEnded);
        }
    }
}

/// A loop ends only if it was told to: in every run, it finishes only where it
/// was cancelled or ran out of events. Once it was, it takes nothing more but
/// the answer to its last batch.
pub proof fn law_loop_ends_only_when_told_to(events: Seq<SyncEventView>)
    requires
        is_run(events),
    ensures
        state_after(events).stage is Finished || action_after(events) is Finish ==> exists|i: int|
            0 <= i < events.len() && (#[trigger] events[i] is Cancelled
                || events[i] is EventsEnded),
        told_to_end(events) ==> forall|event: SyncEventView| #[trigger]
            state_after(events).accepts(event) ==> event is Archived || event is Notified,
{
    lemma_told_to_end(events);
    law_action_tells_what_is_waited_for(events, SyncEventView::Applied);
}

/// A batch that goes out while the loop waits leads back to waiting: once the
/// archive has answered, whatever it answers, and the metrics it persisted are
/// announced, the loop waits with the same scopes in force and an empty
/// buffer. They are announced exactly where there are any.
pub proof fn law_flush_leads_back_to_waiting(
    events: Seq<SyncEventView>,
    event: SyncEventView,
    result: Option<ArchiveBatchResult>,
)
    requires
        is_run(events),
        state_after(events).stage is Waiting,
        state_after(events).accepts(event),
        event is Received || event is DeadlineElapsed,
        sync_next(state_after(events), event).1 is Archive,
    ensures
        ({
            let state = state_after(events);
            let flushed = sync_next(state, event).0;
            let (answered, action) = sync_next(flushed, SyncEventView::Archived(result));
            let (announced, then_do) = sync_next(answered, SyncEventView::Notified);
            &&& flushed.accepts(SyncEventView::Archived(result))
            &&& if result is Some && result->0.persisted_agent_metrics > 0 {
                &&& action is Notify
                &&& answered.accepts(SyncEventView::Notified)
                &&& then_do == (SyncActionView::Wait { deadline: None })
                &&& announced.stage is Waiting
                &&& announced.scopes == state.scopes
                &&& announced.pending.candidates.len() == 0
                &&& announced.pending.deadline is None
            } else {
                &&& action == (SyncActionView::Wait { deadline: None })
                &&& answered.stage is Waiting
                &&& answered.scopes == state.scopes
                &&& answered.pending.candidates.len() == 0
                &&& answered.pending.deadline is None
            }
        }),
{
    law_buffer_is_bounded_and_timed(events);
}

/// In every run the loop waits for the outcomes of the action that is due, for
/// each of them and for nothing else. The deadline is one of them wherever the
/// action comes with one, and an event is always taken where the deadline that
/// it would start can be told.
pub proof fn law_action_tells_what_is_waited_for(
    events: Seq<SyncEventView>,
    event: SyncEventView,
)
    requires
        is_run(events),
    ensures
        action_after(events) is Resume ==> state_after(events).stage is Listing || state_after(
            events,
        ).stage is Applying,
        state_after(events).accepts(event) <==> match event {
            SyncEventView::Listed(_) => action_after(events) is List || (action_after(
                events,
            ) is Resume && state_after(events).stage is Listing),
            SyncEventView::Applied => action_after(events) is Apply || (action_after(
                events,
            ) is Resume && state_after(events).stage is Applying),
            SyncEventView::Cancelled => action_after(events) is Wait,
            SyncEventView::ReloadRequested => action_after(events) is Wait,
            SyncEventView::EventsEnded => action_after(events) is Wait,
            SyncEventView::DeadlineElapsed => state_after(events).pending.candidates.len() > 0,
            SyncEventView::Received { event, now } => action_after(events) is Wait && (
            !state_after(events).scopes.contains_key(event.subscription_id) || state_after(
                events,
            ).pending.candidates.len() > 0 || now + 2_000_000_000 <= u64::MAX),
            SyncEventView::Archived(_) => action_after(events) is Archive,
            SyncEventView::Notified => action_after(events) is Notify,
        },
        match action_after(events) {
            SyncActionView::List { .. } => state_after(events).stage is Listing,
            SyncActionView::Apply { .. } => state_after(events).stage is Applying,
            SyncActionView::Resume { .. } => true,
            SyncActionView::Wait { .. } => state_after(events).stage is Waiting,
            SyncActionView::Archive(_) => state_after(events).stage is Archiving,
            SyncActionView::Notify => state_after(events).stage is Notifying,
            SyncActionView::Finish => state_after(events).stage is Finished,
        },
    decreases events.len(),
{
    law_buffer_is_bounded_and_timed(events);
    if events.len() > 0 {
        law_action_tells_what_is_waited_for(events.drop_last(), event);
        law_buffer_is_bounded_and_timed(events.drop_last());
    }
}

} // verus!
