//! What the contracts speak of is what the values hold: no view leaves out,
//! moves or alters a part that it stands for.

use vstd::prelude::*;

use crate::archive::{ArchiveBatchResult, ArchiveCandidate, MatchedScope, SaveSubscription};
use crate::batch::PendingBatch;
use crate::connection::{
    Connection, ConnectionAction, ConnectionActionView, ConnectionEvent, ConnectionEventView,
    ConnectionStage, ConnectionStageView, ReadError, RelayMessage, RelayMessageView,
};
use crate::control::ArchiveSyncState;
use crate::json::Json;
use crate::plan::SavedScope;
use crate::subscription::{MatchedEvent, Subscription};
use crate::sync::{
    AfterFlush, AfterFlushView, SyncAction, SyncActionView, SyncEvent, SyncEventView, SyncLoop,
    SyncStage, SyncStageView,
};
use crate::table::Table;
use crate::views::views;

verus! {

/// The meaning of a sequence has the meaning of each item in its place.
pub proof fn law_views_keep_places<T: View>(items: Seq<T>)
    ensures
        views(items).len() == items.len(),
        forall|i: int| 0 <= i < items.len() ==> #[trigger] views(items)[i] == items[i]@,
{
}

/// A saved row, with its kinds decoded or not, means its columns.
pub proof fn law_rows_mean_their_columns(row: SaveSubscription, scope: SavedScope)
    ensures
        row@.identity_pubkey == row.identity_pubkey@,
        row@.relay_url == row.relay_url@,
        row@.scope_type == row.scope_type@,
        row@.scope_value == row.scope_value@,
        row@.kinds == row.kinds@,
        row@.created_at == row.created_at,
        scope@.scope_type == scope.scope_type@,
        scope@.scope_value == scope.scope_value@,
        scope@.kinds == scope.kinds@,
{
}

/// A candidate means its text and its scope, and a scope its type and value.
pub proof fn law_candidates_mean_text_and_scope(candidate: ArchiveCandidate, scope: MatchedScope)
    ensures
        candidate@.raw_event_json == candidate.raw_event_json@,
        candidate@.matched_scope == candidate.matched_scope@,
        scope@.scope_type == scope.scope_type,
        scope@.scope_value == scope.scope_value@,
{
}

/// A subscription means its id and its filter, and a matched event its
/// subscription's id and its text.
pub proof fn law_subscriptions_and_events_mean_their_parts(
    subscription: Subscription,
    event: MatchedEvent,
)
    ensures
        subscription@.id == subscription.id@,
        subscription@.filter == subscription.filter@,
        event@.subscription_id == event.subscription_id@,
        event@.event == event.event@,
{
}

/// A batch means its candidates, in their order, and its deadline.
pub proof fn law_batches_mean_their_candidates(batch: PendingBatch)
    ensures
        batch@.deadline == batch.deadline,
        batch@.candidates.len() == batch.candidates@.len(),
        forall|i: int|
            0 <= i < batch.candidates@.len() ==> #[trigger] batch@.candidates[i]
                == batch.candidates@[i]@,
{
}

/// A sync loop means its scopes, its batch and its stage, and a stage what is
/// kept in it.
pub proof fn law_loops_mean_their_parts(state: SyncLoop, scopes: Table<MatchedScope>, after: AfterFlush)
    ensures
        state@.scopes == state.scopes@,
        state@.pending == state.pending@,
        state@.stage == state.stage@,
        SyncStage::Listing@ == SyncStageView::Listing,
        SyncStage::Applying(scopes)@ == SyncStageView::Applying(scopes@),
        SyncStage::Waiting@ == SyncStageView::Waiting,
        SyncStage::Archiving(after)@ == SyncStageView::Archiving(after@),
        SyncStage::Notifying(after)@ == SyncStageView::Notifying(after@),
        SyncStage::Finished@ == SyncStageView::Finished,
        AfterFlush::Wait@ == AfterFlushView::Wait,
        AfterFlush::List@ == AfterFlushView::List,
        AfterFlush::Apply(scopes)@ == AfterFlushView::Apply(scopes@),
        AfterFlush::End@ == AfterFlushView::End,
{
}

/// What happens to a sync loop means what it carries; of a failure it means
/// only that it was one.
pub proof fn law_sync_events_mean_what_they_carry(
    rows: Vec<SaveSubscription>,
    event: MatchedEvent,
    now: u64,
    result: ArchiveBatchResult,
    error: String,
)
    ensures
        SyncEvent::Listed(Ok(rows))@ == SyncEventView::Listed(Some(views(rows@))),
        SyncEvent::Listed(Err(error))@ == SyncEventView::Listed(None),
        SyncEvent::Applied@ == SyncEventView::Applied,
        SyncEvent::Cancelled@ == SyncEventView::Cancelled,
        SyncEvent::ReloadRequested@ == SyncEventView::ReloadRequested,
        SyncEvent::DeadlineElapsed@ == SyncEventView::DeadlineElapsed,
        (SyncEvent::Received { event, now })@ == (SyncEventView::Received { event: event@, now }),
        SyncEvent::EventsEnded@ == SyncEventView::EventsEnded,
        SyncEvent::Archived(Ok(result))@ == SyncEventView::Archived(Some(result)),
        SyncEvent::Archived(Err(error))@ == SyncEventView::Archived(None),
        SyncEvent::Notified@ == SyncEventView::Notified,
{
}

/// What a sync loop asks for means what it hands over, and by when.
pub proof fn law_sync_actions_mean_what_they_hand_over(
    subscriptions: Vec<Subscription>,
    candidates: Vec<ArchiveCandidate>,
    deadline: Option<u64>,
)
    ensures
        (SyncAction::List { deadline })@ == (SyncActionView::List { deadline }),
        (SyncAction::Apply { subscriptions, deadline })@ == (SyncActionView::Apply {
            subscriptions: views(subscriptions@),
            deadline,
        }),
        (SyncAction::Resume { deadline })@ == (SyncActionView::Resume { deadline }),
        (SyncAction::Wait { deadline })@ == (SyncActionView::Wait { deadline }),
        SyncAction::Archive(candidates)@ == SyncActionView::Archive(views(candidates@)),
        SyncAction::Notify@ == SyncActionView::Notify,
        SyncAction::Finish@ == SyncActionView::Finish,
        (SyncActionView::List { deadline }).deadline() == deadline,
        (SyncActionView::Apply { subscriptions: views(subscriptions@), deadline }).deadline()
            == deadline,
        (SyncActionView::Resume { deadline }).deadline() == deadline,
        (SyncActionView::Wait { deadline }).deadline() == deadline,
        SyncActionView::Archive(views(candidates@)).deadline() is None,
        SyncActionView::Notify.deadline() is None,
        SyncActionView::Finish.deadline() is None,
{
}

/// A connection means what is open on it and its stage, and a stage what is
/// kept in it.
pub proof fn law_connections_mean_their_parts(
    connection: Connection,
    desired: Vec<Subscription>,
    stale: Vec<String>,
    next: usize,
)
    ensures
        connection@.open == connection.open@,
        connection@.stage == connection.stage@,
        ConnectionStage::Loading@ == ConnectionStageView::Loading,
        (ConnectionStage::Reconciling { desired, stale, next })@ == (
        ConnectionStageView::Reconciling {
            desired: views(desired@),
            stale: views(stale@),
            next: next as int,
        }),
        ConnectionStage::Waiting@ == ConnectionStageView::Waiting,
        ConnectionStage::Delivering@ == ConnectionStageView::Delivering,
        ConnectionStage::Disconnecting@ == ConnectionStageView::Disconnecting,
        ConnectionStage::Ended@ == ConnectionStageView::Ended,
{
}

/// What happens to a connection means what it carries; of a closed message it
/// means the id.
pub proof fn law_connection_events_mean_what_they_carry(
    desired: Vec<Subscription>,
    flag: bool,
    event: MatchedEvent,
    subscription_id: String,
    message: String,
    said: RelayMessage,
    error: ReadError,
)
    ensures
        ConnectionEvent::Loaded(desired)@ == ConnectionEventView::Loaded(views(desired@)),
        (ConnectionEvent::Sent { sent: flag })@ == (ConnectionEventView::Sent { sent: flag }),
        ConnectionEvent::Woken@ == ConnectionEventView::Woken,
        ConnectionEvent::Cancelled@ == ConnectionEventView::Cancelled,
        ConnectionEvent::Read(Ok(said))@ == ConnectionEventView::Read(Ok(said@)),
        ConnectionEvent::Read(Err(error))@ == ConnectionEventView::Read(Err(error)),
        (ConnectionEvent::Delivered { taken: flag })@ == (ConnectionEventView::Delivered {
            taken: flag,
        }),
        ConnectionEvent::Disconnected@ == ConnectionEventView::Disconnected,
        RelayMessage::Event(event)@ == RelayMessageView::Event(event@),
        (RelayMessage::Closed { subscription_id, message })@ == (RelayMessageView::Closed {
            subscription_id: subscription_id@,
        }),
        RelayMessage::Other@ == RelayMessageView::Other,
{
}

/// What a connection asks for means what it hands over.
pub proof fn law_connection_actions_mean_what_they_hand_over(frame: Json, event: MatchedEvent)
    ensures
        ConnectionAction::Load@ == ConnectionActionView::Load,
        ConnectionAction::Send(frame)@ == ConnectionActionView::Send(frame@),
        ConnectionAction::Wait@ == ConnectionActionView::Wait,
        ConnectionAction::Deliver(event)@ == ConnectionActionView::Deliver(event@),
        ConnectionAction::Disconnect@ == ConnectionActionView::Disconnect,
        ConnectionAction::End@ == ConnectionActionView::End,
{
}

/// What is known of the sync task means whether one runs, and if so for whom,
/// at which relay and under which handle.
pub proof fn law_sync_state_means_what_runs<H>(state: ArchiveSyncState<H>)
    ensures
        state@ is Some <==> state.running is Some,
        state.running is Some ==> {
            &&& state@->0.identity == state.running->0.scope.0@
            &&& state@->0.relay_url == state.running->0.scope.1@
            &&& state@->0.handle == state.running->0.handle
        },
{
}

} // verus!
