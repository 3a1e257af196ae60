//! What a connection and its relay come to together: what the relay holds is
//! told from the frames that were sent to it, and a connection's own book, its
//! frames and its waits are held against that.

use vstd::prelude::*;

use crate::connection::{
    close_frame, connection_next, connection_start, in_line, is_desired,
    lemma_steps_keep_well_formed, reconciling, request_frame, ConnectionActionView,
    ConnectionEventView, ConnectionView, ReadError, RelayMessageView, READ_TIMEOUT,
};
use crate::connection_laws::{
    distinct, law_frames_go_out_one_by_one, lemma_begun,
    lemma_reconciling, lemma_target_holds, lemma_target_ids, open_at_last, settled, target,
};
use crate::json::JsonView;
use crate::subscription::SubscriptionView;

verus! {

/// A request is a list of exactly three items: the verb, the subscription's id
/// and the subscription's own filter, whatever they are.
pub proof fn law_request_carries_id_and_filter(subscription: SubscriptionView)
    ensures
        request_frame(subscription) is List,
        request_frame(subscription)->List_0.len() == 3,
        request_frame(subscription)->List_0[0] == JsonView::Text("REQ"@),
        request_frame(subscription)->List_0[1] == JsonView::Text(subscription.id),
        request_frame(subscription)->List_0[2] == subscription.filter,
{
}

/// A closing is a list of exactly two items: the verb and the id.
pub proof fn law_closing_carries_the_id(id: Seq<char>)
    ensures
        close_frame(id) is List,
        close_frame(id)->List_0.len() == 2,
        close_frame(id)->List_0[0] == JsonView::Text("CLOSE"@),
        close_frame(id)->List_0[1] == JsonView::Text(id),
{
}

/// A read may block for half a minute.
pub proof fn law_reads_block_for_half_a_minute()
    ensures
        READ_TIMEOUT == 30 * 1_000,
{
}

/// What happened to a connection, and where it led.
pub struct ConnectionStep {
    pub event: ConnectionEventView,
    pub state: ConnectionView,
    pub action: ConnectionActionView,
}

/// The state after these steps.
pub open spec fn state_of(steps: Seq<ConnectionStep>) -> ConnectionView {
    if steps.len() == 0 {
        connection_start()
    } else {
        steps.last().state
    }
}

/// The action that is due after these steps.
pub open spec fn action_of(steps: Seq<ConnectionStep>) -> ConnectionActionView {
    if steps.len() == 0 {
        ConnectionActionView::Load
    } else {
        steps.last().action
    }
}

/// Whether these are steps of a connection from its start on: each event was
/// waited for, and led where it may lead.
pub open spec fn is_connection_run(steps: Seq<ConnectionStep>) -> bool
    decreases steps.len(),
{
    steps.len() == 0 || {
        let before = steps.drop_last();
        &&& is_connection_run(before)
        &&& state_of(before).accepts(steps.last().event)
        &&& connection_next(
            state_of(before),
            steps.last().event,
            (steps.last().state, steps.last().action),
        )
    }
}

/// What the relay holds once it has read a frame: a request puts its filter
/// under its id, in place of any other there, and a closing drops the id.
pub open spec fn once_read(
    held: Map<Seq<char>, JsonView>,
    frame: JsonView,
) -> Map<Seq<char>, JsonView> {
    match frame {
        JsonView::List(items) => if items.len() == 3 && items[0] == JsonView::Text("REQ"@)
            && items[1] is Text {
            held.insert(items[1]->Text_0, items[2])
        } else if items.len() == 2 && items[0] == JsonView::Text("CLOSE"@) && items[1] is Text {
            held.remove(items[1]->Text_0)
        } else {
            held
        },
        _ => held,
    }
}

/// The subscriptions that the relay holds for a connection: by the frames that
/// were sent, and without those that the relay said it closed.
pub open spec fn relay_holds(steps: Seq<ConnectionStep>) -> Map<Seq<char>, JsonView>
    decreases steps.len(),
{
    if steps.len() == 0 {
        Map::empty()
    } else {
        let before = relay_holds(steps.drop_last());
        match steps.last().event {
            ConnectionEventView::Sent { sent: true } => match action_of(steps.drop_last()) {
                ConnectionActionView::Send(frame) => once_read(before, frame),
                _ => before,
            },
            ConnectionEventView::Read(Ok(RelayMessageView::Closed { subscription_id })) =>
                before.remove(subscription_id),
            _ => before,
        }
    }
}

/// The desired set as it was found last; none before the first time.
pub open spec fn last_loaded(steps: Seq<ConnectionStep>) -> Seq<SubscriptionView>
    decreases steps.len(),
{
    if steps.len() == 0 {
        seq![]
    } else {
        match steps.last().event {
            ConnectionEventView::Loaded(desired) => desired,
            _ => last_loaded(steps.drop_last()),
        }
    }
}

/// Finding the next frame leaves the desired set as it is.
proof fn lemma_reconciling_keeps_desired(
    open: Map<Seq<char>, JsonView>,
    desired: Seq<SubscriptionView>,
    stale: Seq<Seq<char>>,
    next: int,
)
    ensures
        reconciling(open, desired, stale, next).0.open == open,
        reconciling(open, desired, stale, next).0.stage is Reconciling || reconciling(
            open,
            desired,
            stale,
            next,
        ).0.stage is Waiting,
        reconciling(open, desired, stale, next).0.stage is Reconciling ==> reconciling(
            open,
            desired,
            stale,
            next,
        ).0.stage->desired == desired,
    decreases desired.len() - next,
{
    if stale.len() == 0 && next < desired.len() && in_line(open, desired[next]) {
        lemma_reconciling_keeps_desired(open, desired, stale, next + 1);
    }
}

/// The frame that is under way while reconciling.
spec fn under_way(state: ConnectionView) -> JsonView {
    if state.stage->stale.len() > 0 {
        close_frame(state.stage->stale.last())
    } else {
        request_frame(state.stage->desired[state.stage->next])
    }
}

/// What holds after every run.
proof fn lemma_run(steps: Seq<ConnectionStep>)
    requires
        is_connection_run(steps),
    ensures
        state_of(steps).well_formed(),
        state_of(steps).stage is Reconciling ==> {
            &&& state_of(steps).stage->desired == last_loaded(steps)
            &&& open_at_last(state_of(steps)) == target(last_loaded(steps))
            &&& action_of(steps) == ConnectionActionView::Send(under_way(state_of(steps)))
        },
        match action_of(steps) {
            ConnectionActionView::Load => state_of(steps).stage is Loading,
            ConnectionActionView::Send(_) => state_of(steps).stage is Reconciling,
            ConnectionActionView::Wait => state_of(steps).stage is Waiting,
            ConnectionActionView::Deliver(_) => state_of(steps).stage is Delivering,
            ConnectionActionView::Disconnect => state_of(steps).stage is Disconnecting,
            ConnectionActionView::End => state_of(steps).stage is Ended,
        },
        steps.len() > 0 && (steps.last().event is Loaded || steps.last().event
            == (ConnectionEventView::Sent { sent: true })) && action_of(steps) is Wait
            ==> state_of(steps).open == target(last_loaded(steps)),
        state_of(steps).open == relay_holds(steps),
    decreases steps.len(),
{
    if steps.len() > 0 {
        let earlier = steps.drop_last();
        lemma_run(earlier);
        let before = state_of(earlier);
        let event = steps.last().event;
        let next = (steps.last().state, steps.last().action);
        lemma_steps_keep_well_formed(before, event);
        assert(connection_next(before, event, next));
        match event {
            ConnectionEventView::Loaded(desired) => {
                let stale = lemma_begun(before, desired, next);
                lemma_reconciling_keeps_desired(before.open, desired, stale, 0);
            },
            ConnectionEventView::Sent { sent: true } => {
                law_frames_go_out_one_by_one(before);
                let desired = before.stage->desired;
                let stale = before.stage->stale;
                let at = before.stage->next;
                if stale.len() > 0 {
                    lemma_reconciling_keeps_desired(
                        before.open.remove(stale.last()),
                        desired,
                        stale.drop_last(),
                        at,
                    );
                } else {
                    lemma_reconciling_keeps_desired(
                        before.open.insert(desired[at].id, desired[at].filter),
                        desired,
                        stale,
                        at + 1,
                    );
                }
            },
            _ => {},
        }
    }
}

/// The book is right: in every run, the subscriptions that a connection keeps
/// as open are those that the relay holds by what it was sent, each with the
/// filter that the relay was sent for it.
pub proof fn law_open_subscriptions_are_those_the_relay_holds(steps: Seq<ConnectionStep>)
    requires
        is_connection_run(steps),
    ensures
        state_of(steps).open == relay_holds(steps),
{
    lemma_run(steps);
}

/// In every run the connection waits for the outcomes of the action that is
/// due, for each of them and for nothing else. The first is to look up the
/// desired set.
pub proof fn law_connection_awaits_what_its_action_brings(
    steps: Seq<ConnectionStep>,
    event: ConnectionEventView,
)
    requires
        is_connection_run(steps),
    ensures
        state_of(steps).accepts(event) <==> match action_of(steps) {
            ConnectionActionView::Load => event is Loaded,
            ConnectionActionView::Send(_) => event is Sent,
            ConnectionActionView::Wait => event is Woken || event is Cancelled || event is Read,
            ConnectionActionView::Deliver(_) => event is Delivered,
            ConnectionActionView::Disconnect => event is Disconnected,
            ConnectionActionView::End => false,
        },
{
    lemma_run(steps);
}

/// Under an id that occurs no more behind `i`, the target has the filter there.
proof fn lemma_target_has_the_last(desired: Seq<SubscriptionView>, i: int)
    requires
        0 <= i < desired.len(),
        forall|j: int| i < j < desired.len() ==> (#[trigger] desired[j]).id != desired[i].id,
    ensures
        target(desired)[desired[i].id] == desired[i].filter,
    decreases desired.len(),
{
    if i < desired.len() - 1 {
        let rest = desired.drop_last();
        assert forall|j: int| i < j < rest.len() implies (#[trigger] rest[j]).id != rest[i].id by {
            assert(desired[j].id != desired[i].id);
        }
        lemma_target_has_the_last(rest, i);
        assert(desired[desired.len() - 1].id != desired[i].id);
    }
}

/// When a connection has looked up the desired set and goes over to waiting,
/// the relay holds that set: a subscription under each desired id and no
/// other, each with the desired filter. Where an id is desired twice, the
/// later filter counts.
pub proof fn law_waiting_means_that_the_relay_holds_the_desired_set(steps: Seq<ConnectionStep>)
    requires
        is_connection_run(steps),
        steps.len() > 0,
        steps.last().event is Loaded || steps.last().event == (ConnectionEventView::Sent {
            sent: true,
        }),
        action_of(steps) is Wait,
    ensures
        forall|id: Seq<char>| #[trigger]
            relay_holds(steps).contains_key(id) <==> exists|i: int|
                0 <= i < last_loaded(steps).len() && (#[trigger] last_loaded(steps)[i]).id == id,
        forall|i: int|
            0 <= i < last_loaded(steps).len() && (forall|j: int|
                i < j < last_loaded(steps).len() ==> (#[trigger] last_loaded(steps)[j]).id
                    != last_loaded(steps)[i].id) ==> relay_holds(steps)[(#[trigger] last_loaded(
                steps,
            )[i]).id] == last_loaded(steps)[i].filter,
{
    let desired = last_loaded(steps);
    lemma_run(steps);
    lemma_target_ids(desired);
    assert forall|id: Seq<char>| #[trigger]
        relay_holds(steps).contains_key(id) <==> exists|i: int|
            0 <= i < desired.len() && (#[trigger] desired[i]).id == id by {
        assert(target(desired).contains_key(id) <==> is_desired(desired, id));
    }
    assert forall|i: int|
        0 <= i < desired.len() && (forall|j: int|
            i < j < desired.len() ==> (#[trigger] desired[j]).id
                != desired[i].id) implies relay_holds(steps)[(#[trigger] desired[i]).id]
        == desired[i].filter by {
        lemma_target_has_the_last(desired, i);
    }
}

/// With no id stale, what is open stays open, and an id that is not requested
/// any more keeps its filter.
proof fn lemma_settled_extends(
    open: Map<Seq<char>, JsonView>,
    desired: Seq<SubscriptionView>,
    next: int,
    id: Seq<char>,
)
    requires
        0 <= next <= desired.len(),
    ensures
        open.contains_key(id) ==> settled(open, desired, seq![], next).contains_key(id),
        (forall|i: int| next <= i < desired.len() ==> (#[trigger] desired[i]).id != id) ==> {
            &&& open.contains_key(id) == settled(open, desired, seq![], next).contains_key(id)
            &&& open.contains_key(id) ==> open[id] == settled(open, desired, seq![], next)[id]
        },
    decreases desired.len() - next,
{
    if next < desired.len() {
        let opened = if in_line(open, desired[next]) {
            open
        } else {
            open.insert(desired[next].id, desired[next].filter)
        };
        lemma_settled_extends(opened, desired, next + 1, id);
    }
}

/// Every frame that is due is called for. It is a closing of an id that the
/// relay holds and that is not desired; or, once nothing else is to be closed,
/// it is a request for a desired subscription that the relay does not hold with
/// this filter. In a set without repeated ids, the relay then holds all those
/// before it in the set already: requests go out in the order of the set.
pub proof fn law_frames_are_called_for(steps: Seq<ConnectionStep>)
    requires
        is_connection_run(steps),
        action_of(steps) is Send,
    ensures
        ({
            let frame = action_of(steps)->Send_0->List_0;
            let held = relay_holds(steps);
            let desired = last_loaded(steps);
            &&& action_of(steps)->Send_0 is List
            &&& frame.len() == 2 || frame.len() == 3
            &&& frame.len() == 2 ==> {
                &&& frame[0] == JsonView::Text("CLOSE"@)
                &&& frame[1] is Text
                &&& held.contains_key(frame[1]->Text_0)
                &&& forall|i: int|
                    0 <= i < desired.len() ==> (#[trigger] desired[i]).id != frame[1]->Text_0
            }
            &&& frame.len() == 3 ==> {
                &&& frame[0] == JsonView::Text("REQ"@)
                &&& frame[1] is Text
                &&& !(held.contains_key(frame[1]->Text_0) && held[frame[1]->Text_0] == frame[2])
                &&& forall|id: Seq<char>| #[trigger]
                    held.contains_key(id) ==> exists|i: int|
                        0 <= i < desired.len() && (#[trigger] desired[i]).id == id
                &&& exists|i: int|
                    0 <= i < desired.len() && (#[trigger] desired[i]).id == frame[1]->Text_0
                        && desired[i].filter == frame[2] && (distinct(desired) ==> forall|j: int|
                        0 <= j < i ==> held.contains_key((#[trigger] desired[j]).id)
                            && held[desired[j].id] == desired[j].filter)
            }
        }),
{
    lemma_run(steps);
    let state = state_of(steps);
    let held = relay_holds(steps);
    let desired = last_loaded(steps);
    let stale = state.stage->stale;
    let next = state.stage->next;
    if stale.len() > 0 {
        let id = stale[stale.len() - 1];
        assert(held.contains_key(id) && !is_desired(desired, id));
        assert forall|i: int| 0 <= i < desired.len() implies (#[trigger] desired[i]).id != id by {}
    } else {
        assert(stale =~= seq![]);
        lemma_target_ids(desired);
        assert(settled(held, desired, seq![], next) == target(desired));
        assert forall|id: Seq<char>| #[trigger] held.contains_key(id) implies exists|i: int|
            0 <= i < desired.len() && (#[trigger] desired[i]).id == id by {
            lemma_settled_extends(held, desired, next, id);
            assert(target(desired).contains_key(id));
            assert(is_desired(desired, id));
        }
        if distinct(desired) {
            assert forall|j: int| 0 <= j < next implies held.contains_key((#[trigger] desired[j]).id)
                && held[desired[j].id] == desired[j].filter by {
                lemma_settled_extends(held, desired, next, desired[j].id);
                lemma_target_holds(desired, j);
                assert forall|i: int| next <= i < desired.len() implies (#[trigger] desired[i]).id
                    != desired[j].id by {
                    assert(desired[j].id != desired[i].id);
                }
            }
        }
        assert(desired[next].id == desired[next].id);
    }
}

/// Where each event leads. Waking looks the desired set up anew; an event of a
/// subscription that is open is delivered as it came, and any other is
/// dropped; a subscription that the relay closed is forgotten and no other
/// one; nothing that was read but a failure ends the connection; an event that
/// was taken leads back to waiting; and being cancelled, like having nobody to
/// take an event, closes the socket.
pub proof fn law_connection_goes_on(
    state: ConnectionView,
    event: ConnectionEventView,
    next: (ConnectionView, ConnectionActionView),
)
    requires
        state.accepts(event),
        connection_next(state, event, next),
    ensures
        match event {
            ConnectionEventView::Loaded(_) => next.0.open == state.open && (next.1 is Send
                || next.1 is Wait),
            ConnectionEventView::Sent { sent } => if sent {
                next.1 is Send || next.1 is Wait
            } else {
                next.1 is End && next.0.open == state.open
            },
            ConnectionEventView::Woken => next.1 is Load && next.0.stage is Loading && next.0.open
                == state.open,
            ConnectionEventView::Cancelled => next.1 is Disconnect && next.0.stage is Disconnecting
                && next.0.open == state.open,
            ConnectionEventView::Read(Ok(RelayMessageView::Event(arrived))) => {
                &&& next.0.open == state.open
                &&& state.open.contains_key(arrived.subscription_id) ==> next.1
                    == ConnectionActionView::Deliver(arrived) && next.0.stage is Delivering
                &&& !state.open.contains_key(arrived.subscription_id) ==> next.1 is Wait
                    && next.0.stage is Waiting
            },
            ConnectionEventView::Read(Ok(RelayMessageView::Closed { subscription_id })) => {
                &&& next.1 is Wait
                &&& next.0.stage is Waiting
                &&& !next.0.open.contains_key(subscription_id)
                &&& forall|id: Seq<char>|
                    id != subscription_id ==> #[trigger] next.0.open.contains_key(id)
                        == state.open.contains_key(id) && (state.open.contains_key(id)
                        ==> next.0.open[id] == state.open[id])
            },
            ConnectionEventView::Read(Ok(RelayMessageView::Other)) => next.1 is Wait && next.0
                == state,
            ConnectionEventView::Read(Err(ReadError::Timeout)) => next.1 is Wait && next.0 == state,
            ConnectionEventView::Read(Err(ReadError::Failed)) => next.1 is End && next.0.stage
                is Ended,
            ConnectionEventView::Delivered { taken } => if taken {
                next.1 is Wait && next.0.stage is Waiting && next.0.open == state.open
            } else {
                next.1 is Disconnect && next.0.stage is Disconnecting
            },
            ConnectionEventView::Disconnected => next.1 is End && next.0.stage is Ended,
        },
{
    match event {
        ConnectionEventView::Loaded(desired) => {
            let stale = lemma_begun(state, desired, next);
        },
        ConnectionEventView::Sent { sent: true } => {
            let desired = state.stage->desired;
            let stale = state.stage->stale;
            let at = state.stage->next;
            if stale.len() > 0 {
                lemma_reconciling(
                    state.open.remove(stale.last()),
                    desired,
                    stale.drop_last(),
                    at,
                );
            } else {
                lemma_reconciling(
                    state.open.insert(desired[at].id, desired[at].filter),
                    desired,
                    stale,
                    at + 1,
                );
            }
        },
        _ => {},
    }
}

} // verus!
