//! What holds of every connection: what reconciling sends and where it leads,
//! and which events get through.

use vstd::prelude::*;

use crate::connection::{
    begins_reconciling, close_frame, connection_next, connection_start, in_line, is_desired,
    lemma_steps_keep_well_formed, lists_stale, reconciling, request_frame, ConnectionActionView,
    ConnectionEventView, ConnectionStageView, ConnectionView, ReadError, RelayMessageView,
};
use crate::json::JsonView;
use crate::plan::{
    law_id_identifies_scope_and_kinds, law_kind_order_does_not_change_the_plan,
    law_plan_ids_have_scopes, plan, same_rows, SavedScopeView,
};
use crate::subscription::{MatchedEventView, SubscriptionView};

verus! {

/// The subscriptions that ought to be open: the desired ones, by id. Where an
/// id is desired twice, the later filter counts.
pub open spec fn target(desired: Seq<SubscriptionView>) -> Map<Seq<char>, JsonView>
    decreases desired.len(),
{
    if desired.len() == 0 {
        Map::empty()
    } else {
        target(desired.drop_last()).insert(desired.last().id, desired.last().filter)
    }
}

/// Whether no id is desired twice.
pub open spec fn distinct(desired: Seq<SubscriptionView>) -> bool {
    forall|i: int, j: int|
        0 <= i < j < desired.len() ==> (#[trigger] desired[i]).id != (#[trigger] desired[j]).id
}

/// The frames that reconciling still sends, as long as each of them goes out.
pub open spec fn frames(
    open: Map<Seq<char>, JsonView>,
    desired: Seq<SubscriptionView>,
    stale: Seq<Seq<char>>,
    next: int,
) -> Seq<JsonView>
    decreases stale.len(), desired.len() - next,
{
    if stale.len() > 0 {
        seq![close_frame(stale.last())] + frames(
            open.remove(stale.last()),
            desired,
            stale.drop_last(),
            next,
        )
    } else if next >= desired.len() {
        seq![]
    } else if in_line(open, desired[next]) {
        frames(open, desired, stale, next + 1)
    } else {
        seq![request_frame(desired[next])] + frames(
            open.insert(desired[next].id, desired[next].filter),
            desired,
            stale,
            next + 1,
        )
    }
}

/// The open subscriptions once those frames are sent.
pub open spec fn settled(
    open: Map<Seq<char>, JsonView>,
    desired: Seq<SubscriptionView>,
    stale: Seq<Seq<char>>,
    next: int,
) -> Map<Seq<char>, JsonView>
    decreases stale.len(), desired.len() - next,
{
    if stale.len() > 0 {
        settled(open.remove(stale.last()), desired, stale.drop_last(), next)
    } else if next >= desired.len() {
        open
    } else if in_line(open, desired[next]) {
        settled(open, desired, stale, next + 1)
    } else {
        settled(
            open.insert(desired[next].id, desired[next].filter),
            desired,
            stale,
            next + 1,
        )
    }
}

/// The frames that a connection still sends before it waits again.
pub open spec fn frames_left(state: ConnectionView) -> Seq<JsonView> {
    match state.stage {
        ConnectionStageView::Reconciling { desired, stale, next } => frames(
            state.open,
            desired,
            stale,
            next,
        ),
        _ => seq![],
    }
}

/// The open subscriptions when it waits again.
pub open spec fn open_at_last(state: ConnectionView) -> Map<Seq<char>, JsonView> {
    match state.stage {
        ConnectionStageView::Reconciling { desired, stale, next } => settled(
            state.open,
            desired,
            stale,
            next,
        ),
        _ => state.open,
    }
}

/// Finding the next frame changes nothing of what is sent and of where it
/// leads, and the frame found is the first of them.
pub proof fn lemma_reconciling(
    open: Map<Seq<char>, JsonView>,
    desired: Seq<SubscriptionView>,
    stale: Seq<Seq<char>>,
    next: int,
)
    ensures
        ({
            let (state, action) = reconciling(open, desired, stale, next);
            &&& state.open == open
            &&& frames_left(state) == frames(open, desired, stale, next)
            &&& open_at_last(state) == settled(open, desired, stale, next)
            &&& match action {
                ConnectionActionView::Send(frame) => state.accepts(
                    ConnectionEventView::Sent { sent: true },
                ) && frames_left(state).len() > 0 && frames_left(state)[0] == frame,
                ConnectionActionView::Wait => state.stage is Waiting && frames_left(state).len()
                    == 0,
                _ => false,
            }
        }),
    decreases desired.len() - next,
{
    if stale.len() == 0 && next < desired.len() && in_line(open, desired[next]) {
        lemma_reconciling(open, desired, stale, next + 1);
    }
}

/// Reconciling sends its frames one after the other: the frame that is handed
/// out is the first that is left, and once it is sent the others are left.
/// When none is left the connection waits, with the subscriptions open that
/// were to be.
pub proof fn law_frames_go_out_one_by_one(state: ConnectionView)
    requires
        state.well_formed(),
        state.accepts(ConnectionEventView::Sent { sent: true }),
    ensures
        ({
            let (after, action) = state.frame_sent();
            &&& frames_left(state).len() > 0
            &&& frames_left(after) == frames_left(state).drop_first()
            &&& open_at_last(after) == open_at_last(state)
            &&& match action {
                ConnectionActionView::Send(frame) => frames_left(after).len() > 0 && frames_left(
                    after,
                )[0] == frame,
                ConnectionActionView::Wait => after.stage is Waiting && frames_left(after).len()
                    == 0 && after.open == open_at_last(state),
                _ => false,
            }
        }),
{
    let desired = state.stage->desired;
    let stale = state.stage->stale;
    let next = state.stage->next;
    if stale.len() > 0 {
        let open = state.open.remove(stale.last());
        lemma_reconciling(open, desired, stale.drop_last(), next);
        assert(frames_left(state).drop_first() =~= frames(open, desired, stale.drop_last(), next));
    } else {
        let open = state.open.insert(desired[next].id, desired[next].filter);
        lemma_reconciling(open, desired, stale, next + 1);
        assert(frames_left(state).drop_first() =~= frames(open, desired, stale, next + 1));
    }
}

/// The ids of the target are the desired ids.
pub proof fn lemma_target_ids(desired: Seq<SubscriptionView>)
    ensures
        forall|id: Seq<char>| #[trigger]
            target(desired).contains_key(id) <==> is_desired(desired, id),
    decreases desired.len(),
{
    if desired.len() > 0 {
        let rest = desired.drop_last();
        lemma_target_ids(rest);
        assert forall|id: Seq<char>| #[trigger]
            target(desired).contains_key(id) <==> is_desired(desired, id) by {
            assert(target(rest).contains_key(id) <==> is_desired(rest, id));
            assert(desired[desired.len() - 1].id == desired.last().id);
            if is_desired(rest, id) {
                let i = choose|i: int| 0 <= i < rest.len() && (#[trigger] rest[i]).id == id;
                assert(desired[i].id == id);
            }
            if is_desired(desired, id) {
                let i = choose|i: int| 0 <= i < desired.len() && (#[trigger] desired[i]).id == id;
                if i < rest.len() {
                    assert(rest[i].id == id);
                }
            }
        }
    }
}

/// What has been reached on the way: every open id is desired or still stale,
/// and the desired subscriptions below `next` are open as they ought to be.
spec fn on_the_way(
    open: Map<Seq<char>, JsonView>,
    desired: Seq<SubscriptionView>,
    stale: Seq<Seq<char>>,
    next: int,
) -> bool {
    &&& 0 <= next <= desired.len()
    &&& forall|id: Seq<char>| #[trigger]
        open.contains_key(id) ==> is_desired(desired, id) || stale.contains(id)
    &&& forall|i: int| 0 <= i < stale.len() ==> !is_desired(desired, #[trigger] stale[i])
    &&& forall|id: Seq<char>| #[trigger]
        target(desired.take(next)).contains_key(id) ==> open.contains_key(id) && open[id]
            == target(desired.take(next))[id]
}

proof fn lemma_settled(
    open: Map<Seq<char>, JsonView>,
    desired: Seq<SubscriptionView>,
    stale: Seq<Seq<char>>,
    next: int,
)
    requires
        on_the_way(open, desired, stale, next),
    ensures
        settled(open, desired, stale, next) == target(desired),
    decreases stale.len(), desired.len() - next,
{
    lemma_target_ids(desired.take(next));
    if stale.len() > 0 {
        let id = stale.last();
        let left = open.remove(id);
        assert(!is_desired(desired, stale[stale.len() - 1]));
        assert forall|other: Seq<char>| #[trigger] left.contains_key(other) implies is_desired(
            desired,
            other,
        ) || stale.drop_last().contains(other) by {
            assert(open.contains_key(other));
            if stale.contains(other) {
                let i = choose|i: int| 0 <= i < stale.len() && stale[i] == other;
                assert(stale.drop_last()[i] == other);
            }
        }
        assert forall|i: int| 0 <= i < stale.drop_last().len() implies !is_desired(
            desired,
            #[trigger] stale.drop_last()[i],
        ) by {
            assert(stale[i] == stale.drop_last()[i]);
        }
        assert forall|other: Seq<char>| #[trigger]
            target(desired.take(next)).contains_key(other) implies left.contains_key(other)
            && left[other] == target(desired.take(next))[other] by {
            let i = choose|i: int|
                0 <= i < desired.take(next).len() && (#[trigger] desired.take(next)[i]).id
                    == other;
            assert(desired[i].id == other);
            assert(is_desired(desired, other));
        }
        lemma_settled(left, desired, stale.drop_last(), next);
    } else if next < desired.len() {
        let subscription = desired[next];
        let opened = if in_line(open, subscription) {
            open
        } else {
            open.insert(subscription.id, subscription.filter)
        };
        assert(desired.take(next + 1).drop_last() =~= desired.take(next));
        assert(desired.take(next + 1).last() == subscription);
        assert forall|id: Seq<char>| #[trigger] opened.contains_key(id) implies is_desired(
            desired,
            id,
        ) || stale.contains(id) by {
            if id == subscription.id {
                assert(desired[next].id == id);
            } else {
                assert(open.contains_key(id));
            }
        }
        assert forall|id: Seq<char>| #[trigger]
            target(desired.take(next + 1)).contains_key(id) implies opened.contains_key(id)
            && opened[id] == target(desired.take(next + 1))[id] by {
            if id != subscription.id {
                assert(target(desired.take(next)).contains_key(id));
            }
        }
        lemma_settled(opened, desired, stale, next + 1);
    } else {
        assert(desired.take(next) =~= desired);
        assert forall|id: Seq<char>| #[trigger]
            open.contains_key(id) == target(desired).contains_key(id) && (open.contains_key(id)
                ==> open[id] == target(desired)[id]) by {
            if open.contains_key(id) {
                assert(!stale.contains(id));
            }
        }
        assert(open =~= target(desired));
    }
}

/// What reconciling sends once it begins, and where that leads.
pub proof fn lemma_begun(
    before: ConnectionView,
    desired: Seq<SubscriptionView>,
    begun: (ConnectionView, ConnectionActionView),
) -> (stale: Seq<Seq<char>>)
    requires
        before.stage is Loading,
        connection_next(before, ConnectionEventView::Loaded(desired), begun),
    ensures
        lists_stale(before.open, desired, stale),
        begun == reconciling(before.open, desired, stale, 0),
        frames_left(begun.0) == frames(before.open, desired, stale, 0),
        open_at_last(begun.0) == target(desired),
        begun.0.open == before.open,
        begun.0.well_formed(),
        matches_frames(begun),
{
    assert(begins_reconciling(before.open, desired, begun));
    let stale = choose|stale: Seq<Seq<char>>| #[trigger]
        lists_stale(before.open, desired, stale) && begun == reconciling(
            before.open,
            desired,
            stale,
            0,
        );
    lemma_reconciling(before.open, desired, stale, 0);
    lemma_steps_keep_well_formed(before, ConnectionEventView::Loaded(desired));
    assert(desired.take(0) =~= seq![]);
    assert(target(desired.take(0)) =~= Map::empty());
    assert forall|i: int| 0 <= i < stale.len() implies !is_desired(
        desired,
        #[trigger] stale[i],
    ) by {
        assert(stale.contains(stale[i]));
    }
    lemma_settled(before.open, desired, stale, 0);
    stale
}

/// Whether the action is to send the first frame that is left, and to wait
/// where none is.
pub open spec fn matches_frames(reached: (ConnectionView, ConnectionActionView)) -> bool {
    if frames_left(reached.0).len() > 0 {
        reached.1 == ConnectionActionView::Send(frames_left(reached.0)[0])
    } else {
        reached.1 is Wait && reached.0.stage is Waiting
    }
}

/// State and action once so many more frames are sent.
pub open spec fn after_sends(
    begun: (ConnectionView, ConnectionActionView),
    count: nat,
) -> (ConnectionView, ConnectionActionView)
    decreases count,
{
    if count == 0 {
        begun
    } else {
        after_sends(begun, (count - 1) as nat).0.frame_sent()
    }
}

/// After so many frames, that many fewer are left, and the goal is the same.
proof fn lemma_after_sends(begun: (ConnectionView, ConnectionActionView), count: nat)
    requires
        begun.0.well_formed(),
        matches_frames(begun),
        count <= frames_left(begun.0).len(),
    ensures
        ({
            let reached = after_sends(begun, count);
            &&& reached.0.well_formed()
            &&& matches_frames(reached)
            &&& frames_left(reached.0) == frames_left(begun.0).skip(count as int)
            &&& open_at_last(reached.0) == open_at_last(begun.0)
        }),
    decreases count,
{
    let all = frames_left(begun.0);
    if count == 0 {
        assert(all.skip(0) =~= all);
    } else {
        let fewer = (count - 1) as nat;
        lemma_after_sends(begun, fewer);
        let state = after_sends(begun, fewer).0;
        let sent = ConnectionEventView::Sent { sent: true };
        assert(all.skip(fewer as int).len() > 0);
        assert(frames_left(state).len() > 0);
        assert(state.accepts(sent));
        law_frames_go_out_one_by_one(state);
        lemma_steps_keep_well_formed(state, sent);
        assert(connection_next(state, sent, state.frame_sent()));
        assert(all.skip(fewer as int).drop_first() =~= all.skip(count as int));
    }
}

/// Reconciling leads to the desired set. Whatever was open before: the frames
/// are sent in their order, and when all are sent, the connection waits with
/// the desired subscriptions open, each with its filter, and no others.
pub proof fn law_reconciling_leads_to_the_desired_set(
    before: ConnectionView,
    desired: Seq<SubscriptionView>,
    begun: (ConnectionView, ConnectionActionView),
)
    requires
        before.stage is Loading,
        connection_next(before, ConnectionEventView::Loaded(desired), begun),
    ensures
        forall|count: nat|
            count < frames_left(begun.0).len() ==> (#[trigger] after_sends(begun, count)).1
                == ConnectionActionView::Send(frames_left(begun.0)[count as int]),
        after_sends(begun, frames_left(begun.0).len()) == (
            ConnectionView { open: target(desired), stage: ConnectionStageView::Waiting },
            ConnectionActionView::Wait,
        ),
{
    let stale = lemma_begun(before, desired, begun);
    let all = frames_left(begun.0);
    assert forall|count: nat| count < all.len() implies (#[trigger] after_sends(begun, count)).1
        == ConnectionActionView::Send(all[count as int]) by {
        lemma_after_sends(begun, count);
        assert(all.skip(count as int)[0] == all[count as int]);
    }
    lemma_after_sends(begun, all.len());
}

/// Taking stale ids away from what is open.
spec fn without(open: Map<Seq<char>, JsonView>, stale: Seq<Seq<char>>) -> Map<
    Seq<char>,
    JsonView,
>
    decreases stale.len(),
{
    if stale.len() == 0 {
        open
    } else {
        without(open.remove(stale.last()), stale.drop_last())
    }
}

/// The frames that close these ids, the last one first.
pub open spec fn closings(stale: Seq<Seq<char>>) -> Seq<JsonView> {
    stale.reverse().map_values(|id: Seq<char>| close_frame(id))
}

/// The frames that request what is not open with the same filter, in order.
pub open spec fn requests(
    open: Map<Seq<char>, JsonView>,
    desired: Seq<SubscriptionView>,
) -> Seq<JsonView> {
    desired.filter(|subscription: SubscriptionView| !in_line(open, subscription)).map_values(
        |subscription: SubscriptionView| request_frame(subscription),
    )
}

/// Closing first, then requesting.
proof fn lemma_closings_first(
    open: Map<Seq<char>, JsonView>,
    desired: Seq<SubscriptionView>,
    stale: Seq<Seq<char>>,
)
    ensures
        frames(open, desired, stale, 0) == closings(stale) + frames(
            without(open, stale),
            desired,
            seq![],
            0,
        ),
    decreases stale.len(),
{
    if stale.len() == 0 {
        assert(stale =~= seq![]);
        assert(closings(stale) =~= seq![]);
        assert(closings(stale) + frames(open, desired, stale, 0) =~= frames(
            open,
            desired,
            stale,
            0,
        ));
    } else {
        let rest = stale.drop_last();
        lemma_closings_first(open.remove(stale.last()), desired, rest);
        assert(closings(stale) =~= seq![close_frame(stale.last())] + closings(rest));
        assert(frames(open, desired, stale, 0) =~= closings(stale) + frames(
            without(open, stale),
            desired,
            seq![],
            0,
        ));
    }
}

/// What is not stale is untouched.
proof fn lemma_without(open: Map<Seq<char>, JsonView>, stale: Seq<Seq<char>>, id: Seq<char>)
    requires
        !stale.contains(id),
    ensures
        without(open, stale).contains_key(id) == open.contains_key(id),
        open.contains_key(id) ==> without(open, stale)[id] == open[id],
    decreases stale.len(),
{
    if stale.len() > 0 {
        assert(stale[stale.len() - 1] != id) by {
            assert(stale.contains(stale[stale.len() - 1]));
        }
        if stale.drop_last().contains(id) {
            let i = choose|i: int| 0 <= i < stale.drop_last().len() && stale.drop_last()[i] == id;
            assert(stale[i] == id);
        }
        lemma_without(open.remove(stale.last()), stale.drop_last(), id);
    }
}

/// Requesting one subscription leaves it open which others are in line.
proof fn lemma_requests(
    first: Map<Seq<char>, JsonView>,
    open: Map<Seq<char>, JsonView>,
    desired: Seq<SubscriptionView>,
    next: int,
)
    requires
        0 <= next <= desired.len(),
        distinct(desired),
        forall|i: int|
            next <= i < desired.len() ==> in_line(open, #[trigger] desired[i]) == in_line(
                first,
                desired[i],
            ),
    ensures
        frames(open, desired, seq![], next) == requests(first, desired.skip(next)),
    decreases desired.len() - next,
{
    let missing = |subscription: SubscriptionView| !in_line(first, subscription);
    let request = |subscription: SubscriptionView| request_frame(subscription);
    if next == desired.len() {
        reveal(Seq::filter);
        assert(desired.skip(next) =~= seq![]);
        assert(requests(first, desired.skip(next)) =~= seq![]);
    } else {
        let subscription = desired[next];
        let rest = desired.skip(next + 1);
        assert(desired.skip(next) =~= seq![subscription] + rest);
        rest.lemma_filter_prepend(subscription, missing);
        assert(in_line(open, subscription) == in_line(first, subscription));
        if in_line(open, subscription) {
            lemma_requests(first, open, desired, next + 1);
            assert(requests(first, desired.skip(next)) =~= requests(first, rest));
        } else {
            let opened = open.insert(subscription.id, subscription.filter);
            assert forall|i: int| next + 1 <= i < desired.len() implies in_line(
                opened,
                #[trigger] desired[i],
            ) == in_line(first, desired[i]) by {
                assert(desired[next].id != desired[i].id);
                assert(in_line(open, desired[i]) == in_line(first, desired[i]));
            }
            lemma_requests(first, opened, desired, next + 1);
            assert(requests(first, desired.skip(next)) =~= seq![request_frame(subscription)]
                + requests(first, rest));
        }
    }
}

/// Reconciling sends the difference and nothing else: it closes, each once,
/// the open subscriptions that are not desired, and then requests, in their
/// order, the desired ones that are not open with the same filter.
///
/// In particular a filter that changed under its id is requested and not
/// closed.
pub proof fn law_reconciling_sends_only_the_difference(
    before: ConnectionView,
    desired: Seq<SubscriptionView>,
    begun: (ConnectionView, ConnectionActionView),
)
    requires
        before.stage is Loading,
        distinct(desired),
        connection_next(before, ConnectionEventView::Loaded(desired), begun),
    ensures
        exists|stale: Seq<Seq<char>>| #[trigger]
            lists_stale(before.open, desired, stale) && frames_left(begun.0) == closings(stale)
                + requests(before.open, desired),
{
    let stale = lemma_begun(before, desired, begun);
    let left = without(before.open, stale);
    lemma_closings_first(before.open, desired, stale);
    assert forall|i: int| 0 <= i < desired.len() implies in_line(left, #[trigger] desired[i])
        == in_line(before.open, desired[i]) by {
        assert(is_desired(desired, desired[i].id));
        lemma_without(before.open, stale, desired[i].id);
    }
    lemma_requests(before.open, left, desired, 0);
    assert(desired.skip(0) =~= desired);
    assert(lists_stale(before.open, desired, stale) && frames_left(begun.0) == closings(stale)
        + requests(before.open, desired));
}

/// A new connection requests the whole desired set, in order, and closes
/// nothing: connecting again is subscribing again.
pub proof fn law_new_connection_requests_everything(
    desired: Seq<SubscriptionView>,
    begun: (ConnectionView, ConnectionActionView),
)
    requires
        distinct(desired),
        connection_next(connection_start(), ConnectionEventView::Loaded(desired), begun),
    ensures
        frames_left(begun.0) == desired.map_values(
            |subscription: SubscriptionView| request_frame(subscription),
        ),
{
    let before = connection_start();
    law_reconciling_sends_only_the_difference(before, desired, begun);
    let stale = choose|stale: Seq<Seq<char>>| #[trigger]
        lists_stale(before.open, desired, stale) && frames_left(begun.0) == closings(stale)
            + requests(before.open, desired);
    if stale.len() > 0 {
        assert(stale.contains(stale[0]));
    }
    assert(closings(stale) =~= seq![]);
    lemma_filter_keeps_all(
        desired,
        |subscription: SubscriptionView| !in_line(before.open, subscription),
    );
    assert(frames_left(begun.0) =~= requests(before.open, desired));
}

/// A filter that everything passes keeps everything.
proof fn lemma_filter_keeps_all<A>(items: Seq<A>, pred: spec_fn(A) -> bool)
    requires
        forall|i: int| 0 <= i < items.len() ==> pred(#[trigger] items[i]),
    ensures
        items.filter(pred) == items,
    decreases items.len(),
{
    reveal(Seq::filter);
    if items.len() > 0 {
        let rest = items.drop_last();
        assert forall|i: int| 0 <= i < rest.len() implies pred(#[trigger] rest[i]) by {
            assert(pred(items[i]));
        }
        lemma_filter_keeps_all(rest, pred);
        assert(pred(items[items.len() - 1]));
        assert(items =~= rest.push(items.last()));
    } else {
        assert(items.filter(pred) =~= items);
    }
}

/// A filter that nothing passes keeps nothing.
proof fn lemma_filter_keeps_none<A>(items: Seq<A>, pred: spec_fn(A) -> bool)
    requires
        forall|i: int| 0 <= i < items.len() ==> !pred(#[trigger] items[i]),
    ensures
        items.filter(pred).len() == 0,
    decreases items.len(),
{
    reveal(Seq::filter);
    if items.len() > 0 {
        let rest = items.drop_last();
        assert forall|i: int| 0 <= i < rest.len() implies !pred(#[trigger] rest[i]) by {
            assert(!pred(items[i]));
        }
        lemma_filter_keeps_none(rest, pred);
        assert(!pred(items[items.len() - 1]));
    }
}

/// Each desired subscription of a set without repeated ids is in the target.
pub proof fn lemma_target_holds(desired: Seq<SubscriptionView>, i: int)
    requires
        distinct(desired),
        0 <= i < desired.len(),
    ensures
        in_line(target(desired), desired[i]),
    decreases desired.len(),
{
    let rest = desired.drop_last();
    if i < rest.len() {
        assert forall|x: int, y: int| 0 <= x < y < rest.len() implies (#[trigger] rest[x]).id
            != (#[trigger] rest[y]).id by {
            assert(desired[x].id != desired[y].id);
        }
        lemma_target_holds(rest, i);
        assert(rest[i] == desired[i]);
        assert(desired[i].id != desired[desired.len() - 1].id);
    }
}

/// A set that is in force already is left alone: reconciling the same desired
/// set again sends nothing and changes nothing.
pub proof fn law_reconciling_again_sends_nothing(
    before: ConnectionView,
    desired: Seq<SubscriptionView>,
    begun: (ConnectionView, ConnectionActionView),
)
    requires
        before.stage is Loading,
        before.open == target(desired),
        distinct(desired),
        connection_next(before, ConnectionEventView::Loaded(desired), begun),
    ensures
        begun == (before.at(ConnectionStageView::Waiting), ConnectionActionView::Wait),
{
    law_reconciling_sends_only_the_difference(before, desired, begun);
    let stale = choose|stale: Seq<Seq<char>>| #[trigger]
        lists_stale(before.open, desired, stale) && frames_left(begun.0) == closings(stale)
            + requests(before.open, desired);
    lemma_target_ids(desired);
    if stale.len() > 0 {
        assert(stale.contains(stale[0]));
        assert(before.open.contains_key(stale[0]));
    }
    assert forall|i: int| 0 <= i < desired.len() implies in_line(
        before.open,
        #[trigger] desired[i],
    ) by {
        lemma_target_holds(desired, i);
    }
    lemma_filter_keeps_none(
        desired,
        |subscription: SubscriptionView| !in_line(before.open, subscription),
    );
    assert(frames_left(begun.0).len() == 0);
    let begun_stale = lemma_begun(before, desired, begun);
}

/// A subscription that the relay closed is forgotten, and the next reconciling
/// that desires it requests it again.
pub proof fn law_closed_subscription_is_requested_again(
    state: ConnectionView,
    desired: Seq<SubscriptionView>,
    i: int,
    begun: (ConnectionView, ConnectionActionView),
)
    requires
        state.stage is Waiting,
        distinct(desired),
        0 <= i < desired.len(),
        ({
            let closed = state.after_read(
                Ok(RelayMessageView::Closed { subscription_id: desired[i].id }),
            ).0;
            connection_next(
                closed.at(ConnectionStageView::Loading),
                ConnectionEventView::Loaded(desired),
                begun,
            )
        }),
    ensures
        frames_left(begun.0).contains(request_frame(desired[i])),
{
    let closed = state.after_read(
        Ok(RelayMessageView::Closed { subscription_id: desired[i].id }),
    ).0.at(ConnectionStageView::Loading);
    law_reconciling_sends_only_the_difference(closed, desired, begun);
    let stale = choose|stale: Seq<Seq<char>>| #[trigger]
        lists_stale(closed.open, desired, stale) && frames_left(begun.0) == closings(stale)
            + requests(closed.open, desired);
    let missing = |subscription: SubscriptionView| !in_line(closed.open, subscription);
    assert(missing(desired[i]));
    desired.lemma_filter_contains(missing, i);
    let kept = desired.filter(missing);
    let k = choose|k: int| 0 <= k < kept.len() && kept[k] == desired[i];
    assert(requests(closed.open, desired)[k] == request_frame(desired[i]));
    assert(frames_left(begun.0)[closings(stale).len() + k] == request_frame(desired[i]));
}

/// Exactly the events of open subscriptions are delivered. An event of any
/// other, such as one on its way while its subscription was closed, leaves no
/// trace.
pub proof fn law_only_open_subscriptions_deliver(state: ConnectionView, event: MatchedEventView)
    requires
        state.stage is Waiting,
    ensures
        state.open.contains_key(event.subscription_id) ==> state.after_read(
            Ok(RelayMessageView::Event(event)),
        ) == (
            state.at(ConnectionStageView::Delivering),
            ConnectionActionView::Deliver(event),
        ),
        !state.open.contains_key(event.subscription_id) ==> state.after_read(
            Ok(RelayMessageView::Event(event)),
        ) == (state, ConnectionActionView::Wait),
{
}

/// An idle relay is no failure: a read that lapses changes nothing, while a
/// read that fails ends the connection.
pub proof fn law_idle_relay_keeps_the_connection(state: ConnectionView)
    requires
        state.stage is Waiting,
    ensures
        state.after_read(Err(ReadError::Timeout)) == (state, ConnectionActionView::Wait),
        state.after_read(Err(ReadError::Failed)).1 is End,
{
}

/// Only reading a closed message, or sending a frame, changes which
/// subscriptions are open.
pub proof fn law_open_set_changes_only_by_frames_and_closings(
    state: ConnectionView,
    event: ConnectionEventView,
    next: (ConnectionView, ConnectionActionView),
)
    requires
        state.accepts(event),
        connection_next(state, event, next),
        event != (ConnectionEventView::Sent { sent: true }),
        !(event is Read && event->Read_0 is Ok && event->Read_0->Ok_0 is Closed),
    ensures
        next.0.open == state.open,
{
    match event {
        ConnectionEventView::Loaded(desired) => {
            let stale = lemma_begun(state, desired, next);
        },
        _ => {},
    }
}

/// When the desired set changes, it is looked up anew, and reconciling goes by
/// what is found then: a connection keeps no copy of an earlier set.
pub proof fn law_wake_goes_by_the_set_of_the_moment(
    state: ConnectionView,
    desired: Seq<SubscriptionView>,
    loading: (ConnectionView, ConnectionActionView),
    begun: (ConnectionView, ConnectionActionView),
)
    requires
        state.stage is Waiting,
        connection_next(state, ConnectionEventView::Woken, loading),
        connection_next(loading.0, ConnectionEventView::Loaded(desired), begun),
    ensures
        loading.1 is Load,
        loading.0.accepts(ConnectionEventView::Loaded(desired)),
        after_sends(begun, frames_left(begun.0).len()) == (
            ConnectionView { open: target(desired), stage: ConnectionStageView::Waiting },
            ConnectionActionView::Wait,
        ),
{
    law_reconciling_leads_to_the_desired_set(loading.0, desired, begun);
}

/// A frame that cannot be sent ends the connection, so that another one is
/// made; being cancelled, or having nobody to take an event, closes the socket
/// first.
pub proof fn law_ways_to_end(
    state: ConnectionView,
    event: ConnectionEventView,
    next: (ConnectionView, ConnectionActionView),
)
    requires
        state.accepts(event),
        connection_next(state, event, next),
    ensures
        next.1 is End <==> {
            ||| event == (ConnectionEventView::Sent { sent: false })
            ||| event == ConnectionEventView::Read(Err(ReadError::Failed))
            ||| event is Disconnected
        },
        next.1 is Disconnect <==> {
            ||| event is Cancelled
            ||| event == (ConnectionEventView::Delivered { taken: false })
        },
{
    match event {
        ConnectionEventView::Loaded(desired) => {
            let stale = lemma_begun(state, desired, next);
        },
        ConnectionEventView::Sent { sent: true } => {
            let desired = state.stage->desired;
            let stale = state.stage->stale;
            let at = state.stage->next;
            if stale.len() > 0 {
                lemma_reconciling(
                    state.open.remove(stale.last()),
                    desired,
                    stale.drop_last(),
                    at,
                );
            } else {
                lemma_reconciling(
                    state.open.insert(desired[at].id, desired[at].filter),
                    desired,
                    stale,
                    at + 1,
                );
            }
        },
        _ => {},
    }
}

/// A planned set has no repeated ids, and once it is open, the open ids are
/// those that have a scope: what a connection delivers, the sync loop can
/// match.
pub proof fn law_planned_sets_open_the_scoped_ids(rows: Seq<SavedScopeView>)
    ensures
        distinct(plan(rows).subscriptions),
        target(plan(rows).subscriptions).dom() == plan(rows).scopes.dom(),
{
    let planned = plan(rows).subscriptions;
    law_plan_ids_have_scopes(rows);
    lemma_target_ids(planned);
    assert forall|id: Seq<char>| #[trigger]
        target(planned).dom().contains(id) <==> plan(rows).scopes.dom().contains(id) by {
        assert(target(planned).contains_key(id) <==> is_desired(planned, id));
        assert(plan(rows).scopes.contains_key(id) ==> is_desired(planned, id));
    }
    assert(target(planned).dom() =~= plan(rows).scopes.dom());
}

/// When the kinds of a row change, its old subscription is closed and the new
/// one requested: no stale filter stays live.
pub proof fn law_changed_kinds_replace_the_subscription(
    row: SavedScopeView,
    kinds: Seq<u64>,
    begun: (ConnectionView, ConnectionActionView),
)
    requires
        row.known(),
        row.kinds.to_multiset() != kinds.to_multiset(),
        ({
            let changed = SavedScopeView { kinds, ..row };
            connection_next(
                ConnectionView {
                    open: target(plan(seq![row]).subscriptions),
                    stage: ConnectionStageView::Loading,
                },
                ConnectionEventView::Loaded(plan(seq![changed]).subscriptions),
                begun,
            )
        }),
    ensures
        ({
            let changed = SavedScopeView { kinds, ..row };
            frames_left(begun.0) == seq![
                close_frame(row.subscription().id),
                request_frame(changed.subscription()),
            ]
        }),
{
    let changed = SavedScopeView { kinds, ..row };
    let old_id = row.subscription().id;
    lemma_plan_of_one(row);
    lemma_plan_of_one(changed);
    law_id_identifies_scope_and_kinds(
        row.scope().scope_type,
        row.scope_value,
        row.kinds,
        changed.scope().scope_type,
        changed.scope_value,
        kinds,
    );
    let desired = plan(seq![changed]).subscriptions;
    let open = target(plan(seq![row]).subscriptions);
    let before = ConnectionView { open, stage: ConnectionStageView::Loading };
    law_planned_sets_open_the_scoped_ids(seq![changed]);
    law_planned_sets_open_the_scoped_ids(seq![row]);
    law_reconciling_sends_only_the_difference(before, desired, begun);
    let stale = choose|stale: Seq<Seq<char>>| #[trigger]
        lists_stale(open, desired, stale) && frames_left(begun.0) == closings(stale) + requests(
            open,
            desired,
        );
    lemma_target_ids(plan(seq![row]).subscriptions);
    assert(desired[0] == changed.subscription());
    assert(plan(seq![row]).subscriptions[0].id == old_id);
    assert(is_desired(plan(seq![row]).subscriptions, old_id));
    assert(open.contains_key(old_id));
    assert(!is_desired(desired, old_id));
    assert(stale.contains(old_id));
    assert forall|i: int| 0 <= i < stale.len() implies stale[i] == old_id by {
        assert(stale.contains(stale[i]));
        assert(open.contains_key(stale[i]));
        assert(is_desired(plan(seq![row]).subscriptions, stale[i]));
    }
    if stale.len() > 1 {
        assert(stale[0] != stale[1]);
    }
    assert(stale =~= seq![old_id]);
    assert(closings(stale) =~= seq![close_frame(old_id)]);
    if open.contains_key(changed.subscription().id) {
        assert(is_desired(plan(seq![row]).subscriptions, changed.subscription().id));
    }
    lemma_filter_keeps_all(
        desired,
        |subscription: SubscriptionView| !in_line(open, subscription),
    );
    assert(requests(open, desired) =~= seq![request_frame(changed.subscription())]);
    assert(frames_left(begun.0) =~= seq![
        close_frame(old_id),
        request_frame(changed.subscription()),
    ]);
}

/// The same kinds in another order are the same subscription: where it is open
/// and the row is saved again with its kinds reordered, nothing is sent.
pub proof fn law_reordered_kinds_send_nothing(
    row: SavedScopeView,
    kinds: Seq<u64>,
    begun: (ConnectionView, ConnectionActionView),
)
    requires
        row.known(),
        row.kinds.to_multiset() == kinds.to_multiset(),
        connection_next(
            ConnectionView {
                open: target(plan(seq![row]).subscriptions),
                stage: ConnectionStageView::Loading,
            },
            ConnectionEventView::Loaded(
                plan(seq![SavedScopeView { kinds, ..row }]).subscriptions,
            ),
            begun,
        ),
    ensures
        frames_left(begun.0).len() == 0,
        begun.1 is Wait,
{
    law_reordered_sets_send_nothing(seq![row], seq![SavedScopeView { kinds, ..row }], begun);
}

/// A whole planned set that is open stays as it is where its rows are saved
/// again with their kinds reordered: nothing is sent and nothing changes.
pub proof fn law_reordered_sets_send_nothing(
    rows: Seq<SavedScopeView>,
    reordered: Seq<SavedScopeView>,
    begun: (ConnectionView, ConnectionActionView),
)
    requires
        rows.len() == reordered.len(),
        forall|i: int| 0 <= i < rows.len() ==> same_rows(#[trigger] rows[i], reordered[i]),
        connection_next(
            ConnectionView {
                open: target(plan(rows).subscriptions),
                stage: ConnectionStageView::Loading,
            },
            ConnectionEventView::Loaded(plan(reordered).subscriptions),
            begun,
        ),
    ensures
        begun == (
            ConnectionView {
                open: target(plan(rows).subscriptions),
                stage: ConnectionStageView::Waiting,
            },
            ConnectionActionView::Wait,
        ),
        frames_left(begun.0).len() == 0,
{
    let before = ConnectionView {
        open: target(plan(rows).subscriptions),
        stage: ConnectionStageView::Loading,
    };
    law_kind_order_does_not_change_the_plan(rows, reordered);
    law_planned_sets_open_the_scoped_ids(reordered);
    law_reconciling_again_sends_nothing(before, plan(reordered).subscriptions, begun);
}

/// The plan for one row of a known scope type is its subscription.
proof fn lemma_plan_of_one(row: SavedScopeView)
    requires
        row.known(),
    ensures
        plan(seq![row]).subscriptions == seq![row.subscription()],
{
    assert(seq![row].drop_last() =~= seq![]);
    assert(plan(seq![row].drop_last()).subscriptions =~= seq![]);
    assert(plan(seq![row]).subscriptions =~= seq![row.subscription()]);
}

} // verus!
