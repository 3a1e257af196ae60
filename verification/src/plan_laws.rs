//! What holds of every plan: which subscriptions there are, and what each of
//! them asks for, told from the saved rows.

use vstd::prelude::*;

use crate::archive::{MatchedScopeView, SaveSubscriptionView, ScopeType};
use crate::json::JsonView;
use crate::kinds::{
    ascending, kinds_json, law_ascending_keeps_the_kinds_and_orders_them,
    lemma_ascending_forgets_order_only, lemma_ascending_is_unique,
};
use crate::plan::{
    decoded, law_every_known_row_is_planned, law_id_identifies_scope_and_kinds,
    law_nothing_else_is_planned, law_plan_ids_have_scopes, lemma_filter_names, lemma_scope_names,
    plan, plan_saved, scope_filter, scope_id, scope_tag, scope_type_named,
    SavedScopeView,
};
use crate::text::comma_list;

verus! {

/// A stored scope type is read by its name, letter by letter; any other text
/// is no scope type.
pub proof fn law_scope_types_go_by_their_names(raw: Seq<char>)
    ensures
        scope_type_named(raw) == Some(ScopeType::ChannelH) <==> raw == "channel_h"@,
        scope_type_named(raw) == Some(ScopeType::OwnerP) <==> raw == "owner_p"@,
        scope_type_named(raw) == Some(ScopeType::ReferencedE) <==> raw == "referenced_e"@,
        scope_type_named(raw) is None <==> raw != "channel_h"@ && raw != "owner_p"@ && raw
            != "referenced_e"@,
        ScopeType::ChannelH.name() == "channel_h"@,
        ScopeType::OwnerP.name() == "owner_p"@,
        ScopeType::ReferencedE.name() == "referenced_e"@,
{
    lemma_scope_names();
}

/// A filter holds three members and no others. Under `kinds` stands a list
/// with each of the kinds, as many and in the same order; `limit` is zero; and
/// the tag of the scope, which is another one for each scope type, has the
/// scope's value as its one value.
pub proof fn law_filter_asks_for_all_kinds_of_the_scope(
    scope_type: ScopeType,
    scope_value: Seq<char>,
    kinds: Seq<u64>,
)
    ensures
        ({
            let filter = scope_filter(scope_type, scope_value, kinds);
            let tag = match scope_type {
                ScopeType::ChannelH => "#h"@,
                ScopeType::OwnerP => "#p"@,
                ScopeType::ReferencedE => "#e"@,
            };
            let members = filter->Object_0;
            &&& filter is Object
            &&& forall|name: Seq<char>| #[trigger]
                members.contains_key(name) <==> name == "kinds"@ || name == "limit"@ || name == tag
            &&& members["kinds"@] is List
            &&& members["kinds"@]->List_0.len() == kinds.len()
            &&& forall|i: int|
                0 <= i < kinds.len() ==> #[trigger] members["kinds"@]->List_0[i]
                    == JsonView::Number(kinds[i])
            &&& members["limit"@] == JsonView::Number(0)
            &&& members[tag] is List
            &&& members[tag]->List_0.len() == 1
            &&& members[tag]->List_0[0] == JsonView::Text(scope_value)
        }),
{
    lemma_filter_names(scope_type);
}

/// An id spells out the scope and its kinds: behind the common beginning the
/// name of the scope type, the scope's value and the kinds, smallest first,
/// however they are ordered in the row.
pub proof fn law_id_spells_out_scope_and_kinds(
    scope_type: ScopeType,
    scope_value: Seq<char>,
    kinds: Seq<u64>,
    ordered: Seq<u64>,
)
    requires
        ordered.to_multiset() == kinds.to_multiset(),
        forall|x: int, y: int| 0 <= x <= y < ordered.len() ==> ordered[x] <= ordered[y],
    ensures
        ({
            let name = match scope_type {
                ScopeType::ChannelH => "channel_h"@,
                ScopeType::OwnerP => "owner_p"@,
                ScopeType::ReferencedE => "referenced_e"@,
            };
            scope_id(scope_type, scope_value, kinds) == "archive:"@ + name + ":"@ + scope_value
                + ":"@ + comma_list(ordered)
        }),
{
    lemma_ascending_is_unique(kinds, ordered);
}

/// What the subscription of a row of a known scope type asks for, and the kinds
/// in the order it lists them.
proof fn lemma_subscription_of_row(row: SavedScopeView, scope_type: ScopeType) -> (listed: Seq<u64>)
    requires
        row.scope_type == scope_type.name(),
    ensures
        row.known(),
        row.scope() == (MatchedScopeView { scope_type, scope_value: row.scope_value }),
        listed.to_multiset() == row.kinds.to_multiset(),
        listed.len() == row.kinds.len(),
        row.subscription().id == "archive:"@ + scope_type.name() + ":"@ + row.scope_value + ":"@
            + comma_list(listed),
        row.subscription().filter == scope_filter(scope_type, row.scope_value, listed),
{
    lemma_scope_names();
    let listed = ascending(row.kinds);
    law_ascending_keeps_the_kinds_and_orders_them(row.kinds);
    listed
}

/// Every planned subscription is that of a saved row `of.0`. Its filter lists
/// under `kinds` the kinds `of.1`, which are those that the row's column
/// decodes to, each as often as there and none besides; its tag selects the
/// row's scope; its id names them both; and its events are matched to that
/// scope.
pub proof fn law_planned_subscriptions_ask_for_saved_rows(
    rows: Seq<SaveSubscriptionView>,
    i: int,
) -> (of: (int, Seq<u64>))
    requires
        0 <= i < plan_saved(rows).subscriptions.len(),
    ensures
        0 <= of.0 < rows.len(),
        ({
            let row = rows[of.0];
            let subscription = plan_saved(rows).subscriptions[i];
            let members = subscription.filter->Object_0;
            let listed = members["kinds"@]->List_0;
            let kinds = match kinds_json(row.kinds) {
                Some(kinds) => kinds,
                None => seq![],
            };
            let scope_type = plan_saved(rows).scopes[subscription.id].scope_type;
            let (name, tag) = match scope_type {
                ScopeType::ChannelH => ("channel_h"@, "#h"@),
                ScopeType::OwnerP => ("owner_p"@, "#p"@),
                ScopeType::ReferencedE => ("referenced_e"@, "#e"@),
            };
            &&& row.scope_type == name
            &&& plan_saved(rows).scopes.contains_key(subscription.id)
            &&& plan_saved(rows).scopes[subscription.id].scope_value == row.scope_value
            &&& subscription.id == "archive:"@ + name + ":"@ + row.scope_value + ":"@ + comma_list(
                of.1,
            )
            &&& subscription.filter is Object
            &&& forall|name: Seq<char>| #[trigger]
                members.contains_key(name) <==> name == "kinds"@ || name == "limit"@ || name == tag
            &&& members["kinds"@] is List
            &&& of.1.to_multiset() == kinds.to_multiset()
            &&& listed.len() == kinds.len()
            &&& of.1.len() == kinds.len()
            &&& forall|j: int|
                0 <= j < kinds.len() ==> #[trigger] listed[j] == JsonView::Number(of.1[j])
            &&& members["limit"@] == JsonView::Number(0)
            &&& members[tag] is List
            &&& members[tag]->List_0.len() == 1
            &&& members[tag]->List_0[0] == JsonView::Text(row.scope_value)
        }),
{
    let all = rows.map_values(|row: SaveSubscriptionView| decoded(row));
    let k = lemma_row_of_subscription(all, i);
    let row = all[k];
    let scope_type = row.scope().scope_type;
    law_scope_types_go_by_their_names(row.scope_type);
    law_every_known_row_is_planned(all, k);
    let listed = lemma_subscription_of_row(row, scope_type);
    law_filter_asks_for_all_kinds_of_the_scope(scope_type, row.scope_value, listed);
    (k, listed)
}

/// The row that a planned subscription stands for.
proof fn lemma_row_of_subscription(rows: Seq<SavedScopeView>, i: int) -> (k: int)
    requires
        0 <= i < plan(rows).subscriptions.len(),
    ensures
        0 <= k < rows.len(),
        rows[k].known(),
        plan(rows).subscriptions[i] == rows[k].subscription(),
    decreases rows.len(),
{
    let earlier = plan(rows.drop_last());
    if i < earlier.subscriptions.len() {
        lemma_row_of_subscription(rows.drop_last(), i)
    } else {
        rows.len() - 1
    }
}

/// Every saved row of a known scope type has its subscription `i` in the plan:
/// it asks for the row's kinds, each as often as the row has it and none
/// besides, for events of the row's scope only and from now on, and its events
/// are matched to that scope.
pub proof fn law_saved_rows_have_their_subscription(
    rows: Seq<SaveSubscriptionView>,
    k: int,
    scope_type: ScopeType,
) -> (i: int)
    requires
        0 <= k < rows.len(),
        rows[k].scope_type == match scope_type {
            ScopeType::ChannelH => "channel_h"@,
            ScopeType::OwnerP => "owner_p"@,
            ScopeType::ReferencedE => "referenced_e"@,
        },
    ensures
        0 <= i < plan_saved(rows).subscriptions.len(),
        ({
            let subscription = plan_saved(rows).subscriptions[i];
            let members = subscription.filter->Object_0;
            let listed = members["kinds"@]->List_0;
            let kinds = match kinds_json(rows[k].kinds) {
                Some(kinds) => kinds,
                None => seq![],
            };
            let tag = match scope_type {
                ScopeType::ChannelH => "#h"@,
                ScopeType::OwnerP => "#p"@,
                ScopeType::ReferencedE => "#e"@,
            };
            &&& subscription.filter is Object
            &&& members["kinds"@] is List
            &&& listed.to_multiset() == kinds.map_values(
                |kind: u64| JsonView::Number(kind),
            ).to_multiset()
            &&& members["limit"@] == JsonView::Number(0)
            &&& members[tag] == JsonView::List(seq![JsonView::Text(rows[k].scope_value)])
            &&& plan_saved(rows).scopes.contains_key(subscription.id)
            &&& plan_saved(rows).scopes[subscription.id] == (MatchedScopeView {
                scope_type,
                scope_value: rows[k].scope_value,
            })
        }),
{
    let all = rows.map_values(|row: SaveSubscriptionView| decoded(row));
    let row = all[k];
    law_scope_types_go_by_their_names(row.scope_type);
    let listed = lemma_subscription_of_row(row, scope_type);
    law_every_known_row_is_planned(all, k);
    law_plan_ids_have_scopes(all);
    let id = row.subscription().id;
    let i = choose|i: int|
        0 <= i < plan(all).subscriptions.len() && (#[trigger] plan(all).subscriptions[i]).id == id;
    let found = lemma_row_of_subscription(all, i);
    lemma_same_id_same_filter(all[found], row);
    law_filter_asks_for_all_kinds_of_the_scope(scope_type, row.scope_value, listed);
    let number = |kind: u64| JsonView::Number(kind);
    let members = row.subscription().filter->Object_0;
    assert(members["kinds"@]->List_0 =~= listed.map_values(number));
    lemma_map_keeps_occurrences(listed, row.kinds, number);
    assert(members[scope_tag(scope_type)]->List_0 =~= seq![JsonView::Text(row.scope_value)]);
    i
}

/// Rows of known scope types with the same id have the same filter.
proof fn lemma_same_id_same_filter(a: SavedScopeView, b: SavedScopeView)
    requires
        a.known(),
        b.known(),
        a.subscription().id == b.subscription().id,
    ensures
        a.subscription() == b.subscription(),
{
    law_id_identifies_scope_and_kinds(
        a.scope().scope_type,
        a.scope_value,
        a.kinds,
        b.scope().scope_type,
        b.scope_value,
        b.kinds,
    );
    lemma_ascending_forgets_order_only(a.kinds, b.kinds);
}

/// Taken item by item, sequences with the same occurrences have the same
/// occurrences again.
proof fn lemma_map_keeps_occurrences<A, B>(a: Seq<A>, b: Seq<A>, f: spec_fn(A) -> B)
    requires
        a.to_multiset() == b.to_multiset(),
    ensures
        a.map_values(f).to_multiset() == b.map_values(f).to_multiset(),
    decreases a.len(),
{
    broadcast use vstd::multiset::group_multiset_axioms;

    a.to_multiset_ensures();
    b.to_multiset_ensures();
    if a.len() == 0 {
        assert(a.map_values(f) =~= b.map_values(f));
    } else {
        let item = a.last();
        assert(a.contains(item)) by {
            assert(a[a.len() - 1] == item);
        }
        assert(a.to_multiset().count(item) > 0);
        assert(b.to_multiset().count(item) > 0);
        assert(b.contains(item));
        let at = choose|at: int| 0 <= at < b.len() && b[at] == item;
        let fewer_a = a.drop_last();
        let fewer_b = b.remove(at);
        assert(fewer_a =~= a.remove(a.len() - 1));
        assert(fewer_a.to_multiset() =~= fewer_b.to_multiset());
        lemma_map_keeps_occurrences(fewer_a, fewer_b, f);
        let mapped_a = a.map_values(f);
        let mapped_b = b.map_values(f);
        mapped_a.to_multiset_ensures();
        mapped_b.to_multiset_ensures();
        assert(mapped_a.remove(a.len() - 1) =~= fewer_a.map_values(f));
        assert(mapped_b.remove(at) =~= fewer_b.map_values(f));
        assert(mapped_b[at] == f(item));
        assert(mapped_a[a.len() - 1] == f(item));
        assert(mapped_b.contains(f(item)));
        assert(mapped_a.contains(f(item)));
        assert(mapped_a.to_multiset() =~= fewer_a.map_values(f).to_multiset().insert(f(item)));
        assert(mapped_b.to_multiset() =~= fewer_b.map_values(f).to_multiset().insert(f(item)));
    }
}

/// More rows only add to a plan: the subscriptions for the first rows stand
/// first, unchanged and in their order, whatever rows follow, and their ids
/// keep their scopes.
pub proof fn law_more_rows_only_add(
    rows: Seq<SaveSubscriptionView>,
    more: Seq<SaveSubscriptionView>,
)
    ensures
        ({
            let few = plan_saved(rows);
            let all = plan_saved(rows + more);
            &&& few.subscriptions.len() <= all.subscriptions.len()
            &&& all.subscriptions.take(few.subscriptions.len() as int) == few.subscriptions
            &&& forall|id: Seq<char>| #[trigger]
                few.scopes.contains_key(id) ==> all.scopes.contains_key(id) && all.scopes[id]
                    == few.scopes[id]
        }),
    decreases more.len(),
{
    let decode = |row: SaveSubscriptionView| decoded(row);
    let few = plan_saved(rows);
    if more.len() == 0 {
        assert(rows + more =~= rows);
        assert(few.subscriptions.take(few.subscriptions.len() as int) =~= few.subscriptions);
    } else {
        let fewer = more.drop_last();
        law_more_rows_only_add(rows, fewer);
        assert((rows + more).map_values(decode).drop_last() =~= (rows + fewer).map_values(decode));
        let len = few.subscriptions.len() as int;
        assert(plan_saved(rows + more).subscriptions.take(len) =~= plan_saved(
            rows + fewer,
        ).subscriptions.take(len));
    }
}

/// One more row adds at most one subscription, at the end: it adds one exactly
/// where its scope type is known and no row before it has the same scope and
/// the same kinds, each equally often.
pub proof fn law_new_scopes_add_one_subscription(
    rows: Seq<SaveSubscriptionView>,
    row: SaveSubscriptionView,
)
    ensures
        ({
            let known = row.scope_type == "channel_h"@ || row.scope_type == "owner_p"@
                || row.scope_type == "referenced_e"@;
            let kinds = |row: SaveSubscriptionView|
                match kinds_json(row.kinds) {
                    Some(kinds) => kinds,
                    None => seq![],
                };
            let repeated = exists|k: int|
                0 <= k < rows.len() && (#[trigger] rows[k]).scope_type == row.scope_type
                    && rows[k].scope_value == row.scope_value && kinds(rows[k]).to_multiset()
                    == kinds(row).to_multiset();
            let added = plan_saved(rows.push(row)).subscriptions.len() - plan_saved(
                rows,
            ).subscriptions.len();
            &&& known && !repeated ==> added == 1
            &&& !known || repeated ==> added == 0
        }),
{
    let decode = |row: SaveSubscriptionView| decoded(row);
    let kinds = |row: SaveSubscriptionView|
        match kinds_json(row.kinds) {
            Some(kinds) => kinds,
            None => seq![],
        };
    let before = rows.map_values(decode);
    let last = decoded(row);
    assert(rows.push(row).map_values(decode) =~= before.push(last));
    assert(before.push(last).drop_last() =~= before);
    law_scope_types_go_by_their_names(row.scope_type);
    if last.known() {
        let id = last.subscription().id;
        if plan(before).scopes.contains_key(id) {
            law_nothing_else_is_planned(before, id);
            let k = choose|k: int|
                0 <= k < before.len() && #[trigger] before[k].known()
                    && before[k].subscription().id == id && plan(before).scopes[id]
                    == before[k].scope();
            law_scope_types_go_by_their_names(before[k].scope_type);
            law_id_identifies_scope_and_kinds(
                before[k].scope().scope_type,
                before[k].scope_value,
                before[k].kinds,
                last.scope().scope_type,
                last.scope_value,
                last.kinds,
            );
            assert(rows[k].scope_type == row.scope_type && rows[k].scope_value == row.scope_value
                && kinds(rows[k]).to_multiset() == kinds(row).to_multiset());
        } else {
            assert forall|k: int|
                0 <= k < rows.len() && (#[trigger] rows[k]).scope_type == row.scope_type
                    && rows[k].scope_value == row.scope_value implies kinds(rows[k]).to_multiset()
                != kinds(row).to_multiset() by {
                assert(before[k] == decoded(rows[k]));
                law_every_known_row_is_planned(before, k);
                law_id_identifies_scope_and_kinds(
                    before[k].scope().scope_type,
                    before[k].scope_value,
                    before[k].kinds,
                    last.scope().scope_type,
                    last.scope_value,
                    last.kinds,
                );
            }
        }
    }
}

} // verus!
