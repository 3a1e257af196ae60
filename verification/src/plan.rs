//! Subscription planning: from saved rows to relay subscriptions, and back
//! from a subscription id to the scope its events belong to.

use vstd::prelude::*;

use crate::archive::{
    MatchedScope, MatchedScopeView, SaveSubscription, SaveSubscriptionView, ScopeType,
};
use crate::json::{
    has_member, lemma_object_view, lemma_place_of, place_of, Json, JsonView, Member,
};
use crate::kinds::{
    ascending, column_kinds, decode_kinds, kinds_json, lemma_ascending_forgets_order_only,
    lemma_ascending_is_unique, sorted_kinds,
};
use crate::subscription::{Subscription, SubscriptionView};
use crate::table::Table;
use crate::text::{
    comma_list, comma_list_text, free_of, lemma_comma_list_injective, lemma_comma_list_is_plain,
    lemma_last_separator_splits, same_text,
};
use crate::views::{lemma_views_push, lemma_views_take, views};

verus! {

/// The scope type stored under a name; none for an unknown name.
pub open spec fn scope_type_named(raw: Seq<char>) -> Option<ScopeType> {
    if raw == ScopeType::ChannelH.name() {
        Some(ScopeType::ChannelH)
    } else if raw == ScopeType::OwnerP.name() {
        Some(ScopeType::OwnerP)
    } else if raw == ScopeType::ReferencedE.name() {
        Some(ScopeType::ReferencedE)
    } else {
        None
    }
}

/// Reads a stored scope type.
pub fn parse_scope_type(raw: &str) -> (scope_type: Option<ScopeType>)
    ensures
        scope_type == scope_type_named(raw@),
{
    if same_text(raw, "channel_h") {
        Some(ScopeType::ChannelH)
    } else if same_text(raw, "owner_p") {
        Some(ScopeType::OwnerP)
    } else if same_text(raw, "referenced_e") {
        Some(ScopeType::ReferencedE)
    } else {
        None
    }
}

/// The names of the scope types are different and hold no colon.
pub proof fn lemma_scope_names()
    ensures
        ScopeType::ChannelH.name() != ScopeType::OwnerP.name(),
        ScopeType::ChannelH.name() != ScopeType::ReferencedE.name(),
        ScopeType::OwnerP.name() != ScopeType::ReferencedE.name(),
        free_of(ScopeType::ChannelH.name(), ':'),
        free_of(ScopeType::OwnerP.name(), ':'),
        free_of(ScopeType::ReferencedE.name(), ':'),
{
    reveal_strlit("channel_h");
    reveal_strlit("owner_p");
    reveal_strlit("referenced_e");
    assert("channel_h"@.len() == 9);
    assert("owner_p"@.len() == 7);
    assert("referenced_e"@.len() == 12);
}

/// Reading the name of a scope type gives it back.
pub proof fn law_scope_type_round_trip(scope_type: ScopeType)
    ensures
        scope_type_named(scope_type.name()) == Some(scope_type),
{
    lemma_scope_names();
}

/// The tag that a filter for this scope selects on.
pub open spec fn scope_tag(scope_type: ScopeType) -> Seq<char> {
    match scope_type {
        ScopeType::ChannelH => "#h"@,
        ScopeType::OwnerP => "#p"@,
        ScopeType::ReferencedE => "#e"@,
    }
}

/// The filter for a scope: its kinds in the order given, no stored events, and
/// the scope's value as the one value of its tag.
pub open spec fn scope_filter(
    scope_type: ScopeType,
    scope_value: Seq<char>,
    kinds: Seq<u64>,
) -> JsonView {
    JsonView::Object(
        map![
            "kinds"@ => JsonView::List(kinds.map_values(|kind: u64| JsonView::Number(kind))),
            "limit"@ => JsonView::Number(0),
            scope_tag(scope_type) => JsonView::List(seq![JsonView::Text(scope_value)]),
        ],
    )
}

/// Writes kinds as a JSON array.
fn kind_array(kinds: &[u64]) -> (array: Json)
    ensures
        array@ == JsonView::List(kinds@.map_values(|kind: u64| JsonView::Number(kind))),
{
    let mut items: Vec<Json> = Vec::new();
    let mut i: usize = 0;
    while i < kinds.len()
        invariant
            i <= kinds.len(),
            items.len() == i,
            forall|j: int| 0 <= j < i ==> (#[trigger] items@[j])@ == JsonView::Number(kinds@[j]),
        decreases kinds.len() - i,
    {
        items.push(Json::Number(kinds[i]));
        i = i + 1;
    }
    let array = Json::List(items);
    assert(array@->List_0 =~= kinds@.map_values(|kind: u64| JsonView::Number(kind)));
    array
}

/// Builds the filter for a scope.
///
/// `limit` is zero: only events from now on. Stored events are archived by
/// explicit backfill, so another limit would deliver history on every
/// reconnect.
pub fn build_filter(scope_type: &ScopeType, scope_value: &str, kinds: &[u64]) -> (filter: Json)
    ensures
        filter@ == scope_filter(*scope_type, scope_value@, kinds@),
{
    let tag = match scope_type {
        ScopeType::ChannelH => "#h",
        ScopeType::OwnerP => "#p",
        ScopeType::ReferencedE => "#e",
    };
    let mut values: Vec<Json> = Vec::new();
    let value = Json::Text(scope_value.to_owned());
    assert(value@ == JsonView::Text(scope_value@));
    values.push(value);
    let values = Json::List(values);
    let mut members: Vec<Member> = Vec::new();
    members.push(Member { name: "kinds".to_owned(), value: kind_array(kinds) });
    members.push(Member { name: "limit".to_owned(), value: Json::Number(0) });
    members.push(Member { name: tag.to_owned(), value: values });
    let filter = Json::Object(members);
    proof {
        assert(values@->List_0 =~= seq![JsonView::Text(scope_value@)]);
        lemma_filter_members(*scope_type, members);
        assert(filter@->Object_0 =~= scope_filter(*scope_type, scope_value@, kinds@)->Object_0);
    }
    filter
}

/// The names of a filter's three members are different.
pub proof fn lemma_filter_names(scope_type: ScopeType)
    ensures
        "kinds"@ != "limit"@,
        "kinds"@ != scope_tag(scope_type),
        "limit"@ != scope_tag(scope_type),
{
    reveal_strlit("kinds");
    reveal_strlit("limit");
    reveal_strlit("#h");
    reveal_strlit("#p");
    reveal_strlit("#e");
    assert("kinds"@[0] == 'k');
    assert("limit"@[0] == 'l');
    assert(scope_tag(scope_type)[0] == '#');
}

/// An object with the three members of a filter means what they say.
proof fn lemma_filter_members(scope_type: ScopeType, members: Vec<Member>)
    requires
        members@.len() == 3,
        members@[0].name@ == "kinds"@,
        members@[1].name@ == "limit"@,
        members@[2].name@ == scope_tag(scope_type),
    ensures
        Json::Object(members)@->Object_0 == map![
            "kinds"@ => members@[0].value@,
            "limit"@ => members@[1].value@,
            scope_tag(scope_type) => members@[2].value@,
        ],
{
    lemma_filter_names(scope_type);
    lemma_object_view(members);
    let object = Json::Object(members)@->Object_0;
    let stated = map![
        "kinds"@ => members@[0].value@,
        "limit"@ => members@[1].value@,
        scope_tag(scope_type) => members@[2].value@,
    ];
    assert forall|name: Seq<char>| #[trigger]
        object.contains_key(name) == stated.contains_key(name) && (object.contains_key(name)
            ==> object[name] == stated[name]) by {
        assert(members@[0].name@ == "kinds"@);
        assert(members@[1].name@ == "limit"@);
        assert(members@[2].name@ == scope_tag(scope_type));
        if has_member(members@, name) {
            lemma_place_of(members@, name);
            let i = place_of(members@, name);
            assert(i == 0 || i == 1 || i == 2);
        }
    }
    assert(object =~= stated);
}

/// The id of a subscription: the scope and the kinds, written out.
///
/// Kinds stand in ascending order, so that the same kinds in another order are
/// the same subscription.
pub open spec fn scope_id(
    scope_type: ScopeType,
    scope_value: Seq<char>,
    kinds: Seq<u64>,
) -> Seq<char> {
    "archive:"@ + scope_type.name() + ":"@ + scope_value + ":"@ + comma_list(ascending(kinds))
}

/// Writes the subscription id for a scope and its kinds.
pub fn subscription_id(scope_type: &ScopeType, scope_value: &str, kinds: &[u64]) -> (id: String)
    ensures
        id@ == scope_id(*scope_type, scope_value@, kinds@),
{
    let sorted = sorted_kinds(kinds);
    let mut id = "archive:".to_owned();
    id.append(scope_type.as_str());
    id.append(":");
    id.append(scope_value);
    id.append(":");
    id.append(comma_list_text(sorted.as_slice()).as_str());
    id
}

/// Two subscription ids are equal exactly when they stand for the same scope
/// and for the same kinds, whatever their order.
///
/// So a change of kinds changes the id, and the session closes the old
/// subscription and does not leave a stale filter live; and kinds that are
/// merely written in another order do not.
pub proof fn law_id_identifies_scope_and_kinds(
    type_a: ScopeType,
    value_a: Seq<char>,
    kinds_a: Seq<u64>,
    type_b: ScopeType,
    value_b: Seq<char>,
    kinds_b: Seq<u64>,
)
    ensures
        scope_id(type_a, value_a, kinds_a) == scope_id(type_b, value_b, kinds_b) <==> (type_a
            == type_b && value_a == value_b && kinds_a.to_multiset() == kinds_b.to_multiset()),
{
    lemma_ascending_forgets_order_only(kinds_a, kinds_b);
    if scope_id(type_a, value_a, kinds_a) == scope_id(type_b, value_b, kinds_b) {
        reveal_strlit(":");
        reveal_strlit("archive:");
        let list_a = comma_list(ascending(kinds_a));
        let list_b = comma_list(ascending(kinds_b));
        lemma_comma_list_is_plain(ascending(kinds_a));
        lemma_comma_list_is_plain(ascending(kinds_b));
        let head_a = "archive:"@ + type_a.name() + ":"@ + value_a;
        let head_b = "archive:"@ + type_b.name() + ":"@ + value_b;
        assert(":"@ =~= seq![':']);
        lemma_last_separator_splits(head_a, list_a, head_b, list_b, ':');
        lemma_comma_list_injective(ascending(kinds_a), ascending(kinds_b));
        lemma_scope_names();
        lemma_first_colon_splits(type_a.name(), value_a, type_b.name(), value_b, head_a, head_b);
        if type_a != type_b {
            assert(false);
        }
    }
}

/// Behind the common prefix, the first colon ends the name.
proof fn lemma_first_colon_splits(
    name_a: Seq<char>,
    value_a: Seq<char>,
    name_b: Seq<char>,
    value_b: Seq<char>,
    head_a: Seq<char>,
    head_b: Seq<char>,
)
    requires
        free_of(name_a, ':'),
        free_of(name_b, ':'),
        head_a == "archive:"@ + name_a + ":"@ + value_a,
        head_b == "archive:"@ + name_b + ":"@ + value_b,
        head_a == head_b,
    ensures
        name_a == name_b,
        value_a == value_b,
{
    reveal_strlit(":");
    let prefix = "archive:"@.len() as int;
    assert(head_a[prefix + name_a.len()] == ':');
    assert(head_b[prefix + name_b.len()] == ':');
    assert forall|i: int| 0 <= i < name_a.len() implies head_a[prefix + i] == name_a[i] by {}
    assert forall|i: int| 0 <= i < name_b.len() implies head_b[prefix + i] == name_b[i] by {}
    if name_a.len() < name_b.len() {
        assert(head_b[prefix + name_a.len()] == name_b[name_a.len() as int]);
    } else if name_b.len() < name_a.len() {
        assert(head_a[prefix + name_b.len()] == name_a[name_b.len() as int]);
    }
    assert(name_a.len() == name_b.len());
    assert(name_a =~= name_b) by {
        assert forall|i: int| 0 <= i < name_a.len() implies name_a[i] == name_b[i] by {
            assert(head_a[prefix + i] == name_a[i]);
            assert(head_b[prefix + i] == name_b[i]);
        }
    }
    assert(value_a =~= value_b) by {
        assert(head_a.len() == prefix + name_a.len() + 1 + value_a.len());
        assert(head_b.len() == prefix + name_b.len() + 1 + value_b.len());
        assert forall|i: int| 0 <= i < value_a.len() implies value_a[i] == value_b[i] by {
            assert(head_a[prefix + name_a.len() + 1 + i] == value_a[i]);
            assert(head_b[prefix + name_a.len() + 1 + i] == value_b[i]);
        }
    }
}

/// A saved row with its kinds decoded.
#[derive(Debug)]
pub struct SavedScope {
    pub scope_type: String,
    pub scope_value: String,
    pub kinds: Vec<u64>,
}

pub struct SavedScopeView {
    pub scope_type: Seq<char>,
    pub scope_value: Seq<char>,
    pub kinds: Seq<u64>,
}

impl View for SavedScope {
    type V = SavedScopeView;

    open spec fn view(&self) -> SavedScopeView {
        SavedScopeView {
            scope_type: self.scope_type@,
            scope_value: self.scope_value@,
            kinds: self.kinds@,
        }
    }
}

impl SavedScopeView {
    /// Whether the row names a scope type that exists.
    pub open spec fn known(self) -> bool {
        scope_type_named(self.scope_type) is Some
    }

    /// The subscription that a row of a known scope type asks for. Id and filter
    /// take its kinds in ascending order, so that the order they were saved in
    /// does not matter.
    pub open spec fn subscription(self) -> SubscriptionView {
        let scope_type = scope_type_named(self.scope_type)->0;
        SubscriptionView {
            id: scope_id(scope_type, self.scope_value, self.kinds),
            filter: scope_filter(scope_type, self.scope_value, ascending(self.kinds)),
        }
    }

    /// The scope that events of that subscription belong to.
    pub open spec fn scope(self) -> MatchedScopeView {
        MatchedScopeView {
            scope_type: scope_type_named(self.scope_type)->0,
            scope_value: self.scope_value,
        }
    }
}

/// A saved row with what its kinds column decodes to.
pub open spec fn decoded(row: SaveSubscriptionView) -> SavedScopeView {
    SavedScopeView {
        scope_type: row.scope_type,
        scope_value: row.scope_value,
        kinds: column_kinds(kinds_json(row.kinds)),
    }
}

/// The subscriptions to ask the relay for, and the scope of each by its id.
pub struct PlanView {
    pub subscriptions: Seq<SubscriptionView>,
    pub scopes: Map<Seq<char>, MatchedScopeView>,
}

/// The plan for saved rows: in their order, each row of a known scope type
/// whose id no earlier row has.
pub open spec fn plan(rows: Seq<SavedScopeView>) -> PlanView
    decreases rows.len(),
{
    if rows.len() == 0 {
        PlanView { subscriptions: seq![], scopes: Map::empty() }
    } else {
        let earlier = plan(rows.drop_last());
        let row = rows.last();
        if row.known() && !earlier.scopes.contains_key(row.subscription().id) {
            PlanView {
                subscriptions: earlier.subscriptions.push(row.subscription()),
                scopes: earlier.scopes.insert(row.subscription().id, row.scope()),
            }
        } else {
            earlier
        }
    }
}

/// Plans the subscriptions for rows whose kinds are decoded.
pub fn plan_scopes(rows: &[SavedScope]) -> (planned: (Vec<Subscription>, Table<MatchedScope>))
    ensures
        views(planned.0@) == plan(views(rows@)).subscriptions,
        planned.1@ == plan(views(rows@)).scopes,
{
    let mut subscriptions: Vec<Subscription> = Vec::new();
    let mut scopes: Table<MatchedScope> = Table::new();
    let mut i: usize = 0;
    assert(views(rows@).take(0) =~= seq![]);
    assert(views(subscriptions@) =~= seq![]);
    while i < rows.len()
        invariant
            i <= rows.len(),
            views(subscriptions@) == plan(views(rows@).take(i as int)).subscriptions,
            scopes@ == plan(views(rows@).take(i as int)).scopes,
        decreases rows.len() - i,
    {
        let row = &rows[i];
        proof {
            let taken = views(rows@).take(i + 1);
            lemma_views_take(rows@, i as int);
            assert(taken.drop_last() =~= views(rows@).take(i as int));
            assert(taken.last() == row@);
        }
        if let Some(scope_type) = parse_scope_type(row.scope_type.as_str()) {
            let id = subscription_id(
                &scope_type,
                row.scope_value.as_str(),
                row.kinds.as_slice(),
            );
            if !scopes.contains_key(&id) {
                let kinds = sorted_kinds(row.kinds.as_slice());
                let filter = build_filter(
                    &scope_type,
                    row.scope_value.as_str(),
                    kinds.as_slice(),
                );
                let subscription = Subscription { id: id.clone(), filter };
                proof {
                    lemma_views_push(subscriptions@, subscription);
                }
                subscriptions.push(subscription);
                scopes.insert(
                    id,
                    MatchedScope { scope_type, scope_value: row.scope_value.clone() },
                );
            }
        }
        i = i + 1;
    }
    assert(views(rows@).take(i as int) =~= views(rows@));
    (subscriptions, scopes)
}

/// Decodes the kinds of saved rows.
pub fn decode_rows(rows: &[SaveSubscription]) -> (scopes: Vec<SavedScope>)
    ensures
        views(scopes@) == views(rows@).map_values(|row: SaveSubscriptionView| decoded(row)),
{
    let mut scopes: Vec<SavedScope> = Vec::new();
    let mut i: usize = 0;
    while i < rows.len()
        invariant
            i <= rows.len(),
            scopes.len() == i,
            forall|j: int| 0 <= j < i ==> (#[trigger] scopes@[j])@ == decoded(rows@[j]@),
        decreases rows.len() - i,
    {
        let row = &rows[i];
        scopes.push(
            SavedScope {
                scope_type: row.scope_type.clone(),
                scope_value: row.scope_value.clone(),
                kinds: decode_kinds(row.kinds.as_str()),
            },
        );
        i = i + 1;
    }
    assert(views(scopes@) =~= views(rows@).map_values(|row: SaveSubscriptionView| decoded(row)));
    scopes
}

/// The plan for saved rows, as the store keeps them.
pub open spec fn plan_saved(rows: Seq<SaveSubscriptionView>) -> PlanView {
    plan(rows.map_values(|row: SaveSubscriptionView| decoded(row)))
}

/// Plans the relay subscriptions for saved rows, and the scope that each
/// subscription id maps back to when its events arrive.
///
/// A row of an unknown scope type is skipped. Rows with the same scope and the
/// same kinds give one subscription.
pub fn plan_subscriptions(subscriptions: &[SaveSubscription]) -> (planned: (
    Vec<Subscription>,
    Table<MatchedScope>,
))
    ensures
        views(planned.0@) == plan_saved(views(subscriptions@)).subscriptions,
        planned.1@ == plan_saved(views(subscriptions@)).scopes,
{
    let rows = decode_rows(subscriptions);
    plan_scopes(rows.as_slice())
}

/// Planned ids are all different, and they are the ids that have a scope.
pub proof fn law_plan_ids_have_scopes(rows: Seq<SavedScopeView>)
    ensures
        forall|i: int, j: int|
            0 <= i < j < plan(rows).subscriptions.len() ==> (#[trigger] plan(
                rows,
            ).subscriptions[i]).id != (#[trigger] plan(rows).subscriptions[j]).id,
        forall|i: int|
            0 <= i < plan(rows).subscriptions.len() ==> plan(rows).scopes.contains_key(
                (#[trigger] plan(rows).subscriptions[i]).id,
            ),
        forall|id: Seq<char>| #[trigger]
            plan(rows).scopes.contains_key(id) ==> exists|i: int|
                0 <= i < plan(rows).subscriptions.len() && (#[trigger] plan(
                    rows,
                ).subscriptions[i]).id == id,
    decreases rows.len(),
{
    if rows.len() > 0 {
        let earlier = plan(rows.drop_last());
        let now = plan(rows);
        law_plan_ids_have_scopes(rows.drop_last());
        if now != earlier {
            let last = earlier.subscriptions.len() as int;
            assert forall|i: int, j: int| 0 <= i < j < now.subscriptions.len() implies (
            #[trigger] now.subscriptions[i]).id != (#[trigger] now.subscriptions[j]).id by {
                assert(now.subscriptions[i] == earlier.subscriptions[i]);
                if j < last {
                    assert(now.subscriptions[j] == earlier.subscriptions[j]);
                }
            }
            assert forall|id: Seq<char>| #[trigger]
                now.scopes.contains_key(id) implies exists|i: int|
                0 <= i < now.subscriptions.len() && (#[trigger] now.subscriptions[i]).id == id by {
                if earlier.scopes.contains_key(id) {
                    let i = choose|i: int|
                        0 <= i < last && (#[trigger] earlier.subscriptions[i]).id == id;
                    assert(now.subscriptions[i].id == id);
                } else {
                    assert(now.subscriptions[last].id == id);
                }
            }
            assert forall|i: int| 0 <= i < now.subscriptions.len() implies now.scopes.contains_key(
                (#[trigger] now.subscriptions[i]).id,
            ) by {
                if i < last {
                    assert(now.subscriptions[i] == earlier.subscriptions[i]);
                }
            }
        }
    }
}

/// Every row of a known scope type is subscribed to, and events of its
/// subscription are matched to its scope.
pub proof fn law_every_known_row_is_planned(rows: Seq<SavedScopeView>, k: int)
    requires
        0 <= k < rows.len(),
        rows[k].known(),
    ensures
        plan(rows).scopes.contains_key(rows[k].subscription().id),
        plan(rows).scopes[rows[k].subscription().id] == rows[k].scope(),
    decreases rows.len(),
{
    if k < rows.len() - 1 {
        law_every_known_row_is_planned(rows.drop_last(), k);
    } else if plan(rows.drop_last()).scopes.contains_key(rows[k].subscription().id) {
        law_nothing_else_is_planned(rows.drop_last(), rows[k].subscription().id);
        let j = choose|j: int|
            0 <= j < rows.len() - 1 && #[trigger] rows.drop_last()[j].known()
                && rows.drop_last()[j].subscription().id == rows[k].subscription().id && plan(
                rows.drop_last(),
            ).scopes[rows[k].subscription().id] == rows.drop_last()[j].scope();
        law_id_identifies_scope_and_kinds(
            rows[j].scope().scope_type,
            rows[j].scope_value,
            rows[j].kinds,
            rows[k].scope().scope_type,
            rows[k].scope_value,
            rows[k].kinds,
        );
    }
}

/// Only rows of known scope types are subscribed to: an id with a scope is the
/// id of such a row, and the scope is that row's.
pub proof fn law_nothing_else_is_planned(rows: Seq<SavedScopeView>, id: Seq<char>)
    requires
        plan(rows).scopes.contains_key(id),
    ensures
        exists|k: int|
            0 <= k < rows.len() && #[trigger] rows[k].known() && rows[k].subscription().id == id
                && plan(rows).scopes[id] == rows[k].scope(),
    decreases rows.len(),
{
    let earlier = plan(rows.drop_last());
    if earlier.scopes.contains_key(id) {
        law_nothing_else_is_planned(rows.drop_last(), id);
        let k = choose|k: int|
            0 <= k < rows.len() - 1 && #[trigger] rows.drop_last()[k].known()
                && rows.drop_last()[k].subscription().id == id && earlier.scopes[id]
                == rows.drop_last()[k].scope();
        assert(rows[k].known() && rows[k].subscription().id == id && plan(rows).scopes[id]
            == rows[k].scope());
    } else {
        assert(rows[rows.len() - 1].known());
    }
}

/// Every planned filter asks for live events only, and selects on the one tag
/// of the scope that its id maps back to.
pub proof fn law_planned_filters_follow_events_of_their_scope(rows: Seq<SavedScopeView>, i: int)
    requires
        0 <= i < plan(rows).subscriptions.len(),
    ensures
        plan(rows).subscriptions[i].filter is Object,
        ({
            let filter = plan(rows).subscriptions[i].filter->Object_0;
            let scope = plan(rows).scopes[plan(rows).subscriptions[i].id];
            &&& filter.dom() == set!["kinds"@, "limit"@, scope_tag(scope.scope_type)]
            &&& filter["limit"@] == JsonView::Number(0)
            &&& filter[scope_tag(scope.scope_type)] == JsonView::List(
                seq![JsonView::Text(scope.scope_value)],
            )
        }),
    decreases rows.len(),
{
    let earlier = plan(rows.drop_last());
    let now = plan(rows);
    law_plan_ids_have_scopes(rows);
    if i < earlier.subscriptions.len() {
        law_planned_filters_follow_events_of_their_scope(rows.drop_last(), i);
        law_plan_ids_have_scopes(rows.drop_last());
        assert(now.subscriptions[i] == earlier.subscriptions[i]);
        assert(earlier.scopes.contains_key(earlier.subscriptions[i].id));
        assert(now.scopes[now.subscriptions[i].id] == earlier.scopes[earlier.subscriptions[i].id]);
    } else {
        let row = rows.last();
        assert(now.subscriptions[i] == row.subscription());
        lemma_filter_names(row.scope().scope_type);
        assert(row.subscription().filter->Object_0.dom() =~= set![
            "kinds"@,
            "limit"@,
            scope_tag(row.scope().scope_type),
        ]);
    }
}

/// A row whose kinds column cannot be read asks for no kind at all.
pub proof fn law_malformed_kinds_ask_for_nothing(row: SaveSubscriptionView)
    requires
        kinds_json(row.kinds) is None,
    ensures
        decoded(row).kinds.len() == 0,
        decoded(row).subscription().filter->Object_0["kinds"@] == JsonView::List(seq![]),
{
    lemma_filter_names(decoded(row).scope().scope_type);
    let kinds = decoded(row).kinds;
    lemma_ascending_is_unique(kinds, kinds);
    assert(kinds.map_values(|kind: u64| JsonView::Number(kind)) =~= seq![]);
}

/// Whether two rows save the same scope and the same kinds, in any order.
pub open spec fn same_rows(a: SavedScopeView, b: SavedScopeView) -> bool {
    &&& a.scope_type == b.scope_type
    &&& a.scope_value == b.scope_value
    &&& a.kinds.to_multiset() == b.kinds.to_multiset()
}

/// A row changes nothing, wherever it stands, where its scope type is unknown
/// or where a row with the same scope and the same kinds, in any order, came
/// before.
pub proof fn law_unknown_and_repeated_rows_add_nothing(
    before: Seq<SavedScopeView>,
    row: SavedScopeView,
    behind: Seq<SavedScopeView>,
)
    requires
        row.known() ==> exists|k: int|
            0 <= k < before.len() && same_rows(#[trigger] before[k], row),
    ensures
        plan(before.push(row) + behind) == plan(before + behind),
    decreases behind.len(),
{
    if behind.len() > 0 {
        let fewer = behind.drop_last();
        law_unknown_and_repeated_rows_add_nothing(before, row, fewer);
        assert((before.push(row) + behind).drop_last() =~= before.push(row) + fewer);
        assert((before + behind).drop_last() =~= before + fewer);
    } else {
        assert(before.push(row) + behind =~= before.push(row));
        assert(before + behind =~= before);
        assert(before.push(row).drop_last() =~= before);
        if row.known() {
            let k = choose|k: int| 0 <= k < before.len() && same_rows(#[trigger] before[k], row);
            law_every_known_row_is_planned(before, k);
            law_id_identifies_scope_and_kinds(
                row.scope().scope_type,
                row.scope_value,
                row.kinds,
                before[k].scope().scope_type,
                before[k].scope_value,
                before[k].kinds,
            );
        }
    }
}

/// The order in which kinds were saved does not matter: rows that differ in it
/// alone have the same plan, ids, filters and scopes.
pub proof fn law_kind_order_does_not_change_the_plan(
    a: Seq<SavedScopeView>,
    b: Seq<SavedScopeView>,
)
    requires
        a.len() == b.len(),
        forall|i: int| 0 <= i < a.len() ==> same_rows(#[trigger] a[i], b[i]),
    ensures
        plan(a) == plan(b),
    decreases a.len(),
{
    if a.len() > 0 {
        let fewer_a = a.drop_last();
        let fewer_b = b.drop_last();
        assert forall|i: int| 0 <= i < fewer_a.len() implies same_rows(
            #[trigger] fewer_a[i],
            fewer_b[i],
        ) by {
            assert(same_rows(a[i], b[i]));
        }
        law_kind_order_does_not_change_the_plan(fewer_a, fewer_b);
        assert(same_rows(a[a.len() - 1], b[b.len() - 1]));
        lemma_ascending_forgets_order_only(a.last().kinds, b.last().kinds);
    }
}

} // verus!
