use archive_sync::archive::{saved, ScopeType};
use archive_sync::json::{Json, Member};
use archive_sync::kinds::{decode_kinds, kinds_of_column, sorted_kinds};
use archive_sync::plan::{
    build_filter, parse_scope_type, plan_scopes, plan_subscriptions, subscription_id, SavedScope,
};
use archive_sync::subscription::Subscription;

fn text(value: &str) -> Json {
    Json::Text(value.to_string())
}

fn member(name: &str, value: Json) -> Member {
    Member { name: name.to_string(), value }
}

/// The filter with these kinds, `limit` zero, and one tag with one value.
fn filter(kinds: &[u64], tag: &str, value: &str) -> Json {
    Json::Object(vec![
        member("kinds", Json::List(kinds.iter().map(|kind| Json::Number(*kind)).collect())),
        member("limit", Json::Number(0)),
        member(tag, Json::List(vec![text(value)])),
    ])
}

/// The value as `serde_json` would hold it.
fn to_value(json: &Json) -> serde_json::Value {
    match json {
        Json::Number(n) => serde_json::Value::from(*n),
        Json::Text(text) => serde_json::Value::from(text.as_str()),
        Json::List(items) => serde_json::Value::Array(items.iter().map(to_value).collect()),
        Json::Object(members) => {
            let mut object = serde_json::Map::new();
            for member in members {
                object.insert(member.name.clone(), to_value(&member.value));
            }
            serde_json::Value::Object(object)
        }
    }
}

#[test]
fn filters_match_the_renderer_shape_for_every_scope() {
    let (planned, scopes) = plan_subscriptions(&[
        saved("channel_h", "channel-a", "[9,40002]"),
        saved("owner_p", "owner-pk", "[24200]"),
        saved("referenced_e", "event-id", "[1]"),
    ]);

    let filters: Vec<_> = planned.iter().map(|s| s.filter.clone()).collect();
    assert_eq!(
        filters,
        vec![
            filter(&[9, 40002], "#h", "channel-a"),
            filter(&[24200], "#p", "owner-pk"),
            filter(&[1], "#e", "event-id"),
        ]
    );
    let values: Vec<serde_json::Value> = filters.iter().map(to_value).collect();
    let expected: Vec<serde_json::Value> = serde_json::from_str(
        r##"[
            { "kinds": [9, 40002], "limit": 0, "#h": ["channel-a"] },
            { "kinds": [24200], "limit": 0, "#p": ["owner-pk"] },
            { "kinds": [1], "limit": 0, "#e": ["event-id"] }
        ]"##,
    )
    .unwrap();
    assert_eq!(values, expected);
    assert_eq!(scopes.len(), 3);
    let scope = scopes.get(&planned[0].id).unwrap();
    assert_eq!(scope.scope_type, ScopeType::ChannelH);
    assert_eq!(scope.scope_value, "channel-a");
}

#[test]
fn subscription_id_changes_when_kinds_change() {
    let (before, _) = plan_subscriptions(&[saved("channel_h", "channel-a", "[9]")]);
    let (after, _) = plan_subscriptions(&[saved("channel_h", "channel-a", "[9,40002]")]);
    assert_ne!(before[0].id, after[0].id);
}

#[test]
fn subscription_id_is_stable_across_kind_ordering() {
    let (a, _) = plan_subscriptions(&[saved("channel_h", "channel-a", "[40002,9]")]);
    let (b, _) = plan_subscriptions(&[saved("channel_h", "channel-a", "[9,40002]")]);
    assert_eq!(a[0].id, b[0].id);
}

#[test]
fn unknown_scope_type_is_skipped_not_guessed() {
    let (planned, scopes) = plan_subscriptions(&[
        saved("wat", "x", "[9]"),
        saved("channel_h", "channel-a", "[9]"),
    ]);
    assert_eq!(planned.len(), 1);
    assert_eq!(scopes.len(), 1);
    assert_eq!(scopes.get(&planned[0].id).unwrap().scope_value, "channel-a");
}

#[test]
fn malformed_kinds_column_yields_a_matchless_filter() {
    let (planned, _) = plan_subscriptions(&[saved("channel_h", "channel-a", "not json")]);
    assert_eq!(planned[0].filter, filter(&[], "#h", "channel-a"));
    assert_eq!(
        to_value(&planned[0].filter),
        serde_json::from_str::<serde_json::Value>(
            r##"{ "kinds": [], "limit": 0, "#h": ["channel-a"] }"##
        )
        .unwrap()
    );
}

#[test]
fn duplicate_rows_produce_one_subscription() {
    let (planned, _) = plan_subscriptions(&[
        saved("channel_h", "channel-a", "[9]"),
        saved("channel_h", "channel-a", "[9]"),
    ]);
    assert_eq!(planned.len(), 1);
}

#[test]
fn no_rows_give_no_subscriptions() {
    let (planned, scopes) = plan_subscriptions(&[]);
    assert!(planned.is_empty());
    assert_eq!(scopes.len(), 0);
}

#[test]
fn ids_are_written_out() {
    assert_eq!(
        subscription_id(&ScopeType::ChannelH, "channel-a", &[40002, 9]),
        "archive:channel_h:channel-a:9,40002"
    );
    assert_eq!(subscription_id(&ScopeType::OwnerP, "pk", &[]), "archive:owner_p:pk:");
    assert_eq!(
        subscription_id(&ScopeType::ReferencedE, "a:b", &[7, 7, 1]),
        "archive:referenced_e:a:b:1,7,7"
    );
    assert_eq!(
        subscription_id(&ScopeType::ReferencedE, "", &[u64::MAX, 0, 10]),
        "archive:referenced_e::0,10,18446744073709551615"
    );
}

#[test]
fn same_kinds_in_another_order_are_one_subscription() {
    let (planned, scopes) = plan_subscriptions(&[
        saved("channel_h", "channel-a", "[9,40002]"),
        saved("channel_h", "channel-a", "[40002,9]"),
    ]);
    assert_eq!(planned.len(), 1);
    assert_eq!(scopes.len(), 1);
    // Which of the two stands first does not matter.
    let (swapped, _) = plan_subscriptions(&[
        saved("channel_h", "channel-a", "[40002,9]"),
        saved("channel_h", "channel-a", "[9,40002]"),
    ]);
    assert_eq!(swapped[0].filter, planned[0].filter);
    assert_eq!(planned[0].filter, filter(&[9, 40002], "#h", "channel-a"));
}

#[test]
fn unknown_and_repeated_rows_add_nothing_wherever_they_stand() {
    let (plain, _) = plan_subscriptions(&[
        saved("channel_h", "channel-a", "[9,40002]"),
        saved("owner_p", "owner-pk", "[24200]"),
    ]);
    let (more, scopes) = plan_subscriptions(&[
        saved("wat", "x", "[9]"),
        saved("channel_h", "channel-a", "[9,40002]"),
        saved("channel_h", "channel-a", "[40002,9]"),
        saved("wat", "y", "[9]"),
        saved("owner_p", "owner-pk", "[24200]"),
        saved("channel_h", "channel-a", "[9,40002]"),
    ]);
    assert_eq!(scopes.len(), 2);
    let ids = |planned: &[Subscription]| {
        planned.iter().map(|s| s.id.clone()).collect::<Vec<String>>()
    };
    assert_eq!(ids(&more), ids(&plain));
    assert_eq!(more[0].filter, plain[0].filter);
    assert_eq!(more[1].filter, plain[1].filter);
}

#[test]
fn different_scopes_and_different_kinds_are_kept_apart() {
    let (planned, scopes) = plan_subscriptions(&[
        saved("channel_h", "x", "[9]"),
        saved("owner_p", "x", "[9]"),
        saved("channel_h", "y", "[9]"),
        saved("channel_h", "x", "[9,9]"),
    ]);
    assert_eq!(planned.len(), 4);
    assert_eq!(scopes.len(), 4);
    assert_eq!(scopes.get(&planned[1].id).unwrap().scope_type, ScopeType::OwnerP);
    assert_eq!(scopes.get(&planned[2].id).unwrap().scope_value, "y");
}

#[test]
fn scope_types_are_read_by_their_names() {
    assert_eq!(parse_scope_type("channel_h"), Some(ScopeType::ChannelH));
    assert_eq!(parse_scope_type("owner_p"), Some(ScopeType::OwnerP));
    assert_eq!(parse_scope_type("referenced_e"), Some(ScopeType::ReferencedE));
    assert_eq!(parse_scope_type("Channel_h"), None);
    assert_eq!(parse_scope_type(""), None);
    for scope_type in [ScopeType::ChannelH, ScopeType::OwnerP, ScopeType::ReferencedE] {
        assert_eq!(parse_scope_type(scope_type.as_str()), Some(scope_type));
    }
}

#[test]
fn kinds_columns_are_decoded() {
    assert_eq!(decode_kinds("[9,40002]"), vec![9, 40002]);
    assert_eq!(decode_kinds(" [ 2 , 1 ] "), vec![2, 1]);
    assert_eq!(decode_kinds("[]"), Vec::<u64>::new());
    assert_eq!(kinds_of_column(Some(vec![3, 1])), vec![3, 1]);
    assert_eq!(kinds_of_column(None), Vec::<u64>::new());
    // None of these is a list of unsigned numbers.
    assert_eq!(decode_kinds(""), Vec::<u64>::new());
    assert_eq!(decode_kinds("9"), Vec::<u64>::new());
    assert_eq!(decode_kinds("[-1]"), Vec::<u64>::new());
    assert_eq!(decode_kinds("[1.5]"), Vec::<u64>::new());
    assert_eq!(decode_kinds("[1] trailing"), Vec::<u64>::new());
    assert_eq!(decode_kinds("[\"9\"]"), Vec::<u64>::new());
}

#[test]
fn kinds_are_sorted_with_their_repetitions() {
    assert_eq!(sorted_kinds(&[3, 1, 2, 3, 0]), vec![0, 1, 2, 3, 3]);
    assert_eq!(sorted_kinds(&[]), Vec::<u64>::new());
}

#[test]
fn decoded_rows_are_planned_like_saved_ones() {
    let rows = [
        SavedScope {
            scope_type: "channel_h".to_string(),
            scope_value: "channel-a".to_string(),
            kinds: vec![9],
        },
        SavedScope { scope_type: "?".to_string(), scope_value: "x".to_string(), kinds: vec![1] },
    ];
    let (planned, scopes) = plan_scopes(&rows);
    assert_eq!(planned.len(), 1);
    assert_eq!(planned[0].id, "archive:channel_h:channel-a:9");
    assert_eq!(planned[0].filter, build_filter(&ScopeType::ChannelH, "channel-a", &[9]));
    assert_eq!(scopes.ids(), vec!["archive:channel_h:channel-a:9".to_string()]);
}
