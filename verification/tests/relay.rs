use archive_sync::archive::saved;
use archive_sync::connection::{
    is_read_timeout, stale_ids, Connection, ConnectionAction, ConnectionEvent, ReadError,
    RelayMessage,
};
use archive_sync::json::{Json, Member};
use archive_sync::plan::plan_subscriptions;
use archive_sync::session::{
    next_delay, Session, SessionAction, SessionEvent, RECONNECT_BASE_DELAY, RECONNECT_MAX_DELAY,
};
use archive_sync::subscription::{MatchedEvent, Subscription};
use archive_sync::table::Table;

fn text(value: &str) -> Json {
    Json::Text(value.to_string())
}

fn filter(kind: u64) -> Json {
    Json::Object(vec![Member {
        name: "kinds".to_string(),
        value: Json::List(vec![Json::Number(kind)]),
    }])
}

fn sub(id: &str, kind: u64) -> Subscription {
    Subscription { id: id.to_string(), filter: filter(kind) }
}

fn close(id: &str) -> Json {
    Json::List(vec![text("CLOSE"), text(id)])
}

fn request(id: &str, kind: u64) -> Json {
    Json::List(vec![text("REQ"), text(id), filter(kind)])
}

fn event(id: &str) -> MatchedEvent {
    MatchedEvent { subscription_id: id.to_string(), event: "{}".to_string() }
}

/// Reconciles with the desired set, sending every frame.
fn reconcile(connection: Connection, desired: Vec<Subscription>) -> (Connection, Vec<Json>) {
    let (mut connection, mut action) = connection.step(ConnectionEvent::Loaded(desired));
    let mut frames = Vec::new();
    loop {
        match action {
            ConnectionAction::Send(frame) => frames.push(frame),
            ConnectionAction::Wait => return (connection, frames),
            _ => panic!("neither a frame nor waiting"),
        }
        (connection, action) = connection.step(ConnectionEvent::Sent { sent: true });
    }
}

fn wake(connection: Connection) -> Connection {
    let (connection, action) = connection.step(ConnectionEvent::Woken);
    assert!(matches!(action, ConnectionAction::Load));
    connection
}

/// A waiting connection with these subscriptions open.
fn connected(desired: Vec<Subscription>) -> Connection {
    let (connection, action) = Connection::start();
    assert!(matches!(action, ConnectionAction::Load));
    reconcile(connection, desired).0
}

#[test]
fn a_new_connection_requests_the_whole_set_in_order() {
    let (connection, _) = Connection::start();
    let (connection, frames) = reconcile(connection, vec![sub("b", 2), sub("a", 1)]);
    assert_eq!(frames, vec![request("b", 2), request("a", 1)]);
    assert_eq!(connection.open.len(), 2);
}

#[test]
fn reconciling_the_same_set_sends_nothing() {
    let connection = wake(connected(vec![sub("a", 1), sub("b", 2)]));
    let (_, frames) = reconcile(connection, vec![sub("b", 2), sub("a", 1)]);
    assert!(frames.is_empty());
}

#[test]
fn the_same_kinds_in_another_order_send_nothing() {
    let planned = |kinds: &str| plan_subscriptions(&[saved("channel_h", "channel-a", kinds)]).0;
    let (connection, _) = Connection::start();
    let (connection, frames) = reconcile(connection, planned("[40002,9]"));
    assert_eq!(frames.len(), 1);
    let (connection, frames) = reconcile(wake(connection), planned("[9,40002]"));
    assert!(frames.is_empty());
    // Other kinds are another subscription.
    let (_, frames) = reconcile(wake(connection), planned("[9]"));
    assert_eq!(frames.len(), 2);
    assert_eq!(frames[0], close("archive:channel_h:channel-a:9,40002"));
}

#[test]
fn a_changed_filter_is_requested_and_not_closed() {
    let connection = wake(connected(vec![sub("a", 1), sub("b", 2)]));
    let (connection, frames) = reconcile(connection, vec![sub("a", 7), sub("b", 2)]);
    assert_eq!(frames, vec![request("a", 7)]);
    assert_eq!(*connection.open.get(&"a".to_string()).unwrap(), filter(7));
}

#[test]
fn subscriptions_that_are_not_desired_are_closed_first() {
    let connection = wake(connected(vec![sub("a", 1), sub("b", 2)]));
    let (connection, frames) = reconcile(connection, vec![sub("c", 3)]);
    assert_eq!(frames.len(), 3);
    assert!(frames[..2].contains(&close("a")));
    assert!(frames[..2].contains(&close("b")));
    assert_eq!(frames[2], request("c", 3));
    assert_eq!(connection.open.ids(), vec!["c".to_string()]);
}

#[test]
fn an_empty_set_closes_everything() {
    let connection = wake(connected(vec![sub("a", 1)]));
    let (connection, frames) = reconcile(connection, Vec::new());
    assert_eq!(frames, vec![close("a")]);
    assert_eq!(connection.open.len(), 0);
}

#[test]
fn the_later_filter_of_a_repeated_id_counts() {
    let (connection, _) = Connection::start();
    let (connection, frames) = reconcile(connection, vec![sub("a", 1), sub("a", 2)]);
    assert_eq!(frames, vec![request("a", 1), request("a", 2)]);
    assert_eq!(*connection.open.get(&"a".to_string()).unwrap(), filter(2));
}

#[test]
fn a_frame_that_cannot_be_sent_ends_the_connection() {
    let (connection, _) = Connection::start();
    let (connection, _) = connection.step(ConnectionEvent::Loaded(vec![sub("a", 1)]));
    let (connection, action) = connection.step(ConnectionEvent::Sent { sent: false });
    assert!(matches!(action, ConnectionAction::End));
    assert_eq!(connection.open.len(), 0);
    assert!(!connection.accepts(&ConnectionEvent::Woken));
}

#[test]
fn only_events_of_open_subscriptions_are_delivered() {
    let connection = connected(vec![sub("a", 1)]);
    let (connection, action) =
        connection.step(ConnectionEvent::Read(Ok(RelayMessage::Event(event("gone")))));
    assert!(matches!(action, ConnectionAction::Wait));
    let (connection, action) =
        connection.step(ConnectionEvent::Read(Ok(RelayMessage::Event(event("a")))));
    match action {
        ConnectionAction::Deliver(delivered) => assert_eq!(delivered.subscription_id, "a"),
        _ => panic!("not delivered"),
    }
    let (connection, action) = connection.step(ConnectionEvent::Delivered { taken: true });
    assert!(matches!(action, ConnectionAction::Wait));
    assert!(connection.accepts(&ConnectionEvent::Woken));
}

#[test]
fn an_event_that_nobody_takes_closes_the_socket() {
    let connection = connected(vec![sub("a", 1)]);
    let (connection, _) =
        connection.step(ConnectionEvent::Read(Ok(RelayMessage::Event(event("a")))));
    let (connection, action) = connection.step(ConnectionEvent::Delivered { taken: false });
    assert!(matches!(action, ConnectionAction::Disconnect));
    let (_, action) = connection.step(ConnectionEvent::Disconnected);
    assert!(matches!(action, ConnectionAction::End));
}

#[test]
fn a_subscription_closed_by_the_relay_is_requested_again() {
    let connection = connected(vec![sub("a", 1), sub("b", 2)]);
    let (connection, action) = connection.step(ConnectionEvent::Read(Ok(RelayMessage::Closed {
        subscription_id: "a".to_string(),
        message: "too many".to_string(),
    })));
    assert!(matches!(action, ConnectionAction::Wait));
    let (_, frames) = reconcile(wake(connection), vec![sub("a", 1), sub("b", 2)]);
    assert_eq!(frames, vec![request("a", 1)]);
}

#[test]
fn an_idle_relay_keeps_the_connection() {
    let connection = connected(vec![sub("a", 1)]);
    let (connection, action) = connection.step(ConnectionEvent::Read(Err(ReadError::Timeout)));
    assert!(matches!(action, ConnectionAction::Wait));
    let (connection, action) = connection.step(ConnectionEvent::Read(Ok(RelayMessage::Other)));
    assert!(matches!(action, ConnectionAction::Wait));
    let (_, action) = connection.step(ConnectionEvent::Read(Err(ReadError::Failed)));
    assert!(matches!(action, ConnectionAction::End));
    assert!(is_read_timeout(&ReadError::Timeout));
    assert!(!is_read_timeout(&ReadError::Failed));
}

#[test]
fn a_cancelled_connection_closes_its_socket() {
    let connection = connected(Vec::new());
    let (connection, action) = connection.step(ConnectionEvent::Cancelled);
    assert!(matches!(action, ConnectionAction::Disconnect));
    let (_, action) = connection.step(ConnectionEvent::Disconnected);
    assert!(matches!(action, ConnectionAction::End));
}

#[test]
fn stale_ids_are_open_and_not_desired() {
    let mut open: Table<Json> = Table::new();
    open.insert("a".to_string(), filter(1));
    open.insert("b".to_string(), filter(2));
    assert_eq!(stale_ids(&open, &vec![sub("b", 9)]), vec!["a".to_string()]);
}

#[test]
fn tables_hold_one_value_per_id() {
    let mut table: Table<Json> = Table::new();
    table.insert("a".to_string(), Json::Number(1));
    table.insert("b".to_string(), Json::Number(2));
    table.insert("a".to_string(), Json::Number(3));
    assert_eq!(table.len(), 2);
    assert_eq!(*table.get(&"a".to_string()).unwrap(), Json::Number(3));
    table.remove(&"a".to_string());
    table.remove(&"missing".to_string());
    assert!(!table.contains_key(&"a".to_string()));
    assert_eq!(table.ids(), vec!["b".to_string()]);
}

#[test]
fn objects_are_equal_in_any_order() {
    let member = |name: &str, n: u64| Member { name: name.to_string(), value: Json::Number(n) };
    let ab = Json::Object(vec![member("a", 1), member("b", 2)]);
    let ba = Json::Object(vec![member("b", 2), member("a", 1)]);
    assert_eq!(ab, ba);
    assert_eq!(Json::Object(vec![member("a", 9), member("b", 2), member("a", 1)]), ab);
    assert_ne!(Json::Object(vec![member("a", 1)]), ab);
    assert_ne!(Json::Object(vec![member("a", 1), member("b", 3)]), ab);
    assert_ne!(
        Json::List(vec![Json::Number(1), Json::Number(2)]),
        Json::List(vec![Json::Number(2), Json::Number(1)])
    );
    assert_ne!(Json::Number(1), text("1"));
    assert_eq!(ab.clone(), ab);
}

/// Steps a session and checks what it is told to do.
fn expect(session: Session, event: SessionEvent, action: SessionAction) -> Session {
    assert!(session.accepts(event));
    let (session, next) = session.step(event);
    assert_eq!(next, action);
    session
}

#[test]
fn waits_double_up_to_the_longest_and_start_over_after_a_connection() {
    let (mut session, action) = Session::start();
    assert_eq!(action, SessionAction::Poll);
    let polled = SessionEvent::Polled { cancelled: false };
    for wait in [500, 1_000, 2_000, 4_000, 8_000, 16_000, 30_000, 30_000] {
        session = expect(session, polled, SessionAction::Connect);
        session = expect(session, SessionEvent::ConnectFailed, SessionAction::Poll);
        session = expect(session, polled, SessionAction::Sleep(wait));
        session = expect(session, SessionEvent::Slept, SessionAction::Poll);
    }
    session = expect(session, polled, SessionAction::Connect);
    session = expect(session, SessionEvent::Connected, SessionAction::Drive);
    session = expect(session, SessionEvent::ConnectionEnded, SessionAction::Poll);
    session = expect(session, polled, SessionAction::Sleep(500));
    session = expect(session, SessionEvent::Slept, SessionAction::Poll);
    assert_eq!(session.delay, 1_000);
}

#[test]
fn a_cancelled_session_stops() {
    let cancelled = SessionEvent::Polled { cancelled: true };
    let polled = SessionEvent::Polled { cancelled: false };
    let (session, _) = Session::start();
    let stopped = expect(session, cancelled, SessionAction::Stop);
    assert!(!stopped.accepts(polled));

    let connecting = expect(session, polled, SessionAction::Connect);
    let failed = expect(connecting, SessionEvent::ConnectFailed, SessionAction::Poll);
    expect(failed, cancelled, SessionAction::Stop);
    let sleeping = expect(failed, polled, SessionAction::Sleep(RECONNECT_BASE_DELAY));
    expect(sleeping, SessionEvent::Cancelled, SessionAction::Stop);
}

#[test]
fn delays_double_up_to_the_longest() {
    assert_eq!(next_delay(500), 1_000);
    assert_eq!(next_delay(15_000), 30_000);
    assert_eq!(next_delay(15_001), RECONNECT_MAX_DELAY);
    assert_eq!(next_delay(u64::MAX), RECONNECT_MAX_DELAY);
}
