use archive_sync::archive::{
    saved, ArchiveBatchResult, ArchiveCandidate, MatchedScope, SaveSubscription, ScopeType,
};
use archive_sync::batch::{PendingBatch, FLUSH_BATCH_SIZE, FLUSH_DEADLINE};
use archive_sync::subscription::{MatchedEvent, Subscription};
use archive_sync::sync::{SyncAction, SyncEvent, SyncLoop};

const MILLISECOND: u64 = 1_000_000;

/// Runs a loop against scripted answers and a clock that is moved by hand.
struct Driver {
    state: Option<SyncLoop>,
    deadline: Option<u64>,
    finished: bool,
    now: u64,
    /// Successive listings; the last one repeats.
    listings: Vec<Result<Vec<SaveSubscription>, String>>,
    persisted_agent_metrics: u32,
    archive_fails: bool,
    applied: Vec<Vec<Subscription>>,
    batches: Vec<Vec<ArchiveCandidate>>,
    metrics_notifications: u32,
}

impl Driver {
    fn new(listings: Vec<Result<Vec<SaveSubscription>, String>>) -> Driver {
        Driver {
            state: None,
            deadline: None,
            finished: false,
            now: 0,
            listings,
            persisted_agent_metrics: 0,
            archive_fails: false,
            applied: Vec::new(),
            batches: Vec::new(),
            metrics_notifications: 0,
        }
    }

    fn start(listings: Vec<Vec<SaveSubscription>>) -> Driver {
        let mut driver = Driver::new(listings.into_iter().map(Ok).collect());
        driver.begin();
        driver
    }

    fn begin(&mut self) {
        let (state, action) = SyncLoop::start();
        self.state = Some(state);
        self.perform(action);
    }

    /// Performs actions until the loop waits or has ended.
    fn perform(&mut self, first: SyncAction) {
        let mut action = first;
        loop {
            let event = match action {
                SyncAction::List { .. } => {
                    let listing = if self.listings.len() > 1 {
                        self.listings.remove(0)
                    } else {
                        self.listings[0].clone()
                    };
                    SyncEvent::Listed(listing)
                }
                SyncAction::Apply { subscriptions, .. } => {
                    self.applied.push(subscriptions);
                    SyncEvent::Applied
                }
                SyncAction::Resume { .. } => panic!("nothing here takes long"),
                SyncAction::Wait { deadline } => {
                    self.deadline = deadline;
                    return;
                }
                SyncAction::Archive(candidates) => {
                    self.batches.push(candidates);
                    SyncEvent::Archived(if self.archive_fails {
                        Err("archive failed".to_string())
                    } else {
                        Ok(ArchiveBatchResult {
                            persisted: 0,
                            persisted_agent_metrics: self.persisted_agent_metrics,
                            dropped: 0,
                        })
                    })
                }
                SyncAction::Notify => {
                    self.metrics_notifications += 1;
                    SyncEvent::Notified
                }
                SyncAction::Finish => {
                    self.finished = true;
                    return;
                }
            };
            action = self.step(event);
        }
    }

    fn step(&mut self, event: SyncEvent) -> SyncAction {
        let state = self.state.take().unwrap();
        assert!(state.accepts(&event));
        let (state, action) = state.step(event);
        self.state = Some(state);
        action
    }

    fn give(&mut self, event: SyncEvent) {
        let action = self.step(event);
        self.perform(action);
    }

    fn send(&mut self, subscription_id: &str) {
        let now = self.now;
        self.give(SyncEvent::Received { event: matched(subscription_id), now });
    }

    /// Moves the clock, letting the deadline pass when it comes.
    fn sleep(&mut self, nanoseconds: u64) {
        let until = self.now + nanoseconds;
        while let Some(deadline) = self.deadline.filter(|deadline| *deadline <= until) {
            self.now = self.now.max(deadline);
            self.give(SyncEvent::DeadlineElapsed);
        }
        self.now = until;
    }

    fn first_id(&self) -> String {
        self.applied[0][0].id.clone()
    }

    /// The scope values of the archived candidates, batch by batch.
    fn archived(&self) -> Vec<Vec<String>> {
        self.batches
            .iter()
            .map(|batch| batch.iter().map(|c| c.matched_scope.scope_value.clone()).collect())
            .collect()
    }
}

fn matched(subscription_id: &str) -> MatchedEvent {
    MatchedEvent {
        subscription_id: subscription_id.to_string(),
        event: "{\"content\":\"hello\"}".to_string(),
    }
}

fn candidate(text: &str) -> ArchiveCandidate {
    ArchiveCandidate {
        raw_event_json: text.to_string(),
        matched_scope: MatchedScope {
            scope_type: ScopeType::OwnerP,
            scope_value: "owner-pk".to_string(),
        },
    }
}

#[test]
fn subscribes_to_saved_configs_on_start() {
    let driver = Driver::start(vec![vec![saved("channel_h", "channel-a", "[9]")]]);
    assert_eq!(driver.applied[0].len(), 1);
}

#[test]
fn reload_signal_resubscribes_with_the_new_set() {
    let mut driver = Driver::start(vec![
        vec![saved("channel_h", "channel-a", "[9]")],
        vec![
            saved("channel_h", "channel-a", "[9]"),
            saved("owner_p", "owner-pk", "[24200]"),
        ],
    ]);
    driver.give(SyncEvent::ReloadRequested);
    assert_eq!(driver.applied[1].len(), 2);
}

#[test]
fn flushes_when_the_batch_size_is_reached() {
    let mut driver = Driver::start(vec![vec![saved("channel_h", "channel-a", "[9]")]]);
    let id = driver.first_id();

    for _ in 0..(FLUSH_BATCH_SIZE - 1) {
        driver.send(&id);
    }
    assert!(driver.archived().is_empty(), "flushed before reaching the batch size");

    driver.send(&id);
    let archived = driver.archived();
    assert_eq!(archived.len(), 1);
    assert_eq!(archived[0].len(), FLUSH_BATCH_SIZE);
    assert!(archived[0].iter().all(|scope| scope == "channel-a"));
}

#[test]
fn flushes_a_partial_batch_after_the_deadline() {
    let mut driver = Driver::start(vec![vec![saved("channel_h", "channel-a", "[9]")]]);
    let id = driver.first_id();

    driver.send(&id);
    driver.sleep(FLUSH_DEADLINE - MILLISECOND);
    assert!(driver.archived().is_empty(), "flushed before the deadline");

    driver.sleep(2 * MILLISECOND);
    assert_eq!(driver.archived()[0].len(), 1);
}

#[test]
fn a_trickle_cannot_postpone_the_deadline_indefinitely() {
    let mut driver = Driver::start(vec![vec![saved("channel_h", "channel-a", "[9]")]]);
    let id = driver.first_id();

    for _ in 0..4 {
        driver.send(&id);
        driver.sleep(FLUSH_DEADLINE / 2);
    }
    assert!(!driver.archived().is_empty());
    // Each flush is due two half deadlines after its first event.
    assert_eq!(driver.archived().iter().map(|batch| batch.len()).collect::<Vec<_>>(), vec![2, 2]);
}

#[test]
fn events_for_an_unknown_subscription_are_dropped() {
    let mut driver = Driver::start(vec![vec![saved("channel_h", "channel-a", "[9]")]]);

    driver.send("archive:channel_h:gone:[9]");
    driver.give(SyncEvent::Cancelled);

    assert!(driver.finished);
    assert!(driver.archived().is_empty(), "archived an event with no known scope");
}

#[test]
fn buffered_events_flush_on_shutdown() {
    let mut driver = Driver::start(vec![vec![saved("owner_p", "owner-pk", "[24200]")]]);
    let id = driver.first_id();

    driver.send(&id);
    driver.give(SyncEvent::Cancelled);

    let archived = driver.archived();
    assert_eq!(archived.len(), 1, "shutdown did not flush the buffer");
    assert_eq!(archived[0], vec!["owner-pk".to_string()]);
    assert!(driver.finished);
}

#[test]
fn notifies_agent_metrics_only_when_the_backend_persisted_some() {
    let mut driver = Driver::start(vec![vec![saved("owner_p", "owner-pk", "[44200]")]]);
    driver.persisted_agent_metrics = 2;
    let id = driver.first_id();

    for _ in 0..FLUSH_BATCH_SIZE {
        driver.send(&id);
    }
    assert!(!driver.archived().is_empty());
    assert_eq!(driver.metrics_notifications, 1);
}

#[test]
fn does_not_notify_when_nothing_was_persisted() {
    let mut driver = Driver::start(vec![vec![saved("owner_p", "owner-pk", "[44200]")]]);
    let id = driver.first_id();

    for _ in 0..FLUSH_BATCH_SIZE {
        driver.send(&id);
    }
    assert!(!driver.archived().is_empty());
    assert_eq!(driver.metrics_notifications, 0);
}

#[test]
fn a_failed_archive_call_does_not_notify_or_stop_the_loop() {
    let mut driver = Driver::start(vec![vec![saved("channel_h", "channel-a", "[9]")]]);
    driver.archive_fails = true;
    let id = driver.first_id();

    for _ in 0..(FLUSH_BATCH_SIZE * 2) {
        driver.send(&id);
    }
    assert!(driver.archived().len() >= 2);
    assert_eq!(driver.metrics_notifications, 0);
    assert!(!driver.finished);
}

#[test]
fn a_failed_listing_leaves_the_previous_subscriptions_live() {
    let mut driver = Driver::new(vec![
        Ok(vec![saved("channel_h", "channel-a", "[9]")]),
        Err("db is busy".to_string()),
    ]);
    driver.begin();
    let id = driver.first_id();
    driver.give(SyncEvent::ReloadRequested);

    // The failed reload applied nothing, and the scope still matches.
    assert_eq!(driver.applied.len(), 1);
    for _ in 0..FLUSH_BATCH_SIZE {
        driver.send(&id);
    }
    assert!(!driver.archived().is_empty());
}

#[test]
fn a_failed_first_listing_waits_without_subscriptions() {
    let mut driver = Driver::new(vec![
        Err("db is busy".to_string()),
        Ok(vec![saved("channel_h", "channel-a", "[9]")]),
    ]);
    driver.begin();
    assert!(driver.applied.is_empty());
    driver.give(SyncEvent::ReloadRequested);
    assert_eq!(driver.applied.len(), 1);
}

#[test]
fn candidates_carry_the_event_text_and_its_scope() {
    let mut driver = Driver::start(vec![vec![
        saved("channel_h", "channel-a", "[9]"),
        saved("referenced_e", "event-id", "[1]"),
    ]]);
    let other = driver.applied[0][1].id.clone();
    driver.send(&other);
    driver.give(SyncEvent::EventsEnded);
    assert!(driver.finished);
    let archived = &driver.batches[0][0];
    assert_eq!(archived.raw_event_json, "{\"content\":\"hello\"}");
    assert_eq!(archived.matched_scope.scope_type, ScopeType::ReferencedE);
    assert_eq!(archived.matched_scope.scope_value, "event-id");
}

#[test]
fn reloading_drops_events_of_subscriptions_that_are_gone() {
    let mut driver = Driver::start(vec![
        vec![saved("channel_h", "channel-a", "[9]")],
        vec![saved("channel_h", "channel-b", "[9]")],
    ]);
    let old = driver.first_id();
    driver.send(&old);
    driver.give(SyncEvent::ReloadRequested);
    driver.send(&old);
    let new = driver.applied[1][0].id.clone();
    driver.send(&new);
    driver.give(SyncEvent::Cancelled);
    // What was buffered before the reload stays; what came for it after is dropped.
    assert_eq!(
        driver.archived(),
        vec![vec!["channel-a".to_string(), "channel-b".to_string()]]
    );
}

/// A waiting loop with the row in force and one event buffered at time zero.
fn with_one_buffered() -> SyncLoop {
    let (state, _) = SyncLoop::start();
    let (state, _) = state.step(SyncEvent::Listed(Ok(vec![saved("owner_p", "pk", "[1]")])));
    let (state, _) = state.step(SyncEvent::Applied);
    let event = matched("archive:owner_p:pk:1");
    let (state, action) = state.step(SyncEvent::Received { event, now: 0 });
    assert!(matches!(action, SyncAction::Wait { deadline: Some(FLUSH_DEADLINE) }));
    state
}

fn answered(persisted_agent_metrics: u32) -> SyncEvent {
    SyncEvent::Archived(Ok(ArchiveBatchResult {
        persisted: 1,
        persisted_agent_metrics,
        dropped: 0,
    }))
}

#[test]
fn a_slow_listing_does_not_hold_the_deadline() {
    let state = with_one_buffered();
    let (state, action) = state.step(SyncEvent::ReloadRequested);
    assert!(matches!(action, SyncAction::List { deadline: Some(FLUSH_DEADLINE) }));
    assert!(state.accepts(&SyncEvent::DeadlineElapsed));
    let (state, action) = state.step(SyncEvent::DeadlineElapsed);
    match action {
        SyncAction::Archive(candidates) => assert_eq!(candidates.len(), 1),
        _ => panic!("not flushed"),
    }
    // The listing is waited for again, and not begun anew.
    let (state, action) = state.step(answered(0));
    assert!(matches!(action, SyncAction::Resume { deadline: None }));
    assert!(!state.accepts(&SyncEvent::DeadlineElapsed));
    assert!(!state.accepts(&SyncEvent::ReloadRequested));
    let rows = vec![saved("owner_p", "pk", "[1]"), saved("channel_h", "c", "[9]")];
    let (state, action) = state.step(SyncEvent::Listed(Ok(rows)));
    match action {
        SyncAction::Apply { subscriptions, deadline } => {
            assert_eq!(subscriptions.len(), 2);
            assert_eq!(deadline, None);
        }
        _ => panic!("not applied"),
    }
    let (_, action) = state.step(SyncEvent::Applied);
    assert!(matches!(action, SyncAction::Wait { deadline: None }));
}

#[test]
fn a_slow_apply_does_not_hold_the_deadline() {
    let state = with_one_buffered();
    let (state, _) = state.step(SyncEvent::ReloadRequested);
    let rows = vec![saved("channel_h", "c", "[9]")];
    let (state, action) = state.step(SyncEvent::Listed(Ok(rows)));
    assert!(matches!(action, SyncAction::Apply { deadline: Some(FLUSH_DEADLINE), .. }));
    let (state, action) = state.step(SyncEvent::DeadlineElapsed);
    assert!(matches!(action, SyncAction::Archive(_)));
    let (state, action) = state.step(answered(1));
    assert!(matches!(action, SyncAction::Notify));
    let (state, action) = state.step(SyncEvent::Notified);
    assert!(matches!(action, SyncAction::Resume { deadline: None }));
    // The set that was being applied comes into force.
    let (state, _) = state.step(SyncEvent::Applied);
    assert_eq!(state.scopes.ids(), vec!["archive:channel_h:c:9".to_string()]);
}

#[test]
fn a_failed_listing_keeps_the_deadline() {
    let state = with_one_buffered();
    let (state, _) = state.step(SyncEvent::ReloadRequested);
    let (_, action) = state.step(SyncEvent::Listed(Err("db is busy".to_string())));
    assert!(matches!(action, SyncAction::Wait { deadline: Some(FLUSH_DEADLINE) }));
}

#[test]
fn reload_requests_are_taken_between_passes_only() {
    let (state, action) = SyncLoop::start();
    assert!(matches!(action, SyncAction::List { deadline: None }));
    assert!(!state.accepts(&SyncEvent::ReloadRequested));
    let (state, _) = state.step(SyncEvent::Listed(Ok(Vec::new())));
    assert!(!state.accepts(&SyncEvent::ReloadRequested));
    let (state, _) = state.step(SyncEvent::Applied);
    assert!(state.accepts(&SyncEvent::ReloadRequested));
    let (_, action) = state.step(SyncEvent::ReloadRequested);
    assert!(matches!(action, SyncAction::List { deadline: None }));
}

#[test]
fn the_last_batch_is_announced_before_the_end() {
    let mut driver = Driver::start(vec![vec![saved("owner_p", "owner-pk", "[44200]")]]);
    driver.persisted_agent_metrics = 1;
    let id = driver.first_id();
    driver.send(&id);
    driver.give(SyncEvent::Cancelled);
    assert_eq!(driver.metrics_notifications, 1);
    assert!(driver.finished);
}

#[test]
fn events_that_are_not_awaited_are_not_accepted() {
    let (state, _) = SyncLoop::start();
    assert!(state.accepts(&SyncEvent::Listed(Ok(Vec::new()))));
    assert!(!state.accepts(&SyncEvent::Cancelled));
    assert!(!state.accepts(&SyncEvent::Applied));
    let (state, _) = state.step(SyncEvent::Listed(Ok(vec![saved("owner_p", "pk", "[1]")])));
    let (state, action) = state.step(SyncEvent::Applied);
    assert!(matches!(action, SyncAction::Wait { deadline: None }));
    assert!(state.accepts(&SyncEvent::Cancelled));
    // Nothing is buffered, so no deadline can pass.
    assert!(!state.accepts(&SyncEvent::DeadlineElapsed));
    let event = matched("archive:owner_p:pk:1");
    assert!(state.accepts(&SyncEvent::Received { event: event.clone(), now: u64::MAX - FLUSH_DEADLINE }));
    // The deadline could not be told.
    assert!(!state.accepts(&SyncEvent::Received { event, now: u64::MAX }));
    assert!(state.accepts(&SyncEvent::Received { event: matched("other"), now: u64::MAX }));
}

#[test]
fn a_batch_keeps_the_deadline_of_its_first_candidate() {
    let mut batch: PendingBatch = Default::default();
    assert_eq!(batch.deadline, None);
    batch.push(candidate("a"), 5);
    batch.push(candidate("b"), 1_000_000_000);
    assert_eq!(batch.deadline, Some(2_000_000_005));
    assert!(!batch.is_full());
    let taken = batch.take();
    assert_eq!(taken.iter().map(|c| c.raw_event_json.as_str()).collect::<Vec<_>>(), vec!["a", "b"]);
    assert_eq!(batch.deadline, None);
    assert!(batch.take().is_empty());
    batch.push(candidate("c"), 7);
    assert_eq!(batch.deadline, Some(2_000_000_007));
}

#[test]
fn a_batch_is_full_at_its_size() {
    let mut batch: PendingBatch = Default::default();
    for i in 0..25 {
        assert!(!batch.is_full());
        batch.push(candidate("x"), i);
    }
    assert!(batch.is_full());
}
