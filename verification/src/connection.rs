//! One relay connection: keeping the open subscriptions in line with the
//! desired ones, and passing on the events that arrive.
//!
//! The open subscriptions belong to the connection. A new connection has none,
//! so connecting again subscribes to the whole desired set on the ordinary
//! path.

use vstd::pervasive::unreached;
use vstd::prelude::*;

use crate::json::{Json, JsonView};
use crate::subscription::{MatchedEvent, MatchedEventView, Subscription, SubscriptionView};
use crate::table::Table;
use crate::views::views;

verus! {

/// How long a read may block before the connection looks around again, in
/// milliseconds. An idle relay is normal: a read that lapses is no failure.
pub const READ_TIMEOUT: u64 = 30_000;

/// Why nothing was read.
#[derive(Clone, Copy, Debug, PartialEq, Eq, Structural)]
pub enum ReadError {
    /// Nothing came in time.
    Timeout,
    /// The connection failed.
    Failed,
}

/// Whether a read merely lapsed: then the relay is idle, and nothing failed.
pub fn is_read_timeout(error: &ReadError) -> (lapsed: bool)
    ensures
        lapsed == (*error is Timeout),
{
    match error {
        ReadError::Timeout => true,
        ReadError::Failed => false,
    }
}

/// What the relay says.
#[derive(Debug)]
pub enum RelayMessage {
    /// An event that a subscription matched.
    Event(MatchedEvent),
    /// The relay dropped a subscription.
    Closed { subscription_id: String, message: String },
    /// Anything else.
    Other,
}

/// What the relay says, as far as it matters.
pub enum RelayMessageView {
    Event(MatchedEventView),
    Closed { subscription_id: Seq<char> },
    Other,
}

impl View for RelayMessage {
    type V = RelayMessageView;

    open spec fn view(&self) -> RelayMessageView {
        match self {
            RelayMessage::Event(event) => RelayMessageView::Event(event@),
            RelayMessage::Closed { subscription_id, .. } => RelayMessageView::Closed {
                subscription_id: subscription_id@,
            },
            RelayMessage::Other => RelayMessageView::Other,
        }
    }
}

/// What the connection is waiting for.
pub enum ConnectionStage {
    /// The desired subscriptions.
    Loading,
    /// That a frame is sent. While ids are stale, the last of them is being
    /// closed; after that, the desired subscription at `next` is being opened.
    Reconciling { desired: Vec<Subscription>, stale: Vec<String>, next: usize },
    /// A change of the desired set, a message, or the end.
    Waiting,
    /// That an event is delivered.
    Delivering,
    /// That the socket is closed.
    Disconnecting,
    /// Nothing more.
    Ended,
}

pub enum ConnectionStageView {
    Loading,
    Reconciling { desired: Seq<SubscriptionView>, stale: Seq<Seq<char>>, next: int },
    Waiting,
    Delivering,
    Disconnecting,
    Ended,
}

impl View for ConnectionStage {
    type V = ConnectionStageView;

    open spec fn view(&self) -> ConnectionStageView {
        match self {
            ConnectionStage::Loading => ConnectionStageView::Loading,
            ConnectionStage::Reconciling { desired, stale, next } =>
                ConnectionStageView::Reconciling {
                desired: views(desired@),
                stale: views(stale@),
                next: *next as int,
            },
            ConnectionStage::Waiting => ConnectionStageView::Waiting,
            ConnectionStage::Delivering => ConnectionStageView::Delivering,
            ConnectionStage::Disconnecting => ConnectionStageView::Disconnecting,
            ConnectionStage::Ended => ConnectionStageView::Ended,
        }
    }
}

/// What can happen to the connection.
pub enum ConnectionEvent {
    /// The desired subscriptions, as they are now.
    Loaded(Vec<Subscription>),
    /// Whether the frame could be sent.
    Sent { sent: bool },
    /// The desired subscriptions have changed.
    Woken,
    /// The session is cancelled.
    Cancelled,
    /// A message was read, or none was.
    Read(Result<RelayMessage, ReadError>),
    /// Whether somebody took the event.
    Delivered { taken: bool },
    /// The socket is closed.
    Disconnected,
}

pub enum ConnectionEventView {
    Loaded(Seq<SubscriptionView>),
    Sent { sent: bool },
    Woken,
    Cancelled,
    Read(Result<RelayMessageView, ReadError>),
    Delivered { taken: bool },
    Disconnected,
}

impl View for ConnectionEvent {
    type V = ConnectionEventView;

    open spec fn view(&self) -> ConnectionEventView {
        match self {
            ConnectionEvent::Loaded(desired) => ConnectionEventView::Loaded(views(desired@)),
            ConnectionEvent::Sent { sent } => ConnectionEventView::Sent { sent: *sent },
            ConnectionEvent::Woken => ConnectionEventView::Woken,
            ConnectionEvent::Cancelled => ConnectionEventView::Cancelled,
            ConnectionEvent::Read(Ok(message)) => ConnectionEventView::Read(Ok(message@)),
            ConnectionEvent::Read(Err(error)) => ConnectionEventView::Read(Err(*error)),
            ConnectionEvent::Delivered { taken } => ConnectionEventView::Delivered {
                taken: *taken,
            },
            ConnectionEvent::Disconnected => ConnectionEventView::Disconnected,
        }
    }
}

/// What is to be done next.
pub enum ConnectionAction {
    /// Look up the desired subscriptions.
    Load,
    /// Send this frame to the relay.
    Send(Json),
    /// Wait for whatever comes first.
    Wait,
    /// Hand this event to the session's owner.
    Deliver(MatchedEvent),
    /// Close the socket.
    Disconnect,
    /// Leave the connection.
    End,
}

pub enum ConnectionActionView {
    Load,
    Send(JsonView),
    Wait,
    Deliver(MatchedEventView),
    Disconnect,
    End,
}

impl View for ConnectionAction {
    type V = ConnectionActionView;

    open spec fn view(&self) -> ConnectionActionView {
        match self {
            ConnectionAction::Load => ConnectionActionView::Load,
            ConnectionAction::Send(frame) => ConnectionActionView::Send(frame@),
            ConnectionAction::Wait => ConnectionActionView::Wait,
            ConnectionAction::Deliver(event) => ConnectionActionView::Deliver(event@),
            ConnectionAction::Disconnect => ConnectionActionView::Disconnect,
            ConnectionAction::End => ConnectionActionView::End,
        }
    }
}

/// One connected socket.
pub struct Connection {
    /// The filter of each subscription that is open on this socket, by id.
    pub open: Table<Json>,
    pub stage: ConnectionStage,
}

pub struct ConnectionView {
    pub open: Map<Seq<char>, JsonView>,
    pub stage: ConnectionStageView,
}

impl View for Connection {
    type V = ConnectionView;

    open spec fn view(&self) -> ConnectionView {
        ConnectionView { open: self.open@, stage: self.stage@ }
    }
}

/// The frame that closes a subscription.
pub open spec fn close_frame(id: Seq<char>) -> JsonView {
    JsonView::List(seq![JsonView::Text("CLOSE"@), JsonView::Text(id)])
}

/// The frame that opens a subscription, or replaces the one under its id.
pub open spec fn request_frame(subscription: SubscriptionView) -> JsonView {
    JsonView::List(
        seq![
            JsonView::Text("REQ"@),
            JsonView::Text(subscription.id),
            subscription.filter,
        ],
    )
}

/// Whether some desired subscription has this id.
pub open spec fn is_desired(desired: Seq<SubscriptionView>, id: Seq<char>) -> bool {
    exists|i: int| 0 <= i < desired.len() && (#[trigger] desired[i]).id == id
}

/// Whether `stale` lists, each once, the open ids that are not desired.
pub open spec fn lists_stale(
    open: Map<Seq<char>, JsonView>,
    desired: Seq<SubscriptionView>,
    stale: Seq<Seq<char>>,
) -> bool {
    &&& stale.no_duplicates()
    &&& forall|id: Seq<char>| #[trigger]
        stale.contains(id) <==> open.contains_key(id) && !is_desired(desired, id)
}

/// Whether the subscription is open with this very filter. One that is open
/// under its id with another filter is not: requesting it again is the update.
pub open spec fn in_line(
    open: Map<Seq<char>, JsonView>,
    subscription: SubscriptionView,
) -> bool {
    open.contains_key(subscription.id) && open[subscription.id] == subscription.filter
}

/// Where reconciling stands with these stale ids left, and with the desired
/// subscriptions below `next` dealt with: the next frame, or waiting.
pub open spec fn reconciling(
    open: Map<Seq<char>, JsonView>,
    desired: Seq<SubscriptionView>,
    stale: Seq<Seq<char>>,
    next: int,
) -> (ConnectionView, ConnectionActionView)
    decreases desired.len() - next,
{
    let stage = ConnectionStageView::Reconciling { desired, stale, next };
    if stale.len() > 0 {
        (ConnectionView { open, stage }, ConnectionActionView::Send(close_frame(stale.last())))
    } else if next >= desired.len() {
        (
            ConnectionView { open, stage: ConnectionStageView::Waiting },
            ConnectionActionView::Wait,
        )
    } else if in_line(open, desired[next]) {
        reconciling(open, desired, stale, next + 1)
    } else {
        (
            ConnectionView { open, stage },
            ConnectionActionView::Send(request_frame(desired[next])),
        )
    }
}

impl ConnectionView {
    /// Whether, while reconciling, a frame is under way: stale ids are open
    /// ones that nobody desires, they go first, and what is requested is not
    /// in line yet.
    pub open spec fn well_formed(self) -> bool {
        match self.stage {
            ConnectionStageView::Reconciling { desired, stale, next } => {
                &&& 0 <= next <= desired.len()
                &&& stale.no_duplicates()
                &&& forall|i: int|
                    0 <= i < stale.len() ==> self.open.contains_key(#[trigger] stale[i])
                        && !is_desired(desired, stale[i])
                &&& stale.len() > 0 ==> next == 0
                &&& stale.len() == 0 ==> next < desired.len() && !in_line(
                    self.open,
                    desired[next],
                )
            },
            _ => true,
        }
    }

    /// Whether the event is one that the connection is waiting for.
    pub open spec fn accepts(self, event: ConnectionEventView) -> bool {
        match event {
            ConnectionEventView::Loaded(_) => self.stage is Loading,
            ConnectionEventView::Sent { .. } => match self.stage {
                ConnectionStageView::Reconciling { desired, stale, next } => stale.len() > 0
                    || next < desired.len(),
                _ => false,
            },
            ConnectionEventView::Woken => self.stage is Waiting,
            ConnectionEventView::Cancelled => self.stage is Waiting,
            ConnectionEventView::Read(_) => self.stage is Waiting,
            ConnectionEventView::Delivered { .. } => self.stage is Delivering,
            ConnectionEventView::Disconnected => self.stage is Disconnecting,
        }
    }

    /// The connection at another stage.
    pub open spec fn at(self, stage: ConnectionStageView) -> ConnectionView {
        ConnectionView { stage, ..self }
    }

    /// What follows once a frame is sent.
    pub open spec fn frame_sent(self) -> (ConnectionView, ConnectionActionView) {
        match self.stage {
            ConnectionStageView::Reconciling { desired, stale, next } => if stale.len() > 0 {
                reconciling(self.open.remove(stale.last()), desired, stale.drop_last(), next)
            } else {
                reconciling(
                    self.open.insert(desired[next].id, desired[next].filter),
                    desired,
                    stale,
                    next + 1,
                )
            },
            _ => (self, ConnectionActionView::Wait),
        }
    }

    /// What follows on a message, or on there being none.
    pub open spec fn after_read(
        self,
        read: Result<RelayMessageView, ReadError>,
    ) -> (ConnectionView, ConnectionActionView) {
        match read {
            Ok(RelayMessageView::Event(event)) => if self.open.contains_key(
                event.subscription_id,
            ) {
                (
                    self.at(ConnectionStageView::Delivering),
                    ConnectionActionView::Deliver(event),
                )
            } else {
                (self, ConnectionActionView::Wait)
            },
            Ok(RelayMessageView::Closed { subscription_id }) => (
                ConnectionView { open: self.open.remove(subscription_id), ..self },
                ConnectionActionView::Wait,
            ),
            Ok(RelayMessageView::Other) => (self, ConnectionActionView::Wait),
            Err(ReadError::Timeout) => (self, ConnectionActionView::Wait),
            Err(ReadError::Failed) => (
                self.at(ConnectionStageView::Ended),
                ConnectionActionView::End,
            ),
        }
    }
}

/// Whether reconciling may begin like this, with the stale ids in some order.
pub open spec fn begins_reconciling(
    open: Map<Seq<char>, JsonView>,
    desired: Seq<SubscriptionView>,
    begun: (ConnectionView, ConnectionActionView),
) -> bool {
    exists|stale: Seq<Seq<char>>| #[trigger]
        lists_stale(open, desired, stale) && begun == reconciling(open, desired, stale, 0)
}

/// Whether this state and this action may follow on an event. They are
/// determined but for the order in which stale subscriptions are closed.
pub open spec fn connection_next(
    state: ConnectionView,
    event: ConnectionEventView,
    next: (ConnectionView, ConnectionActionView),
) -> bool {
    match event {
        ConnectionEventView::Loaded(desired) => begins_reconciling(state.open, desired, next),
        ConnectionEventView::Sent { sent: true } => next == state.frame_sent(),
        ConnectionEventView::Sent { sent: false } => next == (
            state.at(ConnectionStageView::Ended),
            ConnectionActionView::End,
        ),
        ConnectionEventView::Woken => next == (
            state.at(ConnectionStageView::Loading),
            ConnectionActionView::Load,
        ),
        ConnectionEventView::Cancelled => next == (
            state.at(ConnectionStageView::Disconnecting),
            ConnectionActionView::Disconnect,
        ),
        ConnectionEventView::Read(read) => next == state.after_read(read),
        ConnectionEventView::Delivered { taken: true } => next == (
            state.at(ConnectionStageView::Waiting),
            ConnectionActionView::Wait,
        ),
        ConnectionEventView::Delivered { taken: false } => next == (
            state.at(ConnectionStageView::Disconnecting),
            ConnectionActionView::Disconnect,
        ),
        ConnectionEventView::Disconnected => next == (
            state.at(ConnectionStageView::Ended),
            ConnectionActionView::End,
        ),
    }
}

/// Reconciling reaches a frame that is due, or waits.
proof fn lemma_reconciling_well_formed(
    open: Map<Seq<char>, JsonView>,
    desired: Seq<SubscriptionView>,
    stale: Seq<Seq<char>>,
    next: int,
)
    requires
        0 <= next <= desired.len(),
        stale.no_duplicates(),
        forall|i: int|
            0 <= i < stale.len() ==> open.contains_key(#[trigger] stale[i]) && !is_desired(
                desired,
                stale[i],
            ),
        stale.len() > 0 ==> next == 0,
    ensures
        reconciling(open, desired, stale, next).0.well_formed(),
    decreases desired.len() - next,
{
    if stale.len() == 0 && next < desired.len() && in_line(open, desired[next]) {
        lemma_reconciling_well_formed(open, desired, stale, next + 1);
    }
}

/// Whatever follows on an event is well formed again.
pub proof fn lemma_steps_keep_well_formed(state: ConnectionView, event: ConnectionEventView)
    requires
        state.well_formed(),
        state.accepts(event),
    ensures
        forall|next: (ConnectionView, ConnectionActionView)| #[trigger]
            connection_next(state, event, next) ==> next.0.well_formed(),
{
    assert forall|next: (ConnectionView, ConnectionActionView)| #[trigger]
        connection_next(state, event, next) implies next.0.well_formed() by {
        match event {
            ConnectionEventView::Loaded(desired) => {
                assert(begins_reconciling(state.open, desired, next));
                let stale = choose|stale: Seq<Seq<char>>| #[trigger]
                    lists_stale(state.open, desired, stale) && next == reconciling(
                        state.open,
                        desired,
                        stale,
                        0,
                    );
                assert forall|i: int| 0 <= i < stale.len() implies state.open.contains_key(
                    #[trigger] stale[i],
                ) && !is_desired(desired, stale[i]) by {
                    assert(stale.contains(stale[i]));
                }
                lemma_reconciling_well_formed(state.open, desired, stale, 0);
            },
            ConnectionEventView::Sent { sent: true } => {
                let desired = state.stage->desired;
                let stale = state.stage->stale;
                let at = state.stage->next;
                if stale.len() > 0 {
                    lemma_reconciling_well_formed(
                        state.open.remove(stale.last()),
                        desired,
                        stale.drop_last(),
                        at,
                    );
                } else {
                    lemma_reconciling_well_formed(
                        state.open.insert(desired[at].id, desired[at].filter),
                        desired,
                        stale,
                        at + 1,
                    );
                }
            },
            _ => {},
        }
    }
}

/// A connection on a fresh socket: nothing is open on it.
pub open spec fn connection_start() -> ConnectionView {
    ConnectionView { open: Map::empty(), stage: ConnectionStageView::Loading }
}

/// Writes the frame that closes a subscription.
pub fn close_frame_of(id: &String) -> (frame: Json)
    ensures
        frame@ == close_frame(id@),
        frame is List,
        frame->List_0@.len() == 2,
        frame->List_0@[0]@ == JsonView::Text("CLOSE"@),
        frame->List_0@[1]@ == JsonView::Text(id@),
{
    let mut items: Vec<Json> = Vec::new();
    let verb = Json::Text("CLOSE".to_owned());
    assert(verb@ == JsonView::Text("CLOSE"@));
    items.push(verb);
    let target = Json::Text(id.clone());
    assert(target@ == JsonView::Text(id@));
    items.push(target);
    let frame = Json::List(items);
    assert(frame@->List_0 =~= close_frame(id@)->List_0);
    frame
}

/// Writes the frame that opens a subscription.
pub fn request_frame_of(subscription: &Subscription) -> (frame: Json)
    ensures
        frame@ == request_frame(subscription@),
        frame is List,
        frame->List_0@.len() == 3,
        frame->List_0@[0]@ == JsonView::Text("REQ"@),
        frame->List_0@[1]@ == JsonView::Text(subscription.id@),
        frame->List_0@[2]@ == subscription.filter@,
{
    let mut items: Vec<Json> = Vec::new();
    let verb = Json::Text("REQ".to_owned());
    assert(verb@ == JsonView::Text("REQ"@));
    items.push(verb);
    let target = Json::Text(subscription.id.clone());
    assert(target@ == JsonView::Text(subscription.id@));
    items.push(target);
    let filter = subscription.filter.clone();
    items.push(filter);
    let frame = Json::List(items);
    assert(frame@->List_0 =~= request_frame(subscription@)->List_0);
    frame
}

fn desires(desired: &Vec<Subscription>, id: &String) -> (found: bool)
    ensures
        found == is_desired(views(desired@), id@),
{
    let mut i: usize = 0;
    while i < desired.len()
        invariant
            i <= desired.len(),
            forall|j: int| 0 <= j < i ==> (#[trigger] views(desired@)[j]).id != id@,
        decreases desired.len() - i,
    {
        assert(views(desired@)[i as int] == desired@[i as int]@);
        if desired[i].id == *id {
            return true;
        }
        i = i + 1;
    }
    false
}

/// Lists the open ids that are not desired.
pub fn stale_ids(open: &Table<Json>, desired: &Vec<Subscription>) -> (stale: Vec<String>)
    ensures
        lists_stale(open@, views(desired@), views(stale@)),
{
    let ids = open.ids();
    let mut stale: Vec<String> = Vec::new();
    let mut i: usize = 0;
    while i < ids.len()
        invariant
            i <= ids.len(),
            forall|x: int, y: int|
                0 <= x < y < ids.len() ==> (#[trigger] ids[x])@ != (#[trigger] ids[y])@,
            forall|x: int, y: int|
                0 <= x < y < stale.len() ==> (#[trigger] stale[x])@ != (#[trigger] stale[y])@,
            forall|x: int|
                0 <= x < stale.len() ==> !is_desired(views(desired@), (#[trigger] stale[x])@)
                    && exists|y: int| 0 <= y < i && (#[trigger] ids[y])@ == stale[x]@,
            forall|y: int|
                0 <= y < i && !is_desired(views(desired@), (#[trigger] ids[y])@) ==> exists|x: int|
                    0 <= x < stale.len() && (#[trigger] stale[x])@ == ids[y]@,
        decreases ids.len() - i,
    {
        let ghost before = stale@;
        if !desires(desired, &ids[i]) {
            stale.push(ids[i].clone());
            proof {
                let last = before.len() as int;
                assert(stale[last]@ == ids[i as int]@);
                assert forall|x: int, y: int| 0 <= x < y < stale.len() implies (
                #[trigger] stale[x])@ != (#[trigger] stale[y])@ by {
                    assert(stale[x] == before[x]);
                    if y < last {
                        assert(stale[y] == before[y]);
                    } else {
                        let z = choose|z: int| 0 <= z < i && (#[trigger] ids[z])@ == before[x]@;
                        assert(ids[z]@ != ids[i as int]@);
                    }
                }
            }
        }
        proof {
            assert forall|x: int| 0 <= x < stale.len() implies !is_desired(
                views(desired@),
                (#[trigger] stale[x])@,
            ) && exists|y: int| 0 <= y < i + 1 && (#[trigger] ids[y])@ == stale[x]@ by {
                if x < before.len() {
                    assert(stale[x] == before[x]);
                    let y = choose|y: int| 0 <= y < i && (#[trigger] ids[y])@ == before[x]@;
                    assert(ids[y]@ == stale[x]@);
                } else {
                    assert(ids[i as int]@ == stale[x]@);
                }
            }
            assert forall|y: int|
                0 <= y < i + 1 && !is_desired(
                    views(desired@),
                    (#[trigger] ids[y])@,
                ) implies exists|x: int|
                0 <= x < stale.len() && (#[trigger] stale[x])@ == ids[y]@ by {
                if y < i {
                    let x = choose|x: int|
                        0 <= x < before.len() && (#[trigger] before[x])@ == ids[y]@;
                    assert(stale[x] == before[x]);
                } else {
                    assert(stale[before.len() as int]@ == ids[y]@);
                }
            }
        }
        i = i + 1;
    }
    proof {
        let listed = views(stale@);
        assert forall|x: int, y: int|
            0 <= x < listed.len() && 0 <= y < listed.len() && x != y implies listed[x]
            != listed[y] by {
            assert(listed[x] == stale[x]@);
            assert(listed[y] == stale[y]@);
            if x < y {
                assert(stale[x]@ != stale[y]@);
            } else {
                assert(stale[y]@ != stale[x]@);
            }
        }
        assert forall|id: Seq<char>| #[trigger]
            listed.contains(id) <==> open@.contains_key(id) && !is_desired(views(desired@), id) by {
            if listed.contains(id) {
                let x = choose|x: int| 0 <= x < listed.len() && listed[x] == id;
                assert(stale[x]@ == id);
                let y = choose|y: int| 0 <= y < ids.len() && (#[trigger] ids[y])@ == stale[x]@;
                assert(open@.contains_key(ids[y]@));
            }
            if open@.contains_key(id) && !is_desired(views(desired@), id) {
                let y = choose|y: int| 0 <= y < ids.len() && (#[trigger] ids[y])@ == id;
                let x = choose|x: int| 0 <= x < stale.len() && (#[trigger] stale[x])@ == ids[y]@;
                assert(listed[x] == id);
            }
        }
    }
    stale
}

fn is_in_line(open: &Table<Json>, subscription: &Subscription) -> (same: bool)
    ensures
        same == in_line(open@, subscription@),
{
    match open.get(&subscription.id) {
        Some(filter) => filter.same_as(&subscription.filter),
        None => false,
    }
}

/// Goes on reconciling: to the next frame, or to waiting where there is none.
fn reconcile(
    open: Table<Json>,
    desired: Vec<Subscription>,
    stale: Vec<String>,
    next: usize,
) -> (reached: (Connection, ConnectionAction))
    ensures
        (reached.0@, reached.1@) == reconciling(open@, views(desired@), views(stale@), next as int),
{
    if stale.len() > 0 {
        let frame = close_frame_of(&stale[stale.len() - 1]);
        assert(views(stale@).last() == stale@.last()@);
        return (
            Connection { open, stage: ConnectionStage::Reconciling { desired, stale, next } },
            ConnectionAction::Send(frame),
        );
    }
    let mut at: usize = next;
    while at < desired.len() && is_in_line(&open, &desired[at])
        invariant
            stale.len() == 0,
            reconciling(open@, views(desired@), views(stale@), next as int) == reconciling(
                open@,
                views(desired@),
                views(stale@),
                at as int,
            ),
        decreases desired.len() - at,
    {
        assert(views(desired@)[at as int] == desired@[at as int]@);
        at = at + 1;
    }
    if at < desired.len() {
        let frame = request_frame_of(&desired[at]);
        assert(views(desired@)[at as int] == desired@[at as int]@);
        (
            Connection { open, stage: ConnectionStage::Reconciling { desired, stale, next: at } },
            ConnectionAction::Send(frame),
        )
    } else {
        (Connection { open, stage: ConnectionStage::Waiting }, ConnectionAction::Wait)
    }
}

impl Connection {
    /// A connection on a fresh socket, and its first action: to look up the
    /// desired subscriptions.
    pub fn start() -> (started: (Connection, ConnectionAction))
        ensures
            started.0@ == connection_start(),
            started.0.open@ == Map::<Seq<char>, JsonView>::empty(),
            started.0.stage is Loading,
            started.0@.well_formed(),
            started.1@ == ConnectionActionView::Load,
    {
        (
            Connection { open: Table::new(), stage: ConnectionStage::Loading },
            ConnectionAction::Load,
        )
    }

    /// Whether the event is one that the connection is waiting for.
    pub fn accepts(&self, event: &ConnectionEvent) -> (accepted: bool)
        ensures
            accepted == self@.accepts(event@),
    {
        match (event, &self.stage) {
            (ConnectionEvent::Loaded(_), ConnectionStage::Loading) => true,
            (
                ConnectionEvent::Sent { .. },
                ConnectionStage::Reconciling { desired, stale, next },
            ) => stale.len() > 0 || *next < desired.len(),
            (ConnectionEvent::Woken, ConnectionStage::Waiting) => true,
            (ConnectionEvent::Cancelled, ConnectionStage::Waiting) => true,
            (ConnectionEvent::Read(_), ConnectionStage::Waiting) => true,
            (ConnectionEvent::Delivered { .. }, ConnectionStage::Delivering) => true,
            (ConnectionEvent::Disconnected, ConnectionStage::Disconnecting) => true,
            _ => false,
        }
    }

    fn at(self, stage: ConnectionStage) -> (moved: Connection)
        ensures
            moved@ == self@.at(stage@),
    {
        Connection { open: self.open, stage }
    }

    fn frame_sent(self) -> (next: (Connection, ConnectionAction))
        requires
            self@.accepts(ConnectionEventView::Sent { sent: true }),
        ensures
            (next.0@, next.1@) == self@.frame_sent(),
    {
        let mut open = self.open;
        match self.stage {
            ConnectionStage::Reconciling { desired, stale, next } => {
                let mut stale = stale;
                let ghost left = stale@;
                assert(views(left).len() == left.len());
                assert(views(desired@).len() == desired.len());
                match stale.pop() {
                    Some(id) => {
                        open.remove(&id);
                        assert(views(left).last() == id@);
                        assert(views(left).drop_last() =~= views(stale@));
                        reconcile(open, desired, stale, next)
                    },
                    None => {
                        let opened = &desired[next];
                        assert(views(desired@)[next as int] == opened@);
                        open.insert(opened.id.clone(), opened.filter.clone());
                        reconcile(open, desired, stale, next + 1)
                    },
                }
            },
            _ => unreached(),
        }
    }

    fn after_read(self, read: Result<RelayMessage, ReadError>) -> (next: (
        Connection,
        ConnectionAction,
    ))
        requires
            self@.stage is Waiting,
        ensures
            (next.0@, next.1@) == self@.after_read(
                match read {
                    Ok(message) => Ok(message@),
                    Err(error) => Err(error),
                },
            ),
    {
        match read {
            Ok(RelayMessage::Event(event)) => {
                if self.open.contains_key(&event.subscription_id) {
                    (
                        self.at(ConnectionStage::Delivering),
                        ConnectionAction::Deliver(event),
                    )
                } else {
                    (self, ConnectionAction::Wait)
                }
            },
            Ok(RelayMessage::Closed { subscription_id, message: _ }) => {
                let mut open = self.open;
                open.remove(&subscription_id);
                (Connection { open, stage: self.stage }, ConnectionAction::Wait)
            },
            Ok(RelayMessage::Other) => (self, ConnectionAction::Wait),
            Err(error) => {
                if is_read_timeout(&error) {
                    (self, ConnectionAction::Wait)
                } else {
                    (self.at(ConnectionStage::Ended), ConnectionAction::End)
                }
            },
        }
    }

    /// Moves on an event that the connection is waiting for.
    ///
    /// - Once the desired subscriptions are known, open ones that are not
    ///   desired are closed, and desired ones that are not open with the same
    ///   filter are requested. Each is written down as soon as its frame is
    ///   sent; a frame that cannot be sent ends the connection.
    /// - Only events of open subscriptions are delivered: events that were on
    ///   their way when a subscription was closed are not.
    /// - A subscription that the relay closes is forgotten, so that the next
    ///   reconciling opens it again.
    pub fn step(self, event: ConnectionEvent) -> (next: (Connection, ConnectionAction))
        requires
            self@.accepts(event@),
        ensures
            connection_next(self@, event@, (next.0@, next.1@)),
            self@.well_formed() ==> next.0@.well_formed(),
    {
        let ghost before = self@;
        let ghost happened = event@;
        let next = self.follow(event);
        proof {
            if before.well_formed() {
                lemma_steps_keep_well_formed(before, happened);
                assert(connection_next(before, happened, (next.0@, next.1@)));
            }
        }
        next
    }

    fn follow(self, event: ConnectionEvent) -> (next: (Connection, ConnectionAction))
        requires
            self@.accepts(event@),
        ensures
            connection_next(self@, event@, (next.0@, next.1@)),
    {
        match event {
            ConnectionEvent::Loaded(desired) => {
                let stale = stale_ids(&self.open, &desired);
                let ghost listed = views(stale@);
                let ghost wanted = views(desired@);
                let reached = reconcile(self.open, desired, stale, 0);
                assert(lists_stale(self@.open, wanted, listed));
                assert(begins_reconciling(self@.open, wanted, (reached.0@, reached.1@)));
                reached
            },
            ConnectionEvent::Sent { sent } => {
                if sent {
                    self.frame_sent()
                } else {
                    (self.at(ConnectionStage::Ended), ConnectionAction::End)
                }
            },
            ConnectionEvent::Woken => (
                self.at(ConnectionStage::Loading),
                ConnectionAction::Load,
            ),
            ConnectionEvent::Cancelled => (
                self.at(ConnectionStage::Disconnecting),
                ConnectionAction::Disconnect,
            ),
            ConnectionEvent::Read(read) => self.after_read(read),
            ConnectionEvent::Delivered { taken } => {
                if taken {
                    (self.at(ConnectionStage::Waiting), ConnectionAction::Wait)
                } else {
                    (
                        self.at(ConnectionStage::Disconnecting),
                        ConnectionAction::Disconnect,
                    )
                }
            },
            ConnectionEvent::Disconnected => (
                self.at(ConnectionStage::Ended),
                ConnectionAction::End,
            ),
        }
    }
}

} // verus!
