//! Starting and stopping archive sync: at most one sync task at a time, bound
//! to an identity and a relay.

use vstd::prelude::*;

verus! {

/// The running sync task.
#[derive(Debug)]
pub struct RunningSync<H> {
    /// Identity and relay that the task is bound to. To start it again for the
    /// same ones is a no-op, so that a caller who starts over does not churn
    /// the socket.
    pub scope: (String, String),
    /// By which the task is cancelled and woken.
    pub handle: H,
}

/// What is known of the sync task.
#[derive(Debug)]
pub struct ArchiveSyncState<H> {
    pub running: Option<RunningSync<H>>,
}

pub struct RunningView<H> {
    pub identity: Seq<char>,
    pub relay_url: Seq<char>,
    pub handle: H,
}

impl<H> View for ArchiveSyncState<H> {
    type V = Option<RunningView<H>>;

    open spec fn view(&self) -> Option<RunningView<H>> {
        match self.running {
            Some(running) => Some(
                RunningView {
                    identity: running.scope.0@,
                    relay_url: running.scope.1@,
                    handle: running.handle,
                },
            ),
            None => None,
        }
    }
}

/// What a request to start comes to.
#[derive(Debug)]
pub enum Start<H> {
    /// The task runs already for this identity and this relay.
    AlreadyRunning,
    /// Launch the task, and cancel the one that it replaces, if there is one.
    Launch { replaced: Option<H> },
}

/// Whether a task runs for this identity and this relay.
pub open spec fn runs_for<H>(
    running: Option<RunningView<H>>,
    identity: Seq<char>,
    relay_url: Seq<char>,
) -> bool {
    running is Some && running->0.identity == identity && running->0.relay_url == relay_url
}

/// The handle of the task, if one runs.
pub open spec fn handle_of<H>(running: Option<RunningView<H>>) -> Option<H> {
    match running {
        Some(running) => Some(running.handle),
        None => None,
    }
}

/// What runs after a request to start, and what the request comes to.
pub open spec fn start_next<H>(
    running: Option<RunningView<H>>,
    identity: Seq<char>,
    relay_url: Seq<char>,
    handle: H,
) -> (Option<RunningView<H>>, Start<H>) {
    if runs_for(running, identity, relay_url) {
        (running, Start::AlreadyRunning)
    } else {
        (
            Some(RunningView { identity, relay_url, handle }),
            Start::Launch { replaced: handle_of(running) },
        )
    }
}

impl<H> Default for ArchiveSyncState<H> {
    fn default() -> (state: ArchiveSyncState<H>)
        ensures
            state@ is None,
            state.running is None,
    {
        ArchiveSyncState { running: None }
    }
}

impl<H> ArchiveSyncState<H> {
    /// The handle of the task to wake when saved subscriptions have changed;
    /// none where none runs.
    pub fn notify_subscriptions_changed(&self) -> (woken: Option<&H>)
        ensures
            match woken {
                Some(handle) => handle_of(self@) == Some(*handle),
                None => self@ is None,
            },
            woken is Some <==> self.running is Some,
            woken is Some ==> *woken->0 == self.running->0.handle,
    {
        match &self.running {
            Some(running) => Some(&running.handle),
            None => None,
        }
    }

    /// Forgets the task and hands out its handle, to be cancelled.
    pub fn stop(&mut self) -> (cancelled: Option<H>)
        ensures
            cancelled == handle_of(old(self)@),
            cancelled is Some <==> old(self).running is Some,
            cancelled is Some ==> cancelled->0 == old(self).running->0.handle,
            final(self)@ is None,
            final(self).running is None,
    {
        match self.running.take() {
            Some(running) => Some(running.handle),
            None => None,
        }
    }
}

/// Decides on a request to start archive sync for an identity and a relay.
///
/// Where the identity is not to be had, that error is the answer and nothing
/// changes. `handle` belongs to the task that is to be launched.
pub fn start_archive_sync<H>(
    sync_state: &mut ArchiveSyncState<H>,
    identity: Result<String, String>,
    relay_url: String,
    handle: H,
) -> (outcome: Result<Start<H>, String>)
    ensures
        match identity {
            Ok(pubkey) => outcome is Ok && (final(sync_state)@, outcome->Ok_0) == start_next(
                old(sync_state)@,
                pubkey@,
                relay_url@,
                handle,
            ),
            Err(error) => outcome == Err::<Start<H>, String>(error) && *final(sync_state) == *old(
                sync_state,
            ),
        },
        identity is Ok && old(sync_state).running is Some && old(sync_state).running->0.scope.0@
            == identity->Ok_0@ && old(sync_state).running->0.scope.1@ == relay_url@ ==> outcome is Ok
            && outcome->Ok_0 is AlreadyRunning && *final(sync_state) == *old(sync_state),
        identity is Ok && !(old(sync_state).running is Some
            && old(sync_state).running->0.scope.0@ == identity->Ok_0@
            && old(sync_state).running->0.scope.1@ == relay_url@) ==> {
            &&& outcome is Ok
            &&& outcome->Ok_0 is Launch
            &&& outcome->Ok_0->replaced is Some <==> old(sync_state).running is Some
            &&& outcome->Ok_0->replaced is Some ==> outcome->Ok_0->replaced->0 == old(
                sync_state,
            ).running->0.handle
            &&& final(sync_state).running is Some
            &&& final(sync_state).running->0.scope.0@ == identity->Ok_0@
            &&& final(sync_state).running->0.scope.1@ == relay_url@
            &&& final(sync_state).running->0.handle == handle
        },
{
    let pubkey = match identity {
        Ok(pubkey) => pubkey,
        Err(error) => {
            return Err(error);
        },
    };
    if let Some(current) = &sync_state.running {
        if current.scope.0 == pubkey && current.scope.1 == relay_url {
            return Ok(Start::AlreadyRunning);
        }
    }
    let replaced = sync_state.stop();
    sync_state.running = Some(RunningSync { scope: (pubkey, relay_url), handle });
    Ok(Start::Launch { replaced })
}

/// Stops archive sync: hands out the handle of the running task, if there is
/// one, to be cancelled.
pub fn stop_archive_sync<H>(sync_state: &mut ArchiveSyncState<H>) -> (cancelled: Option<H>)
    ensures
        cancelled == handle_of(old(sync_state)@),
        cancelled is Some <==> old(sync_state).running is Some,
        cancelled is Some ==> cancelled->0 == old(sync_state).running->0.handle,
        final(sync_state)@ is None,
        final(sync_state).running is None,
{
    sync_state.stop()
}

/// A request to start or to stop.
pub enum Request<H> {
    Start { identity: Seq<char>, relay_url: Seq<char>, handle: H },
    Stop,
}

/// What runs after these requests, from nothing on.
pub open spec fn running_after<H>(requests: Seq<Request<H>>) -> Option<RunningView<H>>
    decreases requests.len(),
{
    if requests.len() == 0 {
        None
    } else {
        let before = running_after(requests.drop_last());
        match requests.last() {
            Request::Start { identity, relay_url, handle } => start_next(
                before,
                identity,
                relay_url,
                handle,
            ).0,
            Request::Stop => None,
        }
    }
}

/// The handles of the tasks that the requests launched, in order.
pub open spec fn launched<H>(requests: Seq<Request<H>>) -> Seq<H>
    decreases requests.len(),
{
    if requests.len() == 0 {
        seq![]
    } else {
        let before = running_after(requests.drop_last());
        match requests.last() {
            Request::Start { identity, relay_url, handle } => match start_next(
                before,
                identity,
                relay_url,
                handle,
            ).1 {
                Start::Launch { .. } => launched(requests.drop_last()).push(handle),
                Start::AlreadyRunning => launched(requests.drop_last()),
            },
            Request::Stop => launched(requests.drop_last()),
        }
    }
}

/// The handles that the requests gave out to be cancelled, in order.
pub open spec fn cancelled<H>(requests: Seq<Request<H>>) -> Seq<H>
    decreases requests.len(),
{
    if requests.len() == 0 {
        seq![]
    } else {
        let before = running_after(requests.drop_last());
        let given_out = match requests.last() {
            Request::Start { identity, relay_url, handle } => match start_next(
                before,
                identity,
                relay_url,
                handle,
            ).1 {
                Start::Launch { replaced } => replaced,
                Start::AlreadyRunning => None,
            },
            Request::Stop => handle_of(before),
        };
        match given_out {
            Some(handle) => cancelled(requests.drop_last()).push(handle),
            None => cancelled(requests.drop_last()),
        }
    }
}

/// At most one task is alive: every task that was ever launched has been given
/// out for cancelling, once and in order, except the one that runs.
pub proof fn law_at_most_one_task_is_alive<H>(requests: Seq<Request<H>>)
    ensures
        launched(requests) == match running_after(requests) {
            Some(running) => cancelled(requests).push(running.handle),
            None => cancelled(requests),
        },
    decreases requests.len(),
{
    if requests.len() > 0 {
        law_at_most_one_task_is_alive(requests.drop_last());
    }
}

/// Starting is idempotent: once started for an identity and a relay, starting
/// for the same ones again changes nothing and launches nothing.
pub proof fn law_starting_twice_is_starting_once<H>(
    running: Option<RunningView<H>>,
    identity: Seq<char>,
    relay_url: Seq<char>,
    first: H,
    second: H,
)
    ensures
        ({
            let started = start_next(running, identity, relay_url, first).0;
            start_next(started, identity, relay_url, second) == (
                started,
                Start::<H>::AlreadyRunning,
            )
        }),
{
}

/// After a stop nothing runs, and any start behind it launches a task, for the
/// same identity and relay too.
pub proof fn law_start_after_stop_launches<H>(
    requests: Seq<Request<H>>,
    identity: Seq<char>,
    relay_url: Seq<char>,
    handle: H,
)
    ensures
        ({
            let stopped = requests.push(Request::Stop);
            let started = stopped.push(Request::Start { identity, relay_url, handle });
            &&& running_after(stopped) is None
            &&& cancelled(stopped) == launched(requests)
            &&& launched(started) == launched(requests).push(handle)
            &&& running_after(started) == Some(RunningView { identity, relay_url, handle })
        }),
{
    let stopped = requests.push(Request::Stop);
    let started = stopped.push(Request::Start { identity, relay_url, handle });
    assert(stopped.drop_last() =~= requests);
    assert(started.drop_last() =~= stopped);
    law_at_most_one_task_is_alive(stopped);
}

/// A task that runs is kept exactly when it runs for the very identity and the
/// very relay that are asked for. In any other case the new one runs, for
/// these, and the old one, if there was one, is given out to be cancelled.
pub proof fn law_start_is_bound_to_identity_and_relay<H>(
    running: Option<RunningView<H>>,
    identity: Seq<char>,
    relay_url: Seq<char>,
    handle: H,
)
    ensures
        ({
            let (after, outcome) = start_next(running, identity, relay_url, handle);
            &&& after is Some
            &&& after->0.identity == identity
            &&& after->0.relay_url == relay_url
            &&& outcome is AlreadyRunning <==> running is Some && running->0.identity == identity
                && running->0.relay_url == relay_url
            &&& outcome is AlreadyRunning ==> after == running
            &&& outcome is Launch ==> after->0.handle == handle
            &&& outcome is Launch && running is Some ==> outcome->replaced == Some(
                running->0.handle,
            )
            &&& outcome is Launch && running is None ==> outcome->replaced is None
        }),
{
}

} // verus!
