//! Batching: candidates wait until there are enough of them, or until the
//! oldest has waited long enough.

use vstd::prelude::*;

use crate::archive::{ArchiveCandidate, ArchiveCandidateView};
use crate::views::{lemma_views_push, views};

verus! {

/// A batch is flushed once it holds this many candidates.
pub const FLUSH_BATCH_SIZE: usize = 25;

/// The longest that a candidate waits before its batch is flushed, in
/// nanoseconds.
///
/// The time runs from the first candidate of the batch; later arrivals do not
/// extend it, and neither does a reload that is in progress.
pub const FLUSH_DEADLINE: u64 = 2_000_000_000;

/// Buffered candidates, and the deadline of the oldest one.
///
/// Times are nanoseconds from a start that the caller chooses.
#[derive(Debug)]
pub struct PendingBatch {
    pub candidates: Vec<ArchiveCandidate>,
    /// Set when the buffer stops being empty, cleared when it is taken. The
    /// deadline belongs to the oldest candidate, so that a steady trickle
    /// cannot put off its flush.
    pub deadline: Option<u64>,
}

pub struct BatchView {
    pub candidates: Seq<ArchiveCandidateView>,
    pub deadline: Option<u64>,
}

impl View for PendingBatch {
    type V = BatchView;

    open spec fn view(&self) -> BatchView {
        BatchView { candidates: views(self.candidates@), deadline: self.deadline }
    }
}

/// The batch that holds nothing.
pub open spec fn empty_batch() -> BatchView {
    BatchView { candidates: seq![], deadline: None }
}

impl BatchView {
    /// Whether there is a deadline exactly while candidates wait.
    pub open spec fn timed(self) -> bool {
        self.deadline is Some <==> self.candidates.len() > 0
    }

    /// The batch with one more candidate, which arrives at `now`.
    pub open spec fn with(self, candidate: ArchiveCandidateView, now: u64) -> BatchView {
        BatchView {
            candidates: self.candidates.push(candidate),
            deadline: if self.candidates.len() == 0 {
                Some((now + FLUSH_DEADLINE) as u64)
            } else {
                self.deadline
            },
        }
    }
}

/// Whether a deadline that starts at `now` can be told.
pub open spec fn deadline_fits(now: u64) -> bool {
    now + FLUSH_DEADLINE <= u64::MAX
}

impl Default for PendingBatch {
    fn default() -> (batch: PendingBatch)
        ensures
            batch@ == empty_batch(),
            batch@.timed(),
    {
        let batch = PendingBatch { candidates: Vec::new(), deadline: None };
        assert(batch@.candidates =~= seq![]);
        batch
    }
}

impl PendingBatch {
    /// Buffers a candidate that arrives at `now`.
    pub fn push(&mut self, candidate: ArchiveCandidate, now: u64)
        requires
            old(self)@.candidates.len() == 0 ==> deadline_fits(now),
        ensures
            final(self)@ == old(self)@.with(candidate@, now),
            final(self).candidates@ == old(self).candidates@.push(candidate),
            old(self).candidates@.len() == 0 ==> final(self).deadline == Some(
                (now + FLUSH_DEADLINE) as u64,
            ),
            old(self).candidates@.len() > 0 ==> final(self).deadline == old(self).deadline,
            old(self)@.timed() ==> final(self)@.timed(),
    {
        if self.candidates.is_empty() {
            self.deadline = Some(now + FLUSH_DEADLINE);
        }
        proof {
            lemma_views_push(self.candidates@, candidate);
        }
        self.candidates.push(candidate);
    }

    /// Whether the batch is due for its size.
    pub fn is_full(&self) -> (full: bool)
        ensures
            full == (self@.candidates.len() >= FLUSH_BATCH_SIZE),
            full == (self.candidates@.len() >= FLUSH_BATCH_SIZE),
    {
        self.candidates.len() >= FLUSH_BATCH_SIZE
    }

    /// Takes all buffered candidates out, and the deadline with them.
    pub fn take(&mut self) -> (candidates: Vec<ArchiveCandidate>)
        ensures
            views(candidates@) == old(self)@.candidates,
            candidates@ == old(self).candidates@,
            final(self)@ == empty_batch(),
            final(self).candidates@.len() == 0,
            final(self).deadline is None,
            final(self)@.timed(),
    {
        self.deadline = None;
        let mut candidates: Vec<ArchiveCandidate> = Vec::new();
        std::mem::swap(&mut candidates, &mut self.candidates);
        assert(self@.candidates =~= seq![]);
        candidates
    }
}

/// The batch after candidates arrived one by one, each at its time.
pub open spec fn after_arrivals(
    batch: BatchView,
    arrivals: Seq<(ArchiveCandidateView, u64)>,
) -> BatchView
    decreases arrivals.len(),
{
    if arrivals.len() == 0 {
        batch
    } else {
        after_arrivals(batch, arrivals.drop_last()).with(arrivals.last().0, arrivals.last().1)
    }
}

/// The deadline is the oldest candidate's: however many arrive behind it, and
/// whenever they do, it stays at the first arrival's time plus the wait.
pub proof fn law_deadline_is_the_oldest_candidates(arrivals: Seq<(ArchiveCandidateView, u64)>)
    requires
        arrivals.len() > 0,
        deadline_fits(arrivals[0].1),
    ensures
        after_arrivals(empty_batch(), arrivals).deadline == Some(
            (arrivals[0].1 + FLUSH_DEADLINE) as u64,
        ),
        after_arrivals(empty_batch(), arrivals).candidates == arrivals.map_values(
            |arrival: (ArchiveCandidateView, u64)| arrival.0,
        ),
    decreases arrivals.len(),
{
    let candidate = |arrival: (ArchiveCandidateView, u64)| arrival.0;
    let rest = arrivals.drop_last();
    if rest.len() > 0 {
        law_deadline_is_the_oldest_candidates(rest);
    } else {
        assert(after_arrivals(empty_batch(), rest) == empty_batch());
        assert(rest.map_values(candidate) =~= seq![]);
    }
    assert(arrivals.map_values(candidate) =~= rest.map_values(candidate).push(arrivals.last().0));
}

/// A batch is full with 25 candidates and waits two seconds, and an arrival
/// can be timed whenever two seconds from then can be told.
pub proof fn law_batch_limits(now: u64)
    ensures
        FLUSH_BATCH_SIZE == 25,
        FLUSH_DEADLINE == 2 * 1_000_000_000,
        deadline_fits(now) <==> now + 2 * 1_000_000_000 <= u64::MAX,
{
}

/// Candidates queue up: one more goes behind all others, which stay as they
/// are. It sets the deadline where it is the first, and leaves it alone where
/// it is not; a batch that holds nothing has none.
pub proof fn law_candidates_queue_up(batch: BatchView, candidate: ArchiveCandidateView, now: u64)
    ensures
        ({
            let more = batch.with(candidate, now);
            &&& more.candidates.len() == batch.candidates.len() + 1
            &&& more.candidates.last() == candidate
            &&& more.candidates.drop_last() == batch.candidates
            &&& batch.candidates.len() > 0 ==> more.deadline == batch.deadline
            &&& batch.candidates.len() == 0 && deadline_fits(now) ==> more.deadline is Some
                && more.deadline->0 - now == FLUSH_DEADLINE
        }),
        empty_batch().candidates.len() == 0,
        empty_batch().deadline is None,
        batch.timed() <==> (batch.deadline is Some <==> batch.candidates.len() > 0),
{
    assert(batch.with(candidate, now).candidates.drop_last() =~= batch.candidates);
}

} // verus!
