use vstd::prelude::*;
use std::collections::VecDeque;

use crate::text::{repaired, repair_lines, split_work_items, work_items};

verus! {

/// The number of audio units below which the sink is handed another one.
pub const LOW_WATER_MARK: usize = 2;

/// Why a document could not be split into work items.
#[derive(Debug, PartialEq, Eq, Structural)]
pub enum IngestError {
    /// The expression engine refused a line-repair pattern.
    PatternRejected,
}

/// The work items waiting to be spoken, oldest first.
pub struct Pending {
    items: VecDeque<String>,
}

impl View for Pending {
    type V = Seq<Seq<char>>;

    closed spec fn view(&self) -> Seq<Seq<char>> {
        self.items@.map_values(|s: String| s@)
    }
}

/// Whether a sink holding `queued` units, with `pending` items waiting, is
/// handed the next item.
pub open spec fn refill_granted(queued: int, pending: int) -> bool {
    queued < LOW_WATER_MARK && pending > 0
}

/// Whether the control loop ends: nothing in the inbox and nothing queued or
/// playing in the sink.
pub open spec fn idle(inbox_len: int, queued: int) -> bool {
    inbox_len == 0 && queued == 0
}

impl Pending {
    /// An empty queue.
    pub fn new() -> (r: Pending)
        ensures
            r@ == Seq::<Seq<char>>::empty(),
    {
        let r = Pending { items: VecDeque::new() };
        assert(r@ =~= Seq::<Seq<char>>::empty());
        r
    }

    /// The number of waiting items.
    pub fn len(&self) -> (r: usize)
        ensures
            r == self@.len(),
    {
        self.items.len()
    }

    /// Whether no item waits.
    pub fn is_empty(&self) -> (r: bool)
        ensures
            r == (self@.len() == 0),
    {
        self.items.len() == 0
    }

    /// Appends the given lines, in order, behind those already waiting.
    pub fn push_items(&mut self, lines: Vec<String>)
        ensures
            final(self)@ == old(self)@ + lines.deep_view(),
    {
        let mut i: usize = 0;
        while i < lines.len()
            invariant
                0 <= i <= lines.len(),
                self@ == old(self)@ + lines.deep_view().take(i as int),
            decreases lines.len() - i,
        {
            let ghost prev = self@;
            self.items.push_back(lines[i].clone());
            assert(self@ =~= prev.push(lines[i as int]@));
            assert(lines.deep_view().take(i + 1) =~= lines.deep_view().take(i as int).push(
                lines[i as int]@,
            ));
            i = i + 1;
        }
        assert(lines.deep_view().take(lines.len() as int) =~= lines.deep_view());
    }

    /// Reads one document: its line structure is repaired, and its lines that
    /// are not blank are queued in order behind those already waiting.
    pub fn ingest(&mut self, document: &str) -> (r: Result<(), IngestError>)
        ensures
            match repaired(document@) {
                Some(text) => r is Ok && final(self)@ == old(self)@ + work_items(text),
                None => r == Err::<(), IngestError>(IngestError::PatternRejected) && final(self)@
                    == old(self)@,
            },
    {
        match repair_lines(document) {
            None => Err(IngestError::PatternRejected),
            Some(text) => {
                let lines = split_work_items(text.as_str());
                self.push_items(lines);
                Ok(())
            },
        }
    }

    /// Hands the oldest item to a sink that holds `queued` units, if the sink
    /// is below the low-water mark and an item waits.
    pub fn next_for_sink(&mut self, queued: usize) -> (r: Option<String>)
        ensures
            r is Some == refill_granted(queued as int, old(self)@.len() as int),
            r matches Some(s) ==> s@ == old(self)@[0] && final(self)@ == old(self)@.drop_first(),
            r is None ==> final(self)@ == old(self)@,
    {
        if queued < LOW_WATER_MARK {
            let ghost prev = self@;
            let r = self.items.pop_front();
            proof {
                if r is Some {
                    assert(self@ =~= prev.drop_first());
                }
            }
            r
        } else {
            None
        }
    }
}

/// Whether the control loop ends, seen at the start of an iteration.
pub fn is_idle(inbox_len: usize, queued: usize) -> (r: bool)
    ensures
        r == idle(inbox_len as int, queued as int),
{
    inbox_len == 0 && queued == 0
}

/// Whether a newly started process leaves the work to one already running:
/// more than one process with the program's name exists.
pub fn cede_to_running(instances: usize) -> (r: bool)
    ensures
        r == (instances > 1),
{
    instances > 1
}

/// The units in a sink that starts with `queued`, with `pending` items
/// waiting, after one refill check per entry of `finished`: before each check,
/// playback finishes that many units (all it holds, at most).
pub open spec fn queued_after(queued: int, pending: int, finished: Seq<nat>) -> int
    decreases finished.len(),
{
    if finished.len() == 0 {
        queued
    } else {
        let left = if finished[0] <= queued {
            queued - finished[0]
        } else {
            0
        };
        if refill_granted(left, pending) {
            queued_after(left + 1, pending - 1, finished.drop_first())
        } else {
            queued_after(left, pending, finished.drop_first())
        }
    }
}

/// A sink that starts at or under the low-water mark stays there, however
/// refill checks and finished playback interleave: a unit is handed over only
/// while the sink holds fewer than the mark.
pub proof fn lemma_refill_keeps_bound(queued: int, pending: int, finished: Seq<nat>)
    requires
        0 <= queued <= LOW_WATER_MARK,
    ensures
        0 <= queued_after(queued, pending, finished) <= LOW_WATER_MARK,
    decreases finished.len(),
{
    if finished.len() > 0 {
        let left = if finished[0] <= queued {
            queued - finished[0]
        } else {
            0
        };
        if refill_granted(left, pending) {
            lemma_refill_keeps_bound(left + 1, pending - 1, finished.drop_first());
        } else {
            lemma_refill_keeps_bound(left, pending, finished.drop_first());
        }
    }
}

/// With enough items waiting, refill checks with nothing finishing bring a
/// sink under the mark up to it, and no further.
pub proof fn lemma_refill_reaches_mark(queued: int, pending: int, finished: Seq<nat>)
    requires
        0 <= queued <= LOW_WATER_MARK,
        pending >= LOW_WATER_MARK - queued,
        finished.len() >= LOW_WATER_MARK - queued,
        forall|i: int| 0 <= i < finished.len() ==> finished[i] == 0,
    ensures
        queued_after(queued, pending, finished) == LOW_WATER_MARK,
    decreases finished.len(),
{
    if finished.len() > 0 {
        if queued < LOW_WATER_MARK {
            lemma_refill_reaches_mark(queued + 1, pending - 1, finished.drop_first());
        } else {
            lemma_refill_reaches_mark(queued, pending, finished.drop_first());
        }
    }
}

} // verus!
