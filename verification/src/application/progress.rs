//! Progress of the requests made after a refresh.
use vstd::prelude::*;

verus! {

pub struct Progress {
    current: u64,
    total: u64,
}

impl View for Progress {
    /// (requests answered, requests made)
    type V = (u64, u64);

    closed spec fn view(&self) -> (u64, u64) {
        (self.current, self.total)
    }
}

/// What moves the progress: a request made, or a request answered.
pub enum ProgressEvent {
    Requested,
    Answered,
}

/// The progress after one event, as `increment_total` and `increment_current`
/// make it: (requests answered, requests made).
pub open spec fn progress_step(p: (u64, u64), event: ProgressEvent) -> (u64, u64) {
    match event {
        ProgressEvent::Requested => (p.0, (p.1 + 1) as u64),
        ProgressEvent::Answered => ((p.0 + 1) as u64, p.1),
    }
}

/// The progress after the events, one after the other.
pub open spec fn progress_after(p: (u64, u64), events: Seq<ProgressEvent>) -> (u64, u64)
    decreases events.len(),
{
    if events.len() == 0 {
        p
    } else {
        progress_step(progress_after(p, events.drop_last()), events.last())
    }
}

/// How many of the events are of this kind.
pub open spec fn count_events(events: Seq<ProgressEvent>, kind: ProgressEvent) -> nat
    decreases events.len(),
{
    if events.len() == 0 {
        0
    } else {
        count_events(events.drop_last(), kind) + if events.last() == kind {
            1nat
        } else {
            0nat
        }
    }
}

/// From a reset, after t requests made and c answered, in any order, the
/// progress is (c, t), and it is finished exactly when c >= t; in particular
/// it is finished right after the reset.
pub proof fn lemma_finished_after_reset(events: Seq<ProgressEvent>)
    requires
        count_events(events, ProgressEvent::Requested) <= u64::MAX,
        count_events(events, ProgressEvent::Answered) <= u64::MAX,
    ensures
        progress_after((0u64, 0u64), events) == (
            count_events(events, ProgressEvent::Answered) as u64,
            count_events(events, ProgressEvent::Requested) as u64,
        ),
        (progress_after((0u64, 0u64), events).0 >= progress_after((0u64, 0u64), events).1) == (count_events(
            events,
            ProgressEvent::Answered,
        ) >= count_events(events, ProgressEvent::Requested)),
    decreases events.len(),
{
    if events.len() > 0 {
        lemma_finished_after_reset(events.drop_last());
    }
}

impl Progress {
    pub fn reset(&mut self)
        ensures
            final(self)@ == (0u64, 0u64),
    {
        self.current = 0;
        self.total = 0;
    }

    pub fn increment_total(&mut self)
        requires
            old(self)@.1 < u64::MAX,
        ensures
            final(self)@ == (old(self)@.0, (old(self)@.1 + 1) as u64),
            final(self)@ == progress_step(old(self)@, ProgressEvent::Requested),
    {
        self.total += 1;
    }

    pub fn increment_current(&mut self)
        requires
            old(self)@.0 < u64::MAX,
        ensures
            final(self)@ == ((old(self)@.0 + 1) as u64, old(self)@.1),
            final(self)@ == progress_step(old(self)@, ProgressEvent::Answered),
    {
        self.current += 1;
    }

    /// Every request made has been answered.
    pub fn is_finished(&self) -> (r: bool)
        ensures
            r == (self@.0 >= self@.1),
    {
        self.current >= self.total
    }

    pub fn current(&self) -> (n: u64)
        ensures
            n == self@.0,
    {
        self.current
    }

    pub fn total(&self) -> (n: u64)
        ensures
            n == self@.1,
    {
        self.total
    }
}

impl Default for Progress {
    fn default() -> (p: Progress)
        ensures
            p@ == (0u64, 0u64),
    {
        Progress { current: 0, total: 0 }
    }
}

} // verus!
