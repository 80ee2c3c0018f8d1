//! The screenshots of a map, browsed one at a time.
use vstd::prelude::*;
use crate::application::promised_value::PromisedValue;

verus! {

/// The position after moving to the next screenshot: one further when there is one.
pub open spec fn moved_next(ready: bool, current: int, count: nat) -> int {
    if ready && current + 1 < count {
        current + 1
    } else {
        current
    }
}

/// The position after moving to the previous screenshot: one back when there is one.
pub open spec fn moved_previous(ready: bool, current: int) -> int {
    if ready && current > 0 {
        current - 1
    } else {
        current
    }
}

/// Moving to the next screenshot then back returns to the one shown, when
/// there was a next one; at the last one, moving on stays there.
pub proof fn lemma_next_then_previous(ready: bool, current: int, count: nat)
    requires
        0 <= current,
    ensures
        ready && current + 1 < count ==> moved_previous(ready, moved_next(ready, current, count)) == current,
        current + 1 >= count ==> moved_next(ready, current, count) == current,
{
}

pub struct Screenshots<I> {
    screenshots: PromisedValue<Vec<I>>,
    current: usize,
}

impl<I> Screenshots<I> {
    pub closed spec fn spec_images(&self) -> PromisedValue<Seq<I>> {
        match self.screenshots {
            PromisedValue::Ready(v) => PromisedValue::Ready(v@),
            PromisedValue::Loading => PromisedValue::Loading,
            PromisedValue::Absent => PromisedValue::Absent,
        }
    }

    pub closed spec fn spec_current(&self) -> usize {
        self.current
    }

    /// The number of screenshots, zero while none are ready.
    pub open spec fn spec_count(&self) -> nat {
        match self.spec_images() {
            PromisedValue::Ready(v) => v.len(),
            _ => 0,
        }
    }

    pub fn new() -> (s: Screenshots<I>)
        ensures
            s.spec_images() is Absent,
            s.spec_current() == 0,
    {
        Screenshots { screenshots: PromisedValue::Absent, current: 0 }
    }

    /// Replaces the screenshots and goes back to the first.
    pub fn set(&mut self, screenshots: PromisedValue<Vec<I>>)
        ensures
            final(self).spec_images() == match screenshots {
                PromisedValue::Ready(v) => PromisedValue::Ready(v@),
                PromisedValue::Loading => PromisedValue::<Seq<I>>::Loading,
                PromisedValue::Absent => PromisedValue::<Seq<I>>::Absent,
            },
            final(self).spec_current() == 0,
    {
        self.screenshots = screenshots;
        self.current = 0;
    }

    pub fn count(&self) -> (n: usize)
        ensures
            n == self.spec_count(),
    {
        match &self.screenshots {
            PromisedValue::Ready(screenshots) => screenshots.len(),
            _ => 0,
        }
    }

    pub fn can_move_next(&self) -> (r: bool)
        ensures
            r == (self.spec_images() is Ready && self.spec_current() + 1 < self.spec_count()),
    {
        match &self.screenshots {
            PromisedValue::Ready(screenshots) => self.current < screenshots.len()
                && self.current + 1 < screenshots.len(),
            _ => false,
        }
    }

    pub fn can_move_previous(&self) -> (r: bool)
        ensures
            r == (self.spec_images() is Ready && self.spec_current() > 0),
    {
        match &self.screenshots {
            PromisedValue::Ready(_) => self.current > 0,
            _ => false,
        }
    }

    /// Moves to the next screenshot, when there is one.
    pub fn next(&mut self)
        ensures
            final(self).spec_images() == old(self).spec_images(),
            final(self).spec_current() == moved_next(
                old(self).spec_images() is Ready,
                old(self).spec_current() as int,
                old(self).spec_count(),
            ),
    {
        if let PromisedValue::Ready(screenshots) = &self.screenshots {
            if self.current < screenshots.len() && self.current + 1 < screenshots.len() {
                self.current += 1;
            }
        }
    }

    /// Moves to the previous screenshot, when there is one.
    pub fn previous(&mut self)
        ensures
            final(self).spec_images() == old(self).spec_images(),
            final(self).spec_current() == moved_previous(
                old(self).spec_images() is Ready,
                old(self).spec_current() as int,
            ),
    {
        if let PromisedValue::Ready(_screenshots) = &self.screenshots {
            if self.current > 0 {
                self.current -= 1;
            }
        }
    }

    pub fn current_index(&self) -> (i: usize)
        ensures
            i == self.spec_current(),
    {
        self.current
    }

    /// The screenshot shown: the current one, or the last when the position is past it.
    pub fn current(&self) -> (r: PromisedValue<&I>)
        ensures
            match self.spec_images() {
                PromisedValue::Ready(v) => if v.len() == 0 {
                    r is Absent
                } else {
                    r == PromisedValue::Ready(
                        &v[if self.spec_current() < v.len() {
                            self.spec_current() as int
                        } else {
                            v.len() - 1
                        }],
                    )
                },
                PromisedValue::Loading => r is Loading,
                PromisedValue::Absent => r is Absent,
            },
    {
        match &self.screenshots {
            PromisedValue::Ready(screenshots) => {
                if screenshots.len() == 0 {
                    PromisedValue::Absent
                } else {
                    let index = if self.current < screenshots.len() - 1 {
                        self.current
                    } else {
                        screenshots.len() - 1
                    };
                    PromisedValue::Ready(&screenshots[index])
                }
            },
            PromisedValue::Loading => PromisedValue::Loading,
            PromisedValue::Absent => PromisedValue::Absent,
        }
    }
}

} // verus!
