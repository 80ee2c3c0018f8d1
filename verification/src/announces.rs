//! Announces shown to the user one at a time, oldest first.
use vstd::prelude::*;
use crate::text::{copy_text, text_equal};

verus! {

#[derive(PartialEq, Eq, Debug)]
pub struct Announce {
    pub title: String,
    pub message: String,
}

impl Clone for Announce {
    fn clone(&self) -> (r: Self)
        ensures
            r == *self,
    {
        Announce { title: self.title.clone(), message: self.message.clone() }
    }
}

impl View for Announce {
    /// (title, message)
    type V = (Seq<char>, Seq<char>);

    open spec fn view(&self) -> (Seq<char>, Seq<char>) {
        (self.title@, self.message@)
    }
}

impl Announce {
    pub fn new(title: &str, message: &str) -> (a: Announce)
        ensures
            a@ == (title@, message@),
    {
        Announce { title: copy_text(title), message: copy_text(message) }
    }

    /// Whether two announces say the same thing.
    pub fn same_as(&self, other: &Announce) -> (r: bool)
        ensures
            r == (self@ == other@),
    {
        text_equal(self.title.as_str(), other.title.as_str()) && text_equal(
            self.message.as_str(),
            other.message.as_str(),
        )
    }
}

/// The announces waiting, newest first: the last one is shown.
pub struct AnnounceQueue {
    queue: Vec<Announce>,
}

impl View for AnnounceQueue {
    type V = Seq<(Seq<char>, Seq<char>)>;

    closed spec fn view(&self) -> Seq<(Seq<char>, Seq<char>)> {
        self.queue@.map_values(|a: Announce| a@)
    }
}

impl AnnounceQueue {
    pub fn new() -> (q: AnnounceQueue)
        ensures
            q@ == Seq::<(Seq<char>, Seq<char>)>::empty(),
    {
        let q = AnnounceQueue { queue: Vec::new() };
        assert(q@ =~= Seq::<(Seq<char>, Seq<char>)>::empty());
        q
    }

    /// Enqueues a new announce; it is only added if the same announce is not
    /// already waiting.
    pub fn push(&mut self, announce: Announce)
        ensures
            final(self)@ == if old(self)@.contains(announce@) {
                old(self)@
            } else {
                seq![announce@] + old(self)@
            },
    {
        let mut i: usize = 0;
        while i < self.queue.len()
            invariant
                i <= self@.len(),
                self@ == old(self)@,
                self@.len() == self.queue@.len(),
                forall|k: int| 0 <= k < i ==> #[trigger] self@[k] != announce@,
            decreases self.queue@.len() - i,
        {
            assert(self@[i as int] == self.queue@[i as int]@);
            if self.queue[i].same_as(&announce) {
                return;
            }
            i = i + 1;
        }
        let ghost a = announce@;
        self.queue.insert(0, announce);
        assert(self@ =~= seq![a] + old(self)@);
    }

    /// Drops the announce shown, if any.
    pub fn pop(&mut self)
        ensures
            final(self)@ == if old(self)@.len() == 0 {
                old(self)@
            } else {
                old(self)@.drop_last()
            },
    {
        if self.queue.len() > 0 {
            self.queue.pop();
            assert(self@ =~= old(self)@.drop_last());
        }
    }

    /// The announce shown: the oldest one waiting.
    pub fn current(&self) -> (r: Option<&Announce>)
        ensures
            match r {
                Some(a) => self@.len() > 0 && a@ == self@.last(),
                None => self@.len() == 0,
            },
    {
        if self.queue.len() == 0 {
            None
        } else {
            let last = self.queue.len() - 1;
            assert(self@.last() == self.queue@[last as int]@);
            Some(&self.queue[last])
        }
    }
}

impl Default for AnnounceQueue {
    fn default() -> (q: AnnounceQueue)
        ensures
            q@ == Seq::<(Seq<char>, Seq<char>)>::empty(),
    {
        AnnounceQueue::new()
    }
}

/// No announce waits twice.
pub open spec fn no_repeat(queue: Seq<(Seq<char>, Seq<char>)>) -> bool {
    forall|i: int, j: int| 0 <= i < j < queue.len() ==> queue[i] != queue[j]
}

/// Pushing keeps every announce waiting at most once, and leaves the shown
/// announce as it was when one was shown: announces come out in the order
/// they went in.
pub proof fn lemma_push_keeps_order(
    before: Seq<(Seq<char>, Seq<char>)>,
    after: Seq<(Seq<char>, Seq<char>)>,
    announce: (Seq<char>, Seq<char>),
)
    requires
        after == if before.contains(announce) {
            before
        } else {
            seq![announce] + before
        },
    ensures
        no_repeat(before) ==> no_repeat(after),
        before.len() > 0 ==> after.last() == before.last(),
        before.len() == 0 ==> after == seq![announce],
        after.contains(announce),
{
    if !before.contains(announce) {
        assert(after[0] == announce);
        if no_repeat(before) {
            assert forall|i: int, j: int| 0 <= i < j < after.len() implies after[i] != after[j] by {
                assert(after[j] == before[j - 1]);
                if i > 0 {
                    assert(after[i] == before[i - 1]);
                }
            }
        }
    } else {
        let k = choose|k: int| 0 <= k < before.len() && before[k] == announce;
        assert(after[k] == announce);
    }
}

} // verus!
