//! A stack of views: the last one pushed is the one shown.
use vstd::prelude::*;

verus! {

pub struct Views<V> {
    views: Vec<V>,
}

impl<V> View for Views<V> {
    type V = Seq<V>;

    closed spec fn view(&self) -> Seq<V> {
        self.views@
    }
}

impl<V> Views<V> {
    /// A stack holding only `initial`.
    pub fn new(initial: V) -> (r: Views<V>)
        ensures
            r@ == seq![initial],
    {
        let mut new_instance = Views { views: Vec::with_capacity(3) };
        new_instance.push(initial);
        assert(new_instance@ =~= seq![initial]);
        new_instance
    }

    pub fn push(&mut self, view: V)
        ensures
            final(self)@ == old(self)@.push(view),
    {
        self.views.push(view);
    }

    /// Removes the view on top, if any.
    pub fn pop(&mut self)
        ensures
            final(self)@ == popped(old(self)@),
    {
        let _ = self.views.pop();
    }

    /// Replaces the view on top, if any.
    pub fn change(&mut self, new_view: V)
        ensures
            final(self)@ == if old(self)@.len() == 0 {
                old(self)@
            } else {
                old(self)@.update(old(self)@.len() - 1, new_view)
            },
    {
        let count = self.views.len();
        if count > 0 {
            self.views.set(count - 1, new_view);
        }
    }

    /// Removes every view.
    pub fn clear(&mut self)
        ensures
            final(self)@ == Seq::<V>::empty(),
    {
        while !self.is_empty()
            invariant
                true,
            decreases self@.len(),
        {
            self.pop();
        }
    }

    /// The view on top.
    pub fn current(&self) -> (r: Option<&V>)
        ensures
            if self@.len() == 0 {
                r is None
            } else {
                r == Some(&self@.last())
            },
    {
        self.views.last()
    }

    /// The view on top, to change it in place.
    pub fn current_mut(&mut self) -> (r: Option<&mut V>)
        ensures
            old(self)@.len() == 0 ==> r is None && final(self)@ == old(self)@,
            old(self)@.len() > 0 ==> (r matches Some(v) && *v == old(self)@.last() && final(self)@
                == old(self)@.update(old(self)@.len() - 1, *final(v))),
    {
        let count = self.views.len();
        if count == 0 {
            None
        } else {
            Some(&mut self.views[count - 1])
        }
    }

    pub fn is_empty(&self) -> (r: bool)
        ensures
            r == (self@.len() == 0),
    {
        self.views.len() == 0
    }
}


/// The stack after a pop: the view on top is gone, if there was one.
pub open spec fn popped<V>(stack: Seq<V>) -> Seq<V> {
    if stack.len() == 0 {
        stack
    } else {
        stack.drop_last()
    }
}

/// Popping right after pushing gives back the stack as it was, and a view
/// pushed is the one shown until then.
pub proof fn lemma_push_then_pop<V>(stack: Seq<V>, view: V)
    ensures
        popped(stack.push(view)) == stack,
        stack.push(view).last() == view,
{
    assert(stack.push(view).drop_last() =~= stack);
}

} // verus!
