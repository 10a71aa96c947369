use vstd::prelude::*;

verus! {

/// A named timing interval. Creating one begins the interval; it ends once,
/// either through `end_now` or, for an interval never ended explicitly, when
/// its owner drops it (see `pending_end`).
pub struct Timer<'a> {
    ended: bool,
    name: &'a str,
}

impl<'a> Timer<'a> {
    /// The label that identifies the interval.
    pub closed spec fn label(&self) -> Seq<char> {
        self.name@
    }

    /// Whether the interval has been ended.
    pub closed spec fn is_ended(&self) -> bool {
        self.ended
    }

    /// Begins an interval under the given label.
    pub fn new(name: &'a str) -> (r: Timer<'a>)
        ensures
            r.label() == name@,
            !r.is_ended(),
    {
        Timer { name, ended: false }
    }

    /// Ends the interval now.
    pub fn end_now(&mut self)
        ensures
            final(self).is_ended(),
            final(self).label() == old(self).label(),
    {
        self.ended = true;
    }

    /// The interval's label.
    pub fn name(&self) -> (r: &'a str)
        ensures
            r@ == self.label(),
    {
        self.name
    }

    /// Whether the interval still has to be ended when its owner lets it go:
    /// true exactly when `end_now` was never called.
    pub fn pending_end(&self) -> (r: bool)
        ensures
            r == !self.is_ended(),
    {
        !self.ended
    }
}

} // verus!
