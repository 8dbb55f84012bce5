use vstd::prelude::*;

verus! {

/// The one-shot start of a session's diagnostic log: the first caller opens
/// the log afresh, every later caller appends to it.
pub struct TraceLog {
    started: bool,
}

impl View for TraceLog {
    type V = bool;

    closed spec fn view(&self) -> bool {
        self.started
    }
}

impl TraceLog {
    /// A session whose log has not been started.
    pub fn new() -> (r: Self)
        ensures
            !r@,
    {
        TraceLog { started: false }
    }

    /// Marks the log as started; `true` only for the first call, which is the
    /// one that must open the log.
    pub fn start(&mut self) -> (first: bool)
        ensures
            first == !old(self)@,
            final(self)@,
    {
        let first = !self.started;
        self.started = true;
        first
    }
}

} // verus!
