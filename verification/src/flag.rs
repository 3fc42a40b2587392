use vstd::prelude::*;

verus! {

/// A flag that can be raised or lowered.
/// Useful for indicating if an event has occurred.
#[derive(Debug)]
pub struct Flag(bool);

impl View for Flag {
    type V = bool;

    /// `true` while the flag is raised.
    closed spec fn view(&self) -> bool {
        self.0
    }
}

impl Default for Flag {
    /// A flag starts out lowered.
    fn default() -> (flag: Self)
        ensures
            !flag@,
    {
        Flag(false)
    }
}

impl Flag {
    /// Creates a flag that is already raised.
    pub fn raised() -> (flag: Self)
        ensures
            flag@,
    {
        Flag(true)
    }

    /// Raise the flag.
    pub fn raise(&mut self)
        ensures
            final(self)@,
    {
        self.0 = true;
    }

    /// Lower the flag, returning if it was raised until now.
    pub fn lower(&mut self) -> (was_raised: bool)
        ensures
            was_raised == old(self)@,
            !final(self)@,
    {
        let was_raised = self.0;
        self.0 = false;
        was_raised
    }

    /// Gets if the flag is raised.
    pub fn is_raised(&self) -> (raised: bool)
        ensures
            raised == self@,
    {
        self.0
    }
}

} // verus!
