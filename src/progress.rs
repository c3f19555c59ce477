use vstd::prelude::*;
use vstd::string::StringExecFns;

verus! {

/// A counter of finished steps out of a total, with a label.
#[derive(Debug, Clone)]
pub struct ProgressBar {
    pub current: usize,
    pub total: usize,
    pub message: String,
}

impl ProgressBar {
    /// A bar at zero of `total` steps.
    pub fn new(total: usize, message: &str) -> (r: Self)
        ensures
            r.current == 0,
            r.total == total,
            r.message@ == message@,
    {
        ProgressBar { current: 0, total, message: String::from_str(message) }
    }

    /// Sets the number of finished steps.
    pub fn update(&mut self, current: usize)
        ensures
            final(self).current == current,
            final(self).total == old(self).total,
            final(self).message == old(self).message,
    {
        self.current = current;
    }

    /// One more finished step, never past the total.
    pub fn increment(&mut self)
        ensures
            final(self).current == if old(self).current < old(self).total {
                old(self).current + 1
            } else {
                old(self).current as int
            },
            final(self).total == old(self).total,
            final(self).message == old(self).message,
    {
        if self.current < self.total {
            self.current = self.current + 1;
        }
    }
}

} // verus!
