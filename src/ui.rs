//! Tab selection and the timer's unit.

use vstd::prelude::*;

verus! {

/// Unit in which the timer tab sets the session length.
#[derive(Debug, Clone, Copy, PartialEq, Eq, Structural)]
pub enum TimeUnit {
    Minutes,
    Hours,
    Seconds,
}

/// Tab titles and the index of the selected one.
pub struct TabsState {
    pub titles: Vec<&'static str>,
    pub index: usize,
}

impl TabsState {
    /// There is a tab, and the index names one.
    pub open spec fn wf(&self) -> bool {
        self.titles@.len() > 0 && self.index < self.titles@.len()
    }

    /// The first of `titles` selected.
    pub fn new(titles: Vec<&'static str>) -> (r: TabsState)
        ensures
            r.titles@ == titles@,
            r.index == 0,
    {
        TabsState { titles, index: 0 }
    }

    /// Selects the next tab, wrapping to the first.
    pub fn next(&mut self)
        requires
            old(self).wf(),
        ensures
            final(self).titles@ == old(self).titles@,
            final(self).index == (old(self).index + 1) % (old(self).titles@.len() as int),
            final(self).wf(),
    {
        let n = self.titles.len();
        self.index = (self.index + 1) % n;
    }

    /// Selects the previous tab, wrapping to the last.
    pub fn previous(&mut self)
        requires
            old(self).wf(),
        ensures
            final(self).titles@ == old(self).titles@,
            final(self).index == if old(self).index > 0 {
                old(self).index - 1
            } else {
                old(self).titles@.len() - 1
            },
            final(self).wf(),
    {
        if self.index > 0 {
            self.index -= 1;
        } else {
            self.index = self.titles.len() - 1;
        }
    }
}

} // verus!
