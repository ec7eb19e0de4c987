//! The admission gate: a counting permit pool that caps how many jobs are
//! outstanding at once.

use vstd::prelude::*;

verus! {

/// A pool of `ceiling` permits, of which `outstanding` are handed out.
pub struct Governor {
    ceiling: usize,
    outstanding: usize,
}

impl Governor {
    /// The largest number of permits that may be out at once.
    pub closed spec fn ceiling(&self) -> nat {
        self.ceiling as nat
    }

    /// The number of permits that are out.
    pub closed spec fn outstanding(&self) -> nat {
        self.outstanding as nat
    }

    /// The pool holds at least one permit and never has more out than it holds.
    pub closed spec fn wf(&self) -> bool {
        0 < self.ceiling && self.outstanding <= self.ceiling
    }

    /// A pool of `ceiling` permits, none of them out.
    pub fn with_ceiling(ceiling: usize) -> (g: Governor)
        requires
            ceiling > 0,
        ensures
            g.wf(),
            g.ceiling() == ceiling,
            g.outstanding() == 0,
    {
        Governor { ceiling, outstanding: 0 }
    }

    /// A pool without a permit is refused; any other starts with none out.
    pub fn new(ceiling: usize) -> (made: Option<Governor>)
        ensures
            made is Some <==> ceiling > 0,
            made is Some ==> {
                let g = made->Some_0;
                g.wf() && g.ceiling() == ceiling && g.outstanding() == 0
            },
    {
        if ceiling == 0 {
            None
        } else {
            Some(Governor::with_ceiling(ceiling))
        }
    }

    /// The largest number of permits that may be out at once.
    pub fn limit(&self) -> (n: usize)
        ensures
            n == self.ceiling(),
    {
        self.ceiling
    }

    /// The number of permits that are out.
    pub fn in_flight(&self) -> (n: usize)
        ensures
            n == self.outstanding(),
    {
        self.outstanding
    }

    /// Hands out a permit exactly when one is free.
    pub fn try_acquire(&mut self) -> (granted: bool)
        requires
            old(self).wf(),
        ensures
            final(self).wf(),
            final(self).ceiling() == old(self).ceiling(),
            granted == (old(self).outstanding() < old(self).ceiling()),
            final(self).outstanding() == old(self).outstanding() + if granted {
                1nat
            } else {
                0nat
            },
    {
        if self.outstanding < self.ceiling {
            self.outstanding = self.outstanding + 1;
            true
        } else {
            false
        }
    }

    /// Takes back one permit.
    pub fn release(&mut self)
        requires
            old(self).wf(),
            old(self).outstanding() > 0,
        ensures
            final(self).wf(),
            final(self).ceiling() == old(self).ceiling(),
            final(self).outstanding() == old(self).outstanding() - 1,
    {
        self.outstanding = self.outstanding - 1;
    }
}

} // verus!
