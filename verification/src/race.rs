//! One candidate's race: the sub-queries that are still running, and what
//! each answer means for the candidate.

use vstd::prelude::*;

verus! {

/// How resolvers are assigned to a candidate.
#[derive(Clone, Copy, PartialEq, Eq, Structural, Debug)]
pub enum AssignmentPolicy {
    /// One resolver, picked by the candidate's position modulo the pool size.
    RoundRobin,
    /// Every resolver of the pool, raced against each other.
    FullPool,
}

/// The resolvers, by their position in a pool of `pool`, that the candidate at
/// position `candidate` is raced against.
pub open spec fn assigned(policy: AssignmentPolicy, pool: usize, candidate: usize) -> Seq<usize> {
    match policy {
        AssignmentPolicy::RoundRobin => seq![(candidate % pool) as usize],
        AssignmentPolicy::FullPool => Seq::new(pool as nat, |i: int| i as usize),
    }
}

/// What one answer means for the race it belongs to.
#[derive(Clone, Copy, PartialEq, Eq, Structural, Debug)]
pub enum Verdict {
    /// The resolver was not running for this candidate: the answer is dropped.
    Discarded,
    /// A negative answer, and other resolvers are still running.
    Running,
    /// The last running resolver answered negatively.
    Lost,
    /// A positive answer from a running resolver.
    Won,
}

/// The state of one race as a mathematical value.
pub struct RaceView {
    pub candidate: usize,
    pub pending: Seq<usize>,
}

impl RaceView {
    /// The resolver is still running for this candidate.
    pub open spec fn holds(self, resolver: usize) -> bool {
        self.pending.contains(resolver)
    }

    /// The race without `resolver`.
    pub open spec fn without(self, resolver: usize) -> RaceView {
        RaceView {
            candidate: self.candidate,
            pending: self.pending.remove(self.pending.index_of(resolver)),
        }
    }

    /// What an answer of `resolver` means.
    pub open spec fn verdict(self, resolver: usize, positive: bool) -> Verdict {
        if !self.holds(resolver) {
            Verdict::Discarded
        } else if positive {
            Verdict::Won
        } else if self.pending.len() == 1 {
            Verdict::Lost
        } else {
            Verdict::Running
        }
    }

    /// The race after an answer of `resolver`: a running resolver leaves.
    pub open spec fn after(self, resolver: usize) -> RaceView {
        if self.holds(resolver) {
            self.without(resolver)
        } else {
            self
        }
    }

    /// No resolver is listed twice, and each is one of those assigned.
    pub open spec fn wf(self, policy: AssignmentPolicy, pool: usize) -> bool {
        &&& self.pending.no_duplicates()
        &&& forall|i: int|
            0 <= i < self.pending.len() ==> assigned(policy, pool, self.candidate).contains(
                #[trigger] self.pending[i],
            )
    }
}

/// One candidate's race in flight.
pub struct Race {
    candidate: usize,
    pending: Vec<usize>,
}

impl View for Race {
    type V = RaceView;

    closed spec fn view(&self) -> RaceView {
        RaceView { candidate: self.candidate, pending: self.pending@ }
    }
}

/// Lists the resolvers that the candidate at position `candidate` is raced
/// against.
pub fn assign(policy: AssignmentPolicy, pool: usize, candidate: usize) -> (picked: Vec<usize>)
    requires
        pool > 0,
    ensures
        picked@ == assigned(policy, pool, candidate),
{
    let mut picked: Vec<usize> = Vec::new();
    match policy {
        AssignmentPolicy::RoundRobin => {
            picked.push(candidate % pool);
            assert(picked@ =~= assigned(policy, pool, candidate));
        },
        AssignmentPolicy::FullPool => {
            let mut i: usize = 0;
            while i < pool
                invariant
                    i <= pool,
                    picked@ =~= Seq::new(i as nat, |j: int| j as usize),
                decreases pool - i,
            {
                picked.push(i);
                i = i + 1;
            }
        },
    }
    picked
}

/// The assigned resolvers are distinct positions of the pool, and there is at
/// least one.
pub proof fn lemma_assigned(policy: AssignmentPolicy, pool: usize, candidate: usize)
    requires
        pool > 0,
    ensures
        assigned(policy, pool, candidate).len() > 0,
        assigned(policy, pool, candidate).no_duplicates(),
        forall|i: int|
            0 <= i < assigned(policy, pool, candidate).len() ==> #[trigger] assigned(
                policy,
                pool,
                candidate,
            )[i] < pool,
        policy == AssignmentPolicy::FullPool ==> assigned(policy, pool, candidate).len() == pool,
        policy == AssignmentPolicy::RoundRobin ==> assigned(policy, pool, candidate).len() == 1,
{
}

impl Race {
    /// Starts the race of `candidate` against its assigned resolvers.
    pub fn start(policy: AssignmentPolicy, pool: usize, candidate: usize) -> (race: Race)
        requires
            pool > 0,
        ensures
            race@.candidate == candidate,
            race@.pending == assigned(policy, pool, candidate),
            race@.wf(policy, pool),
            race@.pending.len() > 0,
    {
        proof {
            lemma_assigned(policy, pool, candidate);
        }
        Race { candidate, pending: assign(policy, pool, candidate) }
    }

    /// The position of the candidate that is raced.
    pub fn candidate(&self) -> (c: usize)
        ensures
            c == self@.candidate,
    {
        self.candidate
    }

    /// The resolvers that are still running.
    pub fn pending(&self) -> (p: &Vec<usize>)
        ensures
            p@ == self@.pending,
    {
        &self.pending
    }

    /// Ends the race and hands out the resolvers that were still running.
    pub fn into_pending(self) -> (p: Vec<usize>)
        ensures
            p@ == self@.pending,
    {
        self.pending
    }

    /// Takes one answer: a running resolver leaves the race, and the verdict
    /// says what the answer means for the candidate.
    pub fn answer(&mut self, resolver: usize, positive: bool) -> (verdict: Verdict)
        requires
            old(self)@.pending.no_duplicates(),
        ensures
            verdict == old(self)@.verdict(resolver, positive),
            final(self)@ == old(self)@.after(resolver),
    {
        let mut i: usize = 0;
        while i < self.pending.len()
            invariant
                i <= self.pending.len(),
                *self == *old(self),
                self.pending@.no_duplicates(),
                forall|j: int| 0 <= j < i ==> self.pending@[j] != resolver,
            decreases self.pending.len() - i,
        {
            if self.pending[i] == resolver {
                proof {
                    assert(self.pending@[i as int] == resolver);
                    assert(self.pending@.index_of(resolver) == i);
                }
                let last = self.pending.len() == 1;
                self.pending.remove(i);
                return if positive {
                    Verdict::Won
                } else if last {
                    Verdict::Lost
                } else {
                    Verdict::Running
                };
            }
            i = i + 1;
        }
        assert(!self.pending@.contains(resolver));
        Verdict::Discarded
    }
}

} // verus!
