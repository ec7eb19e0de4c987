//! The scan as a mathematical value: its state, the events that move it, and
//! what every event preserves.

use vstd::prelude::*;
use crate::race::{AssignmentPolicy, RaceView, Verdict, assigned, lemma_assigned};

verus! {

/// The final account of a scan as a mathematical value.
pub struct ReportView {
    pub resolved: Seq<Seq<char>>,
    pub total_scanned: usize,
    pub resolvers_used: usize,
}

/// One thing that happens to a scan.
#[derive(Clone, Copy, PartialEq, Eq, Structural, Debug)]
pub enum Event {
    /// The next candidate asks for admission; `queryable` says whether its
    /// name can be put into a query.
    Admit { queryable: bool },
    /// A sub-query of `candidate` at `resolver` came back.
    Answer { candidate: usize, resolver: usize, positive: bool },
}

/// Where a candidate stands in a scan.
pub enum Standing {
    /// Not admitted yet.
    Waiting,
    /// Its race is in flight.
    Racing,
    /// Its race was won.
    Resolved,
    /// Its race ended without a positive answer, or its name cannot be queried.
    Unresolved,
}

/// The state of a scan as a mathematical value.
pub struct ScanView {
    /// The candidate names, in input order.
    pub names: Seq<Seq<char>>,
    /// The size of the resolver pool.
    pub pool: usize,
    pub policy: AssignmentPolicy,
    /// The largest number of races in flight at once.
    pub ceiling: usize,
    /// The position of the next candidate to admit.
    pub next: usize,
    /// The races in flight.
    pub races: Seq<RaceView>,
    /// The candidates whose races were won, in the order of winning.
    pub resolved: Seq<usize>,
    /// The number of candidates whose outcome is known.
    pub scanned: usize,
}

impl ScanView {
    /// A scan before its first admission.
    pub open spec fn start(
        names: Seq<Seq<char>>,
        pool: usize,
        policy: AssignmentPolicy,
        ceiling: usize,
    ) -> ScanView {
        ScanView {
            names,
            pool,
            policy,
            ceiling,
            next: 0,
            races: Seq::empty(),
            resolved: Seq::empty(),
            scanned: 0,
        }
    }

    /// The race of `candidate` is in flight.
    pub open spec fn is_racing(self, candidate: usize) -> bool {
        exists|k: int| 0 <= k < self.races.len() && (#[trigger] self.races[k]).candidate == candidate
    }

    /// The place of the race of `candidate` among those in flight.
    pub open spec fn race_of(self, candidate: usize) -> int {
        choose|k: int| 0 <= k < self.races.len() && (#[trigger] self.races[k]).candidate == candidate
    }

    /// The race of `candidate` was won.
    pub open spec fn is_resolved(self, candidate: usize) -> bool {
        self.resolved.contains(candidate)
    }

    /// The outcome of `candidate` is known.
    pub open spec fn is_settled(self, candidate: usize) -> bool {
        candidate < self.next && !self.is_racing(candidate)
    }

    /// How often `candidate` is listed as resolved.
    pub open spec fn times_resolved(self, candidate: usize) -> nat {
        self.resolved.to_multiset().count(candidate)
    }

    /// Where `candidate` stands.
    pub open spec fn standing(self, candidate: usize) -> Standing {
        if candidate >= self.next {
            Standing::Waiting
        } else if self.is_racing(candidate) {
            Standing::Racing
        } else if self.is_resolved(candidate) {
            Standing::Resolved
        } else {
            Standing::Unresolved
        }
    }

    /// The scan holds what a scan can hold: a pool, a ceiling and candidates;
    /// no more races in flight than the ceiling allows; one race at most for a
    /// candidate; every admitted candidate either in flight or counted; and
    /// every won race listed once, after it left the races in flight.
    pub open spec fn wf(self) -> bool {
        &&& 0 < self.names.len() <= usize::MAX
        &&& self.pool > 0
        &&& self.ceiling > 0
        &&& self.next <= self.names.len()
        &&& self.races.len() <= self.ceiling
        &&& self.scanned + self.races.len() == self.next
        &&& self.resolved.len() <= self.scanned
        &&& forall|k: int|
            0 <= k < self.races.len() ==> {
                &&& (#[trigger] self.races[k]).candidate < self.next
                &&& self.races[k].pending.len() > 0
                &&& self.races[k].wf(self.policy, self.pool)
            }
        &&& forall|i: int, j: int|
            0 <= i < j < self.races.len() ==> (#[trigger] self.races[i]).candidate != (
            #[trigger] self.races[j]).candidate
        &&& self.resolved.no_duplicates()
        &&& forall|j: int|
            0 <= j < self.resolved.len() ==> self.is_settled(#[trigger] self.resolved[j])
    }

    /// A candidate is left and a permit is free.
    pub open spec fn can_admit(self) -> bool {
        self.next < self.names.len() && self.races.len() < self.ceiling
    }

    /// The scan after the next candidate asked for admission. Where none is
    /// left or no permit is free nothing changes; a candidate whose name cannot
    /// be queried is counted as unresolved at once.
    pub open spec fn after_admission(self, queryable: bool) -> ScanView {
        if !self.can_admit() {
            self
        } else if queryable {
            ScanView {
                next: (self.next + 1) as usize,
                races: self.races.push(
                    RaceView {
                        candidate: self.next,
                        pending: assigned(self.policy, self.pool, self.next),
                    },
                ),
                ..self
            }
        } else {
            ScanView {
                next: (self.next + 1) as usize,
                scanned: (self.scanned + 1) as usize,
                ..self
            }
        }
    }

    /// What an answer means for the scan.
    pub open spec fn verdict(self, candidate: usize, resolver: usize, positive: bool) -> Verdict {
        if self.is_racing(candidate) {
            self.races[self.race_of(candidate)].verdict(resolver, positive)
        } else {
            Verdict::Discarded
        }
    }

    /// The scan after an answer. An answer that belongs to no running
    /// sub-query changes nothing. A negative answer takes its resolver out of
    /// the race, and ends the race where it was the last. A positive answer
    /// ends the race and lists the candidate as resolved.
    pub open spec fn after_answer(self, candidate: usize, resolver: usize, positive: bool) -> ScanView {
        let k = self.race_of(candidate);
        match self.verdict(candidate, resolver, positive) {
            Verdict::Discarded => self,
            Verdict::Running => ScanView {
                races: self.races.update(k, self.races[k].after(resolver)),
                ..self
            },
            Verdict::Lost => ScanView {
                races: self.races.remove(k),
                scanned: (self.scanned + 1) as usize,
                ..self
            },
            Verdict::Won => ScanView {
                races: self.races.remove(k),
                scanned: (self.scanned + 1) as usize,
                resolved: self.resolved.push(candidate),
                ..self
            },
        }
    }

    /// The scan after one event.
    pub open spec fn step(self, event: Event) -> ScanView {
        match event {
            Event::Admit { queryable } => self.after_admission(queryable),
            Event::Answer { candidate, resolver, positive } => self.after_answer(
                candidate,
                resolver,
                positive,
            ),
        }
    }

    /// The scan after a sequence of events, first to last.
    pub open spec fn run(self, events: Seq<Event>) -> ScanView
        decreases events.len(),
    {
        if events.len() == 0 {
            self
        } else {
            self.run(events.drop_last()).step(events.last())
        }
    }

    /// Every candidate was admitted and no race is in flight.
    pub open spec fn finished(self) -> bool {
        self.next == self.names.len() && self.races.len() == 0
    }

    /// The account of the scan.
    pub open spec fn report(self) -> ReportView {
        ReportView {
            resolved: Seq::new(self.resolved.len(), |j: int| self.names[self.resolved[j] as int]),
            total_scanned: self.scanned,
            resolvers_used: self.pool,
        }
    }
}


/// A race keeps its shape when a running resolver leaves it, and is shorter
/// by one.
pub proof fn lemma_race_after(race: RaceView, resolver: usize, policy: AssignmentPolicy, pool: usize)
    requires
        race.wf(policy, pool),
        race.holds(resolver),
    ensures
        race.after(resolver).wf(policy, pool),
        race.after(resolver).candidate == race.candidate,
        race.after(resolver).pending.len() == race.pending.len() - 1,
        !race.after(resolver).holds(resolver),
        forall|other: usize|
            other != resolver ==> (race.after(resolver).holds(other) <==> race.holds(other)),
{
    let p = race.pending;
    let at = p.index_of(resolver);
    let q = p.remove(at);
    assert(race.after(resolver).pending == q);
    assert forall|i: int| 0 <= i < q.len() implies q[i] == p[if i < at {
        i
    } else {
        i + 1
    }] by {}
    assert forall|i: int, j: int| 0 <= i < q.len() && 0 <= j < q.len() && i != j implies q[i]
        != q[j] by {}
    assert forall|other: usize| other != resolver implies (q.contains(other) <==> p.contains(
        other,
    )) by {
        if p.contains(other) {
            let i = p.index_of(other);
            assert(q[if i < at {
                i
            } else {
                i - 1
            }] == other);
        }
    }
    if q.contains(resolver) {
        let i = q.index_of(resolver);
        assert(q[i] == p[if i < at {
            i
        } else {
            i + 1
        }]);
    }
}

/// Admission keeps a scan well formed.
pub proof fn lemma_admission_keeps_wf(s: ScanView, queryable: bool)
    requires
        s.wf(),
    ensures
        s.after_admission(queryable).wf(),
{
    let t = s.after_admission(queryable);
    if s.can_admit() {
        if queryable {
            lemma_assigned(s.policy, s.pool, s.next);
            let fresh = RaceView {
                candidate: s.next,
                pending: assigned(s.policy, s.pool, s.next),
            };
            assert(t.races == s.races.push(fresh));
            assert forall|k: int| 0 <= k < t.races.len() implies {
                &&& (#[trigger] t.races[k]).candidate < t.next
                &&& t.races[k].pending.len() > 0
                &&& t.races[k].wf(t.policy, t.pool)
            } by {
                if k < s.races.len() {
                    assert(t.races[k] == s.races[k]);
                } else {
                    assert(t.races[k] == fresh);
                    assert forall|i: int| 0 <= i < fresh.pending.len() implies assigned(
                        s.policy,
                        s.pool,
                        fresh.candidate,
                    ).contains(#[trigger] fresh.pending[i]) by {
                        assert(assigned(s.policy, s.pool, fresh.candidate)[i]
                            == fresh.pending[i]);
                    }
                }
            }
        }
        assert forall|j: int| 0 <= j < t.resolved.len() implies t.is_settled(
            #[trigger] t.resolved[j],
        ) by {
            let c = t.resolved[j];
            assert(s.is_settled(s.resolved[j]));
            if t.is_racing(c) {
                let k = t.race_of(c);
                if k < s.races.len() {
                    assert(s.races[k].candidate == c);
                }
            }
        }
    }
}

/// What taking the race of `candidate` out of the races in flight leaves: it
/// races no more, and every other candidate races as before.
pub proof fn lemma_race_removed(s: ScanView, candidate: usize)
    requires
        s.wf(),
        s.is_racing(candidate),
    ensures
        0 <= s.race_of(candidate) < s.races.len(),
        s.races[s.race_of(candidate)].candidate == candidate,
        forall|k: int|
            0 <= k < s.races.len() && (#[trigger] s.races[k]).candidate == candidate ==> k
                == s.race_of(candidate),
        ({
            let rest = s.races.remove(s.race_of(candidate));
            &&& rest.len() == s.races.len() - 1
            &&& forall|i: int|
                0 <= i < rest.len() ==> #[trigger] rest[i] == s.races[if i < s.race_of(candidate) {
                    i
                } else {
                    i + 1
                }]
            &&& forall|i: int| 0 <= i < rest.len() ==> (#[trigger] rest[i]).candidate != candidate
        }),
{
    let k = s.race_of(candidate);
    assert forall|j: int|
        0 <= j < s.races.len() && (#[trigger] s.races[j]).candidate == candidate implies j
        == k by {
        if j < k {
            assert(s.races[j].candidate != s.races[k].candidate);
        } else if k < j {
            assert(s.races[k].candidate != s.races[j].candidate);
        }
    }
    let rest = s.races.remove(k);
    assert forall|i: int| 0 <= i < rest.len() implies (#[trigger] rest[i]).candidate
        != candidate by {
        let j = if i < k {
            i
        } else {
            i + 1
        };
        assert(rest[i] == s.races[j]);
    }
}

/// An answer keeps a scan well formed.
pub proof fn lemma_answer_keeps_wf(s: ScanView, candidate: usize, resolver: usize, positive: bool)
    requires
        s.wf(),
    ensures
        s.after_answer(candidate, resolver, positive).wf(),
{
    let t = s.after_answer(candidate, resolver, positive);
    let verdict = s.verdict(candidate, resolver, positive);
    if verdict != Verdict::Discarded {
        assert(s.is_racing(candidate));
        lemma_race_removed(s, candidate);
        let k = s.race_of(candidate);
        let race = s.races[k];
        assert(race.holds(resolver));
        lemma_race_after(race, resolver, s.policy, s.pool);
        if verdict == Verdict::Running {
            assert(t.races == s.races.update(k, race.after(resolver)));
            assert forall|j: int| 0 <= j < t.resolved.len() implies t.is_settled(
                #[trigger] t.resolved[j],
            ) by {
                let c = t.resolved[j];
                assert(s.is_settled(s.resolved[j]));
                if t.is_racing(c) {
                    let i = t.race_of(c);
                    assert(s.races[i].candidate == c);
                }
            }
        } else {
            let rest = s.races.remove(k);
            assert(t.races == rest);
            assert forall|i: int, j: int| 0 <= i < j < rest.len() implies (
            #[trigger] rest[i]).candidate != (#[trigger] rest[j]).candidate by {
                let a = if i < k {
                    i
                } else {
                    i + 1
                };
                let b = if j < k {
                    j
                } else {
                    j + 1
                };
                assert(rest[i] == s.races[a]);
                assert(rest[j] == s.races[b]);
            }
            assert(!t.is_racing(candidate));
            if verdict == Verdict::Won {
                assert(!s.is_resolved(candidate)) by {
                    if s.resolved.contains(candidate) {
                        let j = s.resolved.index_of(candidate);
                        assert(s.is_settled(s.resolved[j]));
                    }
                }
                assert(t.resolved == s.resolved.push(candidate));
                assert(t.resolved.no_duplicates());
            }
            assert forall|j: int| 0 <= j < t.resolved.len() implies t.is_settled(
                #[trigger] t.resolved[j],
            ) by {
                let c = t.resolved[j];
                if j < s.resolved.len() {
                    assert(s.is_settled(s.resolved[j]));
                }
                if t.is_racing(c) {
                    let i = t.race_of(c);
                    let a = if i < k {
                        i
                    } else {
                        i + 1
                    };
                    assert(rest[i] == s.races[a]);
                }
            }
        }
    }
}

/// Every event keeps a scan well formed.
pub proof fn lemma_step_keeps_wf(s: ScanView, event: Event)
    requires
        s.wf(),
    ensures
        s.step(event).wf(),
{
    match event {
        Event::Admit { queryable } => lemma_admission_keeps_wf(s, queryable),
        Event::Answer { candidate, resolver, positive } => lemma_answer_keeps_wf(
            s,
            candidate,
            resolver,
            positive,
        ),
    }
}

} // verus!
