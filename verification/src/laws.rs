//! What holds of every scan, whatever the order in which answers arrive.

use vstd::prelude::*;
use crate::model::{
    Event, ScanView, Standing, lemma_answer_keeps_wf, lemma_race_after, lemma_race_removed,
    lemma_step_keeps_wf,
};
use crate::race::Verdict;

verus! {

/// No event of the sequence is a positive answer for `candidate`.
pub open spec fn no_positive_answer(events: Seq<Event>, candidate: usize) -> bool {
    forall|i: int|
        0 <= i < events.len() ==> #[trigger] events[i] != (Event::Answer {
            candidate,
            resolver: events[i]->resolver,
            positive: true,
        })
}

/// One event leaves the configuration of a scan alone, and only ever adds to
/// the end of the list of resolved candidates and to the candidates admitted
/// and counted.
pub proof fn lemma_step_extends(s: ScanView, event: Event)
    requires
        s.wf(),
    ensures
        s.step(event).names == s.names,
        s.step(event).pool == s.pool,
        s.step(event).policy == s.policy,
        s.step(event).ceiling == s.ceiling,
        s.resolved.is_prefix_of(s.step(event).resolved),
        s.next <= s.step(event).next,
        s.scanned <= s.step(event).scanned,
{
    let t = s.step(event);
    assert(s.resolved =~= s.resolved.subrange(0, s.resolved.len() as int));
    match event {
        Event::Admit { queryable } => {},
        Event::Answer { candidate, resolver, positive } => {
            if s.verdict(candidate, resolver, positive) == Verdict::Won {
                assert(s.resolved =~= s.resolved.push(candidate).subrange(
                    0,
                    s.resolved.len() as int,
                ));
            }
        },
    }
}

/// Any sequence of events keeps a scan well formed and its configuration
/// unchanged, and only ever adds to the end of the list of resolved
/// candidates.
pub proof fn law_run_keeps_wf(s: ScanView, events: Seq<Event>)
    requires
        s.wf(),
    ensures
        s.run(events).wf(),
        s.run(events).names == s.names,
        s.run(events).pool == s.pool,
        s.run(events).policy == s.policy,
        s.run(events).ceiling == s.ceiling,
        s.resolved.is_prefix_of(s.run(events).resolved),
        s.next <= s.run(events).next,
        s.scanned <= s.run(events).scanned,
    decreases events.len(),
{
    if events.len() == 0 {
        assert(s.resolved =~= s.resolved.subrange(0, s.resolved.len() as int));
    } else {
        let mid = s.run(events.drop_last());
        law_run_keeps_wf(s, events.drop_last());
        lemma_step_keeps_wf(mid, events.last());
        lemma_step_extends(mid, events.last());
        let t = mid.step(events.last());
        assert(s.resolved =~= t.resolved.subrange(0, s.resolved.len() as int)) by {
            assert(s.resolved =~= mid.resolved.subrange(0, s.resolved.len() as int));
            assert(mid.resolved =~= t.resolved.subrange(0, mid.resolved.len() as int));
        }
    }
}

/// The ceiling is respected: whatever happens to a scan, the number of races
/// in flight never exceeds the ceiling it was set up with.
pub proof fn law_ceiling_respected(s: ScanView, events: Seq<Event>)
    requires
        s.wf(),
    ensures
        s.run(events).races.len() <= s.ceiling,
{
    law_run_keeps_wf(s, events);
}

/// Completeness: the report of a finished scan counts every candidate, and
/// lists no more names than there are candidates.
pub proof fn law_report_complete(s: ScanView)
    requires
        s.wf(),
        s.finished(),
    ensures
        s.report().total_scanned == s.names.len(),
        s.report().resolved.len() <= s.names.len(),
        s.report().resolvers_used == s.pool,
{
}

/// One outcome for each candidate: a candidate is listed as resolved once if
/// its race was won and never otherwise, and in a finished scan every
/// candidate is either resolved or unresolved.
pub proof fn law_one_outcome(s: ScanView, candidate: usize)
    requires
        s.wf(),
        candidate < s.names.len(),
    ensures
        s.times_resolved(candidate) == if s.standing(candidate) == Standing::Resolved {
            1nat
        } else {
            0nat
        },
        s.finished() ==> s.standing(candidate) == Standing::Resolved || s.standing(candidate)
            == Standing::Unresolved,
{
    s.resolved.to_multiset_ensures();
    s.resolved.lemma_multiset_has_no_duplicates();
    if s.resolved.contains(candidate) {
        let j = s.resolved.index_of(candidate);
        assert(s.is_settled(s.resolved[j]));
    }
}

/// A positive answer from a running resolver wins the race: the candidate is
/// added to the end of the resolved list, its race leaves the races in
/// flight, and whatever happens afterwards it stays listed exactly once.
pub proof fn law_positive_answer_resolves_once(
    s: ScanView,
    candidate: usize,
    resolver: usize,
    later: Seq<Event>,
)
    requires
        s.wf(),
        s.is_racing(candidate),
        s.races[s.race_of(candidate)].holds(resolver),
    ensures
        s.after_answer(candidate, resolver, true).resolved == s.resolved.push(candidate),
        !s.after_answer(candidate, resolver, true).is_racing(candidate),
        s.after_answer(candidate, resolver, true).run(later).times_resolved(candidate) == 1,
        s.after_answer(candidate, resolver, true).run(later).standing(candidate)
            == Standing::Resolved,
{
    let t = s.after_answer(candidate, resolver, true);
    lemma_answer_keeps_wf(s, candidate, resolver, true);
    lemma_race_removed(s, candidate);
    assert(t.resolved == s.resolved.push(candidate));
    assert(t.resolved[s.resolved.len() as int] == candidate);
    assert(t.is_settled(t.resolved[s.resolved.len() as int]));
    let u = t.run(later);
    law_run_keeps_wf(t, later);
    assert(u.resolved[s.resolved.len() as int] == candidate) by {
        assert(t.resolved =~= u.resolved.subrange(0, t.resolved.len() as int));
        assert(u.resolved.subrange(0, t.resolved.len() as int)[s.resolved.len() as int]
            == u.resolved[s.resolved.len() as int]);
    }
    assert(u.is_settled(u.resolved[s.resolved.len() as int]));
    law_one_outcome(u, candidate);
}

/// The event is an answer of `resolver` for `candidate`.
pub open spec fn answers_from(event: Event, candidate: usize, resolver: usize) -> bool {
    event is Answer && event->candidate == candidate && event->resolver == resolver
}

/// The race of `candidate` is in flight and `resolver` is still running in
/// it.
pub open spec fn awaits(s: ScanView, candidate: usize, resolver: usize) -> bool {
    s.is_racing(candidate) && s.races[s.race_of(candidate)].holds(resolver)
}

/// Running two sequences of events one after the other is running their
/// concatenation.
pub proof fn lemma_run_concat(s: ScanView, first: Seq<Event>, then: Seq<Event>)
    ensures
        s.run(first + then) == s.run(first).run(then),
    decreases then.len(),
{
    if then.len() == 0 {
        assert(first + then =~= first);
    } else {
        lemma_run_concat(s, first, then.drop_last());
        assert((first + then).drop_last() =~= first + then.drop_last());
        assert((first + then).last() == then.last());
    }
}

/// An event that is no answer of `resolver` for `candidate` leaves the
/// resolver running in the candidate's race, unless it resolves the
/// candidate.
pub proof fn lemma_step_keeps_awaiting(s: ScanView, event: Event, candidate: usize, resolver: usize)
    requires
        s.wf(),
        awaits(s, candidate, resolver),
        !answers_from(event, candidate, resolver),
    ensures
        s.step(event).is_resolved(candidate) || awaits(s.step(event), candidate, resolver),
{
    let t = s.step(event);
    lemma_step_keeps_wf(s, event);
    lemma_race_removed(s, candidate);
    let k = s.race_of(candidate);
    let race = s.races[k];
    match event {
        Event::Admit { queryable } => {
            if s.can_admit() && queryable {
                assert(t.races[k] == race);
                lemma_race_removed(t, candidate);
            }
        },
        Event::Answer { candidate: c2, resolver: r2, positive } => {
            let verdict = s.verdict(c2, r2, positive);
            if verdict != Verdict::Discarded {
                lemma_race_removed(s, c2);
                let k2 = s.race_of(c2);
                if c2 == candidate {
                    assert(k2 == k);
                    assert(r2 != resolver);
                    lemma_race_after(race, r2, s.policy, s.pool);
                    if verdict == Verdict::Running {
                        assert(t.races[k] == race.after(r2));
                        lemma_race_removed(t, candidate);
                    } else if verdict == Verdict::Won {
                        assert(t.resolved == s.resolved.push(candidate));
                        assert(t.resolved[s.resolved.len() as int] == candidate);
                    } else {
                        assert(race.pending.len() == 1);
                        let i = race.pending.index_of(resolver);
                        let j = race.pending.index_of(r2);
                        assert(race.pending[i] == resolver && race.pending[j] == r2);
                    }
                } else {
                    assert(k2 != k);
                    if verdict == Verdict::Running {
                        assert(t.races[k] == race);
                    } else {
                        let at = if k < k2 {
                            k
                        } else {
                            k - 1
                        };
                        assert(t.races == s.races.remove(k2));
                        assert(t.races[at] == race);
                    }
                    lemma_race_removed(t, candidate);
                }
            }
        },
    }
}

/// While no answer of `resolver` for `candidate` has come, the resolver is
/// still running in the candidate's race, unless the candidate is resolved.
pub proof fn lemma_run_keeps_awaiting(
    s: ScanView,
    events: Seq<Event>,
    candidate: usize,
    resolver: usize,
)
    requires
        s.wf(),
        awaits(s, candidate, resolver),
        forall|j: int| 0 <= j < events.len() ==> !answers_from(events[j], candidate, resolver),
    ensures
        s.run(events).wf(),
        s.run(events).is_resolved(candidate) || awaits(s.run(events), candidate, resolver),
    decreases events.len(),
{
    law_run_keeps_wf(s, events);
    if events.len() > 0 {
        let front = events.drop_last();
        assert forall|j: int| 0 <= j < front.len() implies !answers_from(
            front[j],
            candidate,
            resolver,
        ) by {
            assert(front[j] == events[j]);
        }
        lemma_run_keeps_awaiting(s, front, candidate, resolver);
        let mid = s.run(front);
        let last = events.last();
        assert(last == events[events.len() - 1]);
        if mid.is_resolved(candidate) {
            lemma_step_keeps_wf(mid, last);
            lemma_step_extends(mid, last);
            lemma_stays_resolved(mid, mid.step(last), candidate);
        } else {
            lemma_step_keeps_awaiting(mid, last, candidate, resolver);
        }
    }
}

/// A candidate that is listed stays listed when the list grows at its end.
pub proof fn lemma_stays_resolved(s: ScanView, t: ScanView, candidate: usize)
    requires
        s.is_resolved(candidate),
        s.resolved.is_prefix_of(t.resolved),
    ensures
        t.is_resolved(candidate),
{
    let j = s.resolved.index_of(candidate);
    assert(s.resolved =~= t.resolved.subrange(0, s.resolved.len() as int));
    assert(t.resolved.subrange(0, s.resolved.len() as int)[j] == t.resolved[j]);
}

/// Race correctness, in any timing: where a resolver is running for a
/// candidate and its first answer is positive, the candidate is listed as
/// resolved exactly once after any sequence of events that holds that answer,
/// whatever the other answers are and wherever among them it arrives.
pub proof fn law_positive_answer_wins_in_any_order(
    s: ScanView,
    candidate: usize,
    resolver: usize,
    events: Seq<Event>,
    at: int,
)
    requires
        s.wf(),
        awaits(s, candidate, resolver),
        0 <= at < events.len(),
        events[at] == (Event::Answer { candidate, resolver, positive: true }),
        forall|j: int| 0 <= j < at ==> !answers_from(events[j], candidate, resolver),
    ensures
        s.run(events).times_resolved(candidate) == 1,
        s.run(events).standing(candidate) == Standing::Resolved,
{
    let before = events.take(at);
    let after = events.skip(at + 1);
    let hit = seq![events[at]];
    assert(events =~= (before + hit) + after);
    lemma_run_concat(s, before + hit, after);
    lemma_run_concat(s, before, hit);
    let mid = s.run(before);
    assert(hit.drop_last() =~= Seq::<Event>::empty());
    assert(mid.run(hit) == mid.step(events[at])) by {
        assert(hit.last() == events[at]);
        assert(mid.run(hit.drop_last()) == mid);
    }
    assert forall|j: int| 0 <= j < before.len() implies !answers_from(
        before[j],
        candidate,
        resolver,
    ) by {
        assert(before[j] == events[j]);
    }
    lemma_run_keeps_awaiting(s, before, candidate, resolver);
    let end = s.run(events);
    assert(end == mid.step(events[at]).run(after));
    if mid.is_resolved(candidate) {
        let next = mid.step(events[at]);
        lemma_step_keeps_wf(mid, events[at]);
        lemma_step_extends(mid, events[at]);
        lemma_stays_resolved(mid, next, candidate);
        law_run_keeps_wf(next, after);
        lemma_stays_resolved(next, end, candidate);
        let j = end.resolved.index_of(candidate);
        assert(end.is_settled(end.resolved[j]));
        law_one_outcome(end, candidate);
    } else {
        law_positive_answer_resolves_once(mid, candidate, resolver, after);
    }
}

/// Once a race has ended, further answers for its candidate are dropped: a
/// second positive answer changes nothing.
pub proof fn law_late_answer_discarded(
    s: ScanView,
    candidate: usize,
    resolver: usize,
    positive: bool,
)
    requires
        s.wf(),
        s.is_settled(candidate),
    ensures
        s.verdict(candidate, resolver, positive) == Verdict::Discarded,
        s.after_answer(candidate, resolver, positive) == s,
{
}

/// A candidate without a positive answer is never listed: if it is not
/// resolved, and no event is a positive answer for it, it is not resolved
/// afterwards.
pub proof fn law_no_positive_stays_unlisted(s: ScanView, candidate: usize, events: Seq<Event>)
    requires
        s.wf(),
        !s.is_resolved(candidate),
        no_positive_answer(events, candidate),
    ensures
        !s.run(events).is_resolved(candidate),
        s.run(events).times_resolved(candidate) == 0,
    decreases events.len(),
{
    if events.len() > 0 {
        let front = events.drop_last();
        assert(no_positive_answer(front, candidate)) by {
            assert forall|i: int| 0 <= i < front.len() implies #[trigger] front[i] != (
            Event::Answer { candidate, resolver: front[i]->resolver, positive: true }) by {
                assert(front[i] == events[i]);
            }
        }
        law_no_positive_stays_unlisted(s, candidate, front);
        let mid = s.run(front);
        law_run_keeps_wf(s, front);
        let last = events.last();
        assert(last == events[events.len() - 1]);
        match last {
            Event::Admit { queryable } => {},
            Event::Answer { candidate: c, resolver, positive } => {
                if mid.verdict(c, resolver, positive) == Verdict::Won {
                    assert(positive);
                    assert(c != candidate);
                    let t = mid.step(last);
                    assert(t.resolved == mid.resolved.push(c));
                    if t.resolved.contains(candidate) {
                        let j = t.resolved.index_of(candidate);
                        if j < mid.resolved.len() {
                            assert(mid.resolved[j] == candidate);
                        }
                    }
                }
            },
        }
    }
    s.run(events).resolved.to_multiset_ensures();
}

/// The last negative answer settles a race as lost: the candidate leaves the
/// races in flight, is counted, and is not listed.
pub proof fn law_last_negative_settles(s: ScanView, candidate: usize, resolver: usize)
    requires
        s.wf(),
        s.is_racing(candidate),
        s.races[s.race_of(candidate)].pending == seq![resolver],
    ensures
        s.after_answer(candidate, resolver, false).standing(candidate) == Standing::Unresolved,
        s.after_answer(candidate, resolver, false).scanned == s.scanned + 1,
        s.after_answer(candidate, resolver, false).resolved == s.resolved,
{
    let race = s.races[s.race_of(candidate)];
    assert(race.pending[0] == resolver);
    assert(race.holds(resolver));
    lemma_answer_keeps_wf(s, candidate, resolver, false);
    lemma_race_removed(s, candidate);
    let t = s.after_answer(candidate, resolver, false);
    assert(!t.is_racing(candidate));
    if s.resolved.contains(candidate) {
        let j = s.resolved.index_of(candidate);
        assert(s.is_settled(s.resolved[j]));
    }
}

} // verus!
