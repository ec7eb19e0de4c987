//! The scan in execution: admission under the concurrency ceiling, the races
//! in flight, and the report that the answers add up to.

use vstd::prelude::*;
use crate::dns::{DnsRecordType, dns_name_parses, is_queryable, query_text};
use crate::governor::Governor;
use crate::model::{
    Event, ReportView, ScanView, lemma_admission_keeps_wf, lemma_answer_keeps_wf, lemma_race_removed,
};
use crate::race::{AssignmentPolicy, Race, RaceView, Verdict, assign, assigned};
use crate::text::{candidate_name, compose_name, texts};

verus! {

/// Why a scan cannot be set up.
#[derive(Clone, Copy, PartialEq, Eq, Structural, Debug)]
pub enum ConfigError {
    /// The resolver pool is empty.
    NoResolvers,
    /// There is no candidate to resolve.
    NoCandidates,
    /// The concurrency ceiling is zero.
    ZeroCeiling,
}

/// The final account of a scan: the names that resolved, in the order in
/// which their races were won, the number of candidates that were raced, and
/// the size of the resolver pool.
#[derive(Debug, PartialEq, Eq)]
pub struct Report {
    pub resolved: Vec<String>,
    pub total_scanned: usize,
    pub resolvers_used: usize,
}

impl View for Report {
    type V = ReportView;

    open spec fn view(&self) -> ReportView {
        ReportView {
            resolved: texts(self.resolved@),
            total_scanned: self.total_scanned,
            resolvers_used: self.resolvers_used,
        }
    }
}

/// One admitted candidate: the name to query, the resolvers to race, by their
/// position in the pool, the time each sub-query is given, and the type of
/// record to ask for.
#[derive(Debug)]
pub struct Job {
    pub candidate: usize,
    pub name: String,
    pub resolvers: Vec<usize>,
    pub timeout_secs: u64,
    pub record_type: DnsRecordType,
}

/// What became of a request for admission.
#[derive(Debug)]
pub enum Admission {
    /// No candidate is left, or no permit is free.
    Refused,
    /// The candidate's race is started: its sub-queries are to be launched.
    Started(Job),
    /// The candidate's name cannot be queried: it is counted as unresolved.
    Skipped { candidate: usize },
}

/// What an answer did to the scan.
#[derive(Debug)]
pub enum RaceStep {
    /// The answer belonged to no running sub-query and was dropped.
    Discarded,
    /// A negative answer; the race goes on with the other resolvers.
    Pending,
    /// The last resolver answered negatively: the candidate is unresolved.
    Unresolved,
    /// The first positive answer: the candidate is resolved under `name`, and
    /// the sub-queries at the resolvers in `cancel` are to be cancelled.
    Resolved { name: String, cancel: Vec<usize> },
}

/// A scan in progress.
pub struct Scan {
    labels: Vec<String>,
    domain: String,
    pool: usize,
    policy: AssignmentPolicy,
    timeout_secs: u64,
    record_type: DnsRecordType,
    governor: Governor,
    next: usize,
    races: Vec<Race>,
    resolved: Vec<usize>,
    scanned: usize,
}

/// The candidate names that labels and a base domain make.
pub open spec fn candidate_names(labels: Seq<Seq<char>>, domain: Seq<char>) -> Seq<Seq<char>> {
    Seq::new(labels.len(), |i: int| candidate_name(labels[i], domain))
}

impl View for Scan {
    type V = ScanView;

    closed spec fn view(&self) -> ScanView {
        ScanView {
            names: candidate_names(texts(self.labels@), self.domain@),
            pool: self.pool,
            policy: self.policy,
            ceiling: self.governor.ceiling() as usize,
            next: self.next,
            races: Seq::new(self.races@.len(), |k: int| self.races@[k]@),
            resolved: self.resolved@,
            scanned: self.scanned,
        }
    }
}

impl Scan {
    /// The permits that are out are the races in flight.
    pub closed spec fn gate_matches(&self) -> bool {
        &&& self.governor.wf()
        &&& self.governor.ceiling() <= usize::MAX
        &&& self.governor.outstanding() == self.races@.len()
    }

    /// The scan is well formed.
    pub open spec fn wf(&self) -> bool {
        self.gate_matches() && self@.wf()
    }

    /// The time each sub-query is given, in seconds.
    pub closed spec fn timeout(&self) -> u64 {
        self.timeout_secs
    }

    /// The type of record that the sub-queries ask for.
    pub closed spec fn record_type(&self) -> DnsRecordType {
        self.record_type
    }

    /// Whether the name of the next candidate can be put into a query.
    pub open spec fn next_queryable(&self) -> bool {
        dns_name_parses(query_text(self@.names[self@.next as int]))
    }

    /// Sets up a scan of the candidates that `labels` and `domain` make,
    /// against a pool of `pool` resolvers, with at most `ceiling` races in
    /// flight. An empty pool, an empty candidate list and a ceiling of zero are
    /// refused, in this order. The sub-queries ask for `A` records.
    pub fn new(
        labels: Vec<String>,
        domain: String,
        pool: usize,
        policy: AssignmentPolicy,
        ceiling: usize,
        timeout_secs: u64,
    ) -> (made: Result<Scan, ConfigError>)
        ensures
            pool == 0 ==> made == Err::<Scan, ConfigError>(ConfigError::NoResolvers),
            pool > 0 && labels@.len() == 0 ==> made == Err::<Scan, ConfigError>(
                ConfigError::NoCandidates,
            ),
            pool > 0 && labels@.len() > 0 && ceiling == 0 ==> made == Err::<Scan, ConfigError>(
                ConfigError::ZeroCeiling,
            ),
            pool > 0 && labels@.len() > 0 && ceiling > 0 ==> made is Ok,
            made is Ok ==> {
                let scan = made->Ok_0;
                &&& scan.wf()
                &&& scan.timeout() == timeout_secs
                &&& scan.record_type() == DnsRecordType::A
                &&& scan@ == ScanView::start(
                    candidate_names(texts(labels@), domain@),
                    pool,
                    policy,
                    ceiling,
                )
            },
    {
        if pool == 0 {
            return Err(ConfigError::NoResolvers);
        }
        if labels.len() == 0 {
            return Err(ConfigError::NoCandidates);
        }
        if ceiling == 0 {
            return Err(ConfigError::ZeroCeiling);
        }
        Ok(Scan::start(labels, domain, pool, policy, ceiling, timeout_secs))
    }

    /// Sets up a scan from a configuration that is known to be sound.
    pub fn start(
        labels: Vec<String>,
        domain: String,
        pool: usize,
        policy: AssignmentPolicy,
        ceiling: usize,
        timeout_secs: u64,
    ) -> (scan: Scan)
        requires
            pool > 0,
            labels@.len() > 0,
            ceiling > 0,
        ensures
            scan.wf(),
            scan.timeout() == timeout_secs,
            scan.record_type() == DnsRecordType::A,
            scan@ == ScanView::start(
                candidate_names(texts(labels@), domain@),
                pool,
                policy,
                ceiling,
            ),
    {
        assert(labels@.len() == labels.len());
        let scan = Scan {
            labels,
            domain,
            pool,
            policy,
            timeout_secs,
            record_type: DnsRecordType::A,
            governor: Governor::with_ceiling(ceiling),
            next: 0,
            races: Vec::new(),
            resolved: Vec::new(),
            scanned: 0,
        };
        assert(scan@.races =~= Seq::<RaceView>::empty());
        scan
    }

    /// The same scan, its sub-queries asking for records of another type.
    pub fn with_record_type(self, record_type: DnsRecordType) -> (changed: Scan)
        ensures
            changed@ == self@,
            changed.wf() == self.wf(),
            changed.timeout() == self.timeout(),
            changed.record_type() == record_type,
    {
        let changed = Scan {
            labels: self.labels,
            domain: self.domain,
            pool: self.pool,
            policy: self.policy,
            timeout_secs: self.timeout_secs,
            record_type,
            governor: self.governor,
            next: self.next,
            races: self.races,
            resolved: self.resolved,
            scanned: self.scanned,
        };
        assert(changed@.races =~= self@.races);
        changed
    }

    /// The number of candidates.
    pub fn candidates(&self) -> (n: usize)
        ensures
            n == self@.names.len(),
    {
        self.labels.len()
    }

    /// The size of the resolver pool.
    pub fn pool_size(&self) -> (n: usize)
        ensures
            n == self@.pool,
    {
        self.pool
    }

    /// The number of races in flight.
    pub fn in_flight(&self) -> (n: usize)
        requires
            self.wf(),
        ensures
            n == self@.races.len(),
            n <= self@.ceiling,
    {
        self.governor.in_flight()
    }

    /// The number of candidates whose outcome is known.
    pub fn scanned(&self) -> (n: usize)
        ensures
            n == self@.scanned,
    {
        self.scanned
    }

    /// Tells whether every candidate was admitted and every race has ended.
    pub fn is_finished(&self) -> (done: bool)
        ensures
            done == self@.finished(),
    {
        self.next == self.labels.len() && self.races.len() == 0
    }

    /// The name of the candidate at position `candidate`.
    pub fn name_of(&self, candidate: usize) -> (name: String)
        requires
            candidate < self@.names.len(),
        ensures
            name@ == self@.names[candidate as int],
    {
        compose_name(self.labels[candidate].as_str(), self.domain.as_str())
    }

    /// Finds the race of `candidate` among those in flight.
    fn find_race(&self, candidate: usize) -> (found: Option<usize>)
        ensures
            match found {
                Some(k) => k < self@.races.len() && self@.races[k as int].candidate == candidate,
                None => !self@.is_racing(candidate),
            },
    {
        let mut k: usize = 0;
        while k < self.races.len()
            invariant
                k <= self.races@.len(),
                forall|j: int| 0 <= j < k ==> (#[trigger] self@.races[j]).candidate != candidate,
            decreases self.races@.len() - k,
        {
            if self.races[k].candidate() == candidate {
                return Some(k);
            }
            k = k + 1;
        }
        None
    }

    /// Asks for the admission of the next candidate, `queryable` telling
    /// whether its name can be put into a query.
    pub fn admit_checked(&mut self, queryable: bool) -> (admission: Admission)
        requires
            old(self).wf(),
        ensures
            final(self).wf(),
            final(self)@ == old(self)@.after_admission(queryable),
            final(self).timeout() == old(self).timeout(),
            final(self).record_type() == old(self).record_type(),
            match admission {
                Admission::Refused => !old(self)@.can_admit(),
                Admission::Started(job) => {
                    &&& old(self)@.can_admit()
                    &&& queryable
                    &&& job.candidate == old(self)@.next
                    &&& job.name@ == old(self)@.names[old(self)@.next as int]
                    &&& job.resolvers@ == assigned(
                        old(self)@.policy,
                        old(self)@.pool,
                        old(self)@.next,
                    )
                    &&& job.timeout_secs == old(self).timeout()
                    &&& job.record_type == old(self).record_type()
                },
                Admission::Skipped { candidate } => {
                    &&& old(self)@.can_admit()
                    &&& !queryable
                    &&& candidate == old(self)@.next
                },
            },
    {
        proof {
            lemma_admission_keeps_wf(self@, queryable);
        }
        if self.next >= self.labels.len() || self.governor.in_flight() >= self.governor.limit() {
            return Admission::Refused;
        }
        let candidate = self.next;
        if !queryable {
            self.next = self.next + 1;
            self.scanned = self.scanned + 1;
            assert(self@.races =~= old(self)@.races);
            return Admission::Skipped { candidate };
        }
        let granted = self.governor.try_acquire();
        assert(granted);
        let name = self.name_of(candidate);
        let race = Race::start(self.policy, self.pool, candidate);
        let resolvers = assign(self.policy, self.pool, candidate);
        self.races.push(race);
        self.next = self.next + 1;
        assert(self@.races =~= old(self)@.races.push(
            RaceView { candidate, pending: assigned(self.policy, self.pool, candidate) },
        ));
        Admission::Started(
            Job {
                candidate,
                name,
                resolvers,
                timeout_secs: self.timeout_secs,
                record_type: self.record_type,
            },
        )
    }

    /// Asks for the admission of the next candidate.
    pub fn admit_next(&mut self) -> (admission: Admission)
        requires
            old(self).wf(),
        ensures
            final(self).wf(),
            final(self)@ == old(self)@.after_admission(old(self).next_queryable()),
            final(self).timeout() == old(self).timeout(),
            final(self).record_type() == old(self).record_type(),
            match admission {
                Admission::Refused => !old(self)@.can_admit(),
                Admission::Started(job) => {
                    &&& old(self)@.can_admit()
                    &&& old(self).next_queryable()
                    &&& job.candidate == old(self)@.next
                    &&& job.name@ == old(self)@.names[old(self)@.next as int]
                    &&& job.resolvers@ == assigned(
                        old(self)@.policy,
                        old(self)@.pool,
                        old(self)@.next,
                    )
                    &&& job.timeout_secs == old(self).timeout()
                    &&& job.record_type == old(self).record_type()
                },
                Admission::Skipped { candidate } => {
                    &&& old(self)@.can_admit()
                    &&& !old(self).next_queryable()
                    &&& candidate == old(self)@.next
                },
            },
    {
        if self.next >= self.labels.len() || self.governor.in_flight() >= self.governor.limit() {
            return Admission::Refused;
        }
        let name = self.name_of(self.next);
        let queryable = is_queryable(name.as_str());
        self.admit_checked(queryable)
    }

    /// Takes the answer of one sub-query: `resolver` answered for
    /// `candidate`, positively or not.
    pub fn on_answer(&mut self, candidate: usize, resolver: usize, positive: bool) -> (step:
        RaceStep)
        requires
            old(self).wf(),
        ensures
            final(self).wf(),
            final(self)@ == old(self)@.after_answer(candidate, resolver, positive),
            final(self).timeout() == old(self).timeout(),
            final(self).record_type() == old(self).record_type(),
            match old(self)@.verdict(candidate, resolver, positive) {
                Verdict::Discarded => step is Discarded,
                Verdict::Running => step is Pending,
                Verdict::Lost => step is Unresolved,
                Verdict::Won => {
                    &&& step is Resolved
                    &&& step->name@ == old(self)@.names[candidate as int]
                    &&& step->cancel@ == old(self)@.races[old(self)@.race_of(
                        candidate,
                    )].after(resolver).pending
                },
            },
    {
        proof {
            lemma_answer_keeps_wf(self@, candidate, resolver, positive);
        }
        let k = match self.find_race(candidate) {
            None => {
                return RaceStep::Discarded;
            },
            Some(k) => k,
        };
        proof {
            lemma_race_removed(self@, candidate);
            assert(self@.race_of(candidate) == k);
        }
        let ghost before = self@.races[k as int];
        let mut race = self.races.remove(k);
        assert(race@ == before);
        assert(self@.races =~= old(self)@.races.remove(k as int));
        let verdict = race.answer(resolver, positive);
        match verdict {
            Verdict::Discarded => {
                self.races.insert(k, race);
                assert(self@.races =~= old(self)@.races);
                RaceStep::Discarded
            },
            Verdict::Running => {
                self.races.insert(k, race);
                assert(self@.races =~= old(self)@.races.update(k as int, before.after(resolver)));
                RaceStep::Pending
            },
            Verdict::Lost => {
                self.governor.release();
                self.scanned = self.scanned + 1;
                RaceStep::Unresolved
            },
            Verdict::Won => {
                self.governor.release();
                self.scanned = self.scanned + 1;
                self.resolved.push(candidate);
                let name = self.name_of(candidate);
                RaceStep::Resolved { name, cancel: race.into_pending() }
            },
        }
    }

    /// The account of a finished scan; none while the scan is going on.
    pub fn report(&self) -> (report: Option<Report>)
        requires
            self.wf(),
        ensures
            report is Some <==> self@.finished(),
            report is Some ==> report->Some_0@ == self@.report(),
            report is Some ==> report->Some_0.total_scanned == self@.names.len(),
            report is Some ==> report->Some_0.resolved@.len() <= self@.names.len(),
    {
        if !self.is_finished() {
            return None;
        }
        let mut names: Vec<String> = Vec::new();
        let mut j: usize = 0;
        while j < self.resolved.len()
            invariant
                self.wf(),
                j <= self.resolved@.len(),
                names@.len() == j,
                forall|i: int|
                    0 <= i < j ==> (#[trigger] names@[i])@ == self@.names[self@.resolved[i] as int],
            decreases self.resolved@.len() - j,
        {
            let candidate = self.resolved[j];
            assert(self@.is_settled(self@.resolved[j as int]));
            let name = self.name_of(candidate);
            names.push(name);
            j = j + 1;
        }
        let report = Report {
            resolved: names,
            total_scanned: self.scanned,
            resolvers_used: self.pool,
        };
        assert(report@.resolved =~= self@.report().resolved);
        Some(report)
    }

    /// Applies a sequence of events, first to last.
    pub fn replay(&mut self, events: &Vec<Event>)
        requires
            old(self).wf(),
        ensures
            final(self).wf(),
            final(self)@ == old(self)@.run(events@),
            final(self).timeout() == old(self).timeout(),
            final(self).record_type() == old(self).record_type(),
    {
        let mut i: usize = 0;
        assert(events@.take(0) =~= Seq::<Event>::empty());
        while i < events.len()
            invariant
                i <= events@.len(),
                self.wf(),
                self.timeout() == old(self).timeout(),
                self.record_type() == old(self).record_type(),
                self@ == old(self)@.run(events@.take(i as int)),
            decreases events@.len() - i,
        {
            proof {
                assert(events@.take(i + 1).drop_last() =~= events@.take(i as int));
                assert(events@.take(i + 1).last() == events@[i as int]);
            }
            match events[i] {
                Event::Admit { queryable } => {
                    let _ = self.admit_checked(queryable);
                },
                Event::Answer { candidate, resolver, positive } => {
                    let _ = self.on_answer(candidate, resolver, positive);
                },
            }
            i = i + 1;
        }
        assert(events@.take(i as int) =~= events@);
    }
}

} // verus!
