//! The subdomain scanner: a validated configuration from which scans start.

use vstd::prelude::*;
use crate::dns::DnsRecordType;
use crate::endpoint::ResolverEndpoint;
use crate::model::ScanView;
use crate::race::AssignmentPolicy;
use crate::scan::{ConfigError, Scan, candidate_names};
use crate::text::{
    contains_char, copy_texts, is_blank, lemma_trimmed_empty, texts, trim, trimmed,
};

verus! {

/// The lines that hold more than white space, in their order.
pub open spec fn non_blank(lines: Seq<Seq<char>>) -> Seq<Seq<char>>
    decreases lines.len(),
{
    if lines.len() == 0 {
        Seq::empty()
    } else if is_blank(lines.last()) {
        non_blank(lines.drop_last())
    } else {
        non_blank(lines.drop_last()).push(lines.last())
    }
}

/// The address text of a resolver line: the line itself where it holds a
/// colon, else the trimmed line with the default port.
pub open spec fn address_text(line: Seq<char>) -> Seq<char> {
    if line.contains(':') {
        line
    } else {
        trimmed(line) + seq![':', '5', '3']
    }
}

/// Gives the address text of a resolver line.
pub fn resolver_address_text(line: &str) -> (text: String)
    ensures
        text@ == address_text(line@),
{
    if contains_char(line, ':') {
        line.to_owned()
    } else {
        let mut text = trim(line).to_owned();
        proof {
            reveal_strlit(":53");
            assert(":53"@ =~= seq![':', '5', '3']);
        }
        text.append(":53");
        text
    }
}

/// Keeps the lines that hold more than white space.
pub fn keep_non_blank(lines: Vec<String>) -> (kept: Vec<String>)
    ensures
        texts(kept@) == non_blank(texts(lines@)),
{
    let mut kept: Vec<String> = Vec::new();
    let mut i: usize = 0;
    let ghost all = texts(lines@);
    assert(all.take(0) =~= Seq::<Seq<char>>::empty());
    while i < lines.len()
        invariant
            i <= lines@.len(),
            all == texts(lines@),
            texts(kept@) == non_blank(all.take(i as int)),
        decreases lines@.len() - i,
    {
        let ghost before = texts(kept@);
        proof {
            lemma_trimmed_empty(lines@[i as int]@);
            assert(all.take(i + 1).drop_last() =~= all.take(i as int));
            assert(all.take(i + 1).last() == lines@[i as int]@);
        }
        if !trim(lines[i].as_str()).is_empty() {
            kept.push(lines[i].clone());
            assert(texts(kept@) =~= before.push(lines@[i as int]@));
        }
        i = i + 1;
    }
    assert(all.take(i as int) =~= all);
    kept
}

/// A validated scanner configuration as a mathematical value.
pub struct ScannerView {
    pub resolvers: Seq<ResolverEndpoint>,
    pub domain: Seq<char>,
    pub subdomains: Seq<Seq<char>>,
    pub timeout_secs: u64,
    pub concurrency_limit: u32,
    pub policy: AssignmentPolicy,
    pub record_type: DnsRecordType,
}

impl ScannerView {
    /// There is a resolver, a candidate and a permit.
    pub open spec fn wf(self) -> bool {
        &&& self.resolvers.len() > 0
        &&& self.subdomains.len() > 0
        &&& self.concurrency_limit > 0
    }
}

/// A pool of resolvers, a base domain and the labels to try under it.
#[derive(Debug)]
pub struct SubdomainScanner {
    resolvers: Vec<ResolverEndpoint>,
    domain: String,
    subdomains: Vec<String>,
    timeout_secs: u64,
    concurrency_limit: u32,
    policy: AssignmentPolicy,
    record_type: DnsRecordType,
}

impl View for SubdomainScanner {
    type V = ScannerView;

    closed spec fn view(&self) -> ScannerView {
        ScannerView {
            resolvers: self.resolvers@,
            domain: self.domain@,
            subdomains: texts(self.subdomains@),
            timeout_secs: self.timeout_secs,
            concurrency_limit: self.concurrency_limit,
            policy: self.policy,
            record_type: self.record_type,
        }
    }
}

impl SubdomainScanner {
    /// Builds a scanner from the resolvers that were read, the lines of the
    /// label list and the base domain. Blank label lines are dropped. An empty
    /// resolver pool, an empty label list and a concurrency limit of zero are
    /// refused, in this order. One resolver is assigned to each candidate, in
    /// turn, and asked for `A` records.
    pub fn new(
        resolvers: Vec<ResolverEndpoint>,
        subdomain_lines: Vec<String>,
        domain: &str,
        timeout_secs: u64,
        concurrency_limit: u32,
    ) -> (made: Result<SubdomainScanner, ConfigError>)
        ensures
            resolvers@.len() == 0 ==> made == Err::<SubdomainScanner, ConfigError>(
                ConfigError::NoResolvers,
            ),
            resolvers@.len() > 0 && non_blank(texts(subdomain_lines@)).len() == 0 ==> made
                == Err::<SubdomainScanner, ConfigError>(ConfigError::NoCandidates),
            resolvers@.len() > 0 && non_blank(texts(subdomain_lines@)).len() > 0
                && concurrency_limit == 0 ==> made == Err::<SubdomainScanner, ConfigError>(
                ConfigError::ZeroCeiling,
            ),
            resolvers@.len() > 0 && non_blank(texts(subdomain_lines@)).len() > 0
                && concurrency_limit > 0 ==> made is Ok,
            made is Ok ==> made->Ok_0@ == (ScannerView {
                resolvers: resolvers@,
                domain: domain@,
                subdomains: non_blank(texts(subdomain_lines@)),
                timeout_secs,
                concurrency_limit,
                policy: AssignmentPolicy::RoundRobin,
                record_type: DnsRecordType::A,
            }) && made->Ok_0@.wf(),
    {
        if resolvers.len() == 0 {
            return Err(ConfigError::NoResolvers);
        }
        let subdomains = keep_non_blank(subdomain_lines);
        if subdomains.len() == 0 {
            return Err(ConfigError::NoCandidates);
        }
        if concurrency_limit == 0 {
            return Err(ConfigError::ZeroCeiling);
        }
        Ok(
            SubdomainScanner {
                resolvers,
                domain: domain.to_owned(),
                subdomains,
                timeout_secs,
                concurrency_limit,
                policy: AssignmentPolicy::RoundRobin,
                record_type: DnsRecordType::A,
            },
        )
    }

    /// The same scanner with another way of assigning resolvers.
    pub fn with_policy(self, policy: AssignmentPolicy) -> (changed: SubdomainScanner)
        ensures
            changed@ == (ScannerView { policy, ..self@ }),
    {
        SubdomainScanner {
            resolvers: self.resolvers,
            domain: self.domain,
            subdomains: self.subdomains,
            timeout_secs: self.timeout_secs,
            concurrency_limit: self.concurrency_limit,
            policy,
            record_type: self.record_type,
        }
    }

    /// The same scanner asking for records of another type.
    pub fn with_record_type(self, record_type: DnsRecordType) -> (changed: SubdomainScanner)
        ensures
            changed@ == (ScannerView { record_type, ..self@ }),
    {
        SubdomainScanner {
            resolvers: self.resolvers,
            domain: self.domain,
            subdomains: self.subdomains,
            timeout_secs: self.timeout_secs,
            concurrency_limit: self.concurrency_limit,
            policy: self.policy,
            record_type,
        }
    }

    /// The resolver pool.
    pub fn resolvers(&self) -> (pool: &Vec<ResolverEndpoint>)
        ensures
            pool@ == self@.resolvers,
    {
        &self.resolvers
    }

    /// The base domain.
    pub fn domain(&self) -> (domain: &str)
        ensures
            domain@ == self@.domain,
    {
        self.domain.as_str()
    }

    /// The labels to try.
    pub fn subdomains(&self) -> (labels: &Vec<String>)
        ensures
            texts(labels@) == self@.subdomains,
    {
        &self.subdomains
    }

    /// The time each sub-query is given, in seconds.
    pub fn timeout_secs(&self) -> (secs: u64)
        ensures
            secs == self@.timeout_secs,
    {
        self.timeout_secs
    }

    /// The largest number of races in flight at once.
    pub fn concurrency_limit(&self) -> (limit: u32)
        ensures
            limit == self@.concurrency_limit,
    {
        self.concurrency_limit
    }

    /// The type of record that is asked for.
    pub fn record_type(&self) -> (record_type: DnsRecordType)
        ensures
            record_type == self@.record_type,
    {
        self.record_type
    }

    /// How resolvers are assigned to candidates.
    pub fn policy(&self) -> (policy: AssignmentPolicy)
        ensures
            policy == self@.policy,
    {
        self.policy
    }

    /// Starts a scan of every label under the base domain: none admitted yet,
    /// no race in flight, nothing resolved.
    pub fn scan(&self) -> (scan: Scan)
        requires
            self@.wf(),
        ensures
            scan.wf(),
            scan.timeout() == self@.timeout_secs,
            scan.record_type() == self@.record_type,
            scan@ == ScanView::start(
                candidate_names(self@.subdomains, self@.domain),
                self@.resolvers.len() as usize,
                self@.policy,
                self@.concurrency_limit as usize,
            ),
    {
        Scan::start(
            copy_texts(&self.subdomains),
            self.domain.clone(),
            self.resolvers.len(),
            self.policy,
            self.concurrency_limit as usize,
            self.timeout_secs,
        ).with_record_type(self.record_type)
    }
}

} // verus!
