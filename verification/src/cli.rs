//! The command line's options, and the configuration they add up to.

use vstd::prelude::*;
use std::path::PathBuf;
use std::str::FromStr;
use rand::seq::SliceRandom;
use crate::dns::{DnsRecordType, record_type_of};
use crate::endpoint::ResolverEndpoint;
use crate::loader::{
    CliError, Lookup, accepted_domains, collect_resolvers, found_endpoints, malformed_domains,
    failed_lookups, pieces, select_domains, split_on,
};
use crate::text::{lowercased, same_text, texts, to_lowercase, trim, trimmed};

verus! {

/// `std::path::PathBuf`: an owned file path, carried through as it is.
#[verifier::external_type_specification]
#[verifier::external_body]
pub struct ExPathBuf(PathBuf);

/// How results are written.
#[derive(Debug, Clone, Copy, PartialEq, Eq, Structural)]
pub enum OutputFormat {
    Text,
    Json,
    Csv,
}

/// The output format that a text in small letters names.
pub open spec fn format_of(lower: Seq<char>) -> Option<OutputFormat> {
    if lower == "text"@ {
        Some(OutputFormat::Text)
    } else if lower == "json"@ {
        Some(OutputFormat::Json)
    } else if lower == "csv"@ {
        Some(OutputFormat::Csv)
    } else {
        None
    }
}

/// What is said of a text that names no output format.
pub open spec fn unknown_format(text: Seq<char>) -> Seq<char> {
    "Unknown output format: "@ + text
}

impl OutputFormat {
    /// Reads an output format from `lower`, the lower-case form of `text`;
    /// where it names none, the complaint quotes `text`.
    pub fn from_lowercase(lower: &str, text: &str) -> (parsed: Result<OutputFormat, String>)
        ensures
            match parsed {
                Ok(format) => format_of(lower@) == Some(format),
                Err(message) => format_of(lower@) is None && message@ == unknown_format(text@),
            },
    {
        if same_text(lower, "text") {
            Ok(OutputFormat::Text)
        } else if same_text(lower, "json") {
            Ok(OutputFormat::Json)
        } else if same_text(lower, "csv") {
            Ok(OutputFormat::Csv)
        } else {
            let mut message = "Unknown output format: ".to_owned();
            message.append(text);
            Err(message)
        }
    }

    /// Reads an output format from its name, whatever the case of its
    /// letters.
    pub fn parse(text: &str) -> (parsed: Result<OutputFormat, String>)
        ensures
            match parsed {
                Ok(format) => format_of(lowercased(text@)) == Some(format),
                Err(message) => format_of(lowercased(text@)) is None && message@
                    == unknown_format(text@),
            },
    {
        let lower = to_lowercase(text);
        OutputFormat::from_lowercase(lower.as_str(), text)
    }
}

impl FromStr for OutputFormat {
    type Err = String;

    /// Reads an output format from its name, whatever the case of its
    /// letters; where it names none, the complaint quotes the text.
    fn from_str(s: &str) -> (parsed: Result<OutputFormat, String>)
        ensures
            match parsed {
                Ok(format) => format_of(lowercased(s@)) == Some(format),
                Err(message) => format_of(lowercased(s@)) is None && message@ == unknown_format(
                    s@,
                ),
            },
    {
        OutputFormat::parse(s)
    }
}

/// The options of the command line.
#[derive(Debug)]
pub struct Cli {
    /// File containing DNS resolvers, one per line.
    pub resolvers: PathBuf,
    /// File containing domains to resolve, one per line.
    pub domains: PathBuf,
    /// Output file; standard output where there is none.
    pub output: Option<PathBuf>,
    /// DNS record type to query.
    pub record_type: String,
    /// Comma-separated list of record types to query.
    pub record_types: Option<String>,
    /// Limit of queries per second.
    pub rate_limit: Option<u32>,
    /// Query timeout in seconds.
    pub timeout: u64,
    /// Fall back to TCP for large responses.
    pub tcp: bool,
    /// Use TCP only.
    pub tcp_only: bool,
    /// Number of sockets to use.
    pub sockets: usize,
    /// Output format.
    pub output_format: OutputFormat,
    /// Show verbose output.
    pub verbose: bool,
    /// Randomize the order of domains.
    pub shuffle: bool,
}

/// The configuration of a run.
#[derive(Debug)]
pub struct MassDnsConfig {
    pub resolvers: Vec<ResolverEndpoint>,
    pub domains: Vec<String>,
    pub output_file: Option<PathBuf>,
    pub record_types: Vec<DnsRecordType>,
    pub rate_limit: Option<usize>,
    pub timeout_secs: u64,
    pub tcp_enabled: bool,
    pub tcp_only: bool,
    pub socket_count: usize,
    pub output_format: OutputFormat,
}

/// The record types that the parts of a list name, each part trimmed; the
/// first part that names none is handed back instead.
pub open spec fn listed_types(parts: Seq<Seq<char>>) -> Result<Seq<DnsRecordType>, Seq<char>>
    decreases parts.len(),
{
    if parts.len() == 0 {
        Ok(Seq::empty())
    } else {
        match listed_types(parts.drop_last()) {
            Err(text) => Err(text),
            Ok(types) => match record_type_of(trimmed(parts.last())) {
                Some(t) => Ok(types.push(t)),
                None => Err(trimmed(parts.last())),
            },
        }
    }
}

/// The record types that the options ask for: those of the comma-separated
/// list where there is one, else the single type, and `A` where that names
/// none.
pub open spec fn wanted_types(
    record_type: Seq<char>,
    record_types: Option<Seq<char>>,
) -> Result<Seq<DnsRecordType>, Seq<char>> {
    match record_types {
        Some(list) => listed_types(pieces(list, ',')),
        None => match record_type_of(record_type) {
            Some(t) => Ok(seq![t]),
            None => Ok(seq![DnsRecordType::A]),
        },
    }
}

/// `SliceRandom::shuffle` of rand, with the thread's generator: puts the
/// names in a random order. Whatever the order, the names are the same, each
/// as often as before.
#[verifier::external_body]
pub(crate) fn shuffle(names: &mut Vec<String>)
    ensures
        texts(final(names)@).to_multiset() == texts(old(names)@).to_multiset(),
{
    names.shuffle(&mut rand::thread_rng());
}

/// `Clone::clone` of `Option<PathBuf>`: a copy of the path, if there is one.
#[verifier::external_body]
pub(crate) fn copy_path(path: &Option<PathBuf>) -> (copy: Option<PathBuf>)
    ensures
        copy == *path,
{
    path.clone()
}

impl Cli {
    /// The record types that the options ask for.
    pub fn parse_record_types(&self) -> (parsed: Result<Vec<DnsRecordType>, CliError>)
        ensures
            match parsed {
                Ok(types) => wanted_types(
                    self.record_type@,
                    match self.record_types {
                        Some(list) => Some(list@),
                        None => None,
                    },
                ) == Ok::<Seq<DnsRecordType>, Seq<char>>(types@),
                Err(e) => e is InvalidRecordType && wanted_types(
                    self.record_type@,
                    match self.record_types {
                        Some(list) => Some(list@),
                        None => None,
                    },
                ) == Err::<Seq<DnsRecordType>, Seq<char>>(e->text@),
            },
    {
        match &self.record_types {
            Some(list) => {
                let parts = split_on(list.as_str(), ',');
                let mut types: Vec<DnsRecordType> = Vec::new();
                let mut i: usize = 0;
                let ghost all = texts(parts@);
                assert(all.take(0) =~= Seq::<Seq<char>>::empty());
                while i < parts.len()
                    invariant
                        i <= parts@.len(),
                        all == texts(parts@),
                        all == pieces(list@, ','),
                        self.record_types == Some(*list),
                        listed_types(all.take(i as int)) == Ok::<Seq<DnsRecordType>, Seq<char>>(
                            types@,
                        ),
                    decreases parts@.len() - i,
                {
                    proof {
                        assert(all.take(i + 1).drop_last() =~= all.take(i as int));
                        assert(all.take(i + 1).last() == parts@[i as int]@);
                    }
                    let part = trim(parts[i].as_str());
                    match DnsRecordType::from_name(part) {
                        Some(t) => {
                            types.push(t);
                        },
                        None => {
                            proof {
                                assert(all[i as int] == parts@[i as int]@);
                                lemma_listed_types_fail(all, i as int);
                            }
                            return Err(CliError::InvalidRecordType { text: part.to_owned() });
                        },
                    }
                    i = i + 1;
                }
                assert(all.take(i as int) =~= all);
                Ok(types)
            },
            None => {
                let mut types: Vec<DnsRecordType> = Vec::new();
                match DnsRecordType::from_name(self.record_type.as_str()) {
                    Some(t) => {
                        types.push(t);
                        assert(types@ =~= seq![t]);
                    },
                    None => {
                        types.push(DnsRecordType::A);
                        assert(types@ =~= seq![DnsRecordType::A]);
                    },
                }
                Ok(types)
            },
        }
    }

    /// The configuration that the options, the lookups of the resolver
    /// entries and the lines of the domain list add up to. The record types
    /// are read first, then the resolvers, then the domains; the first of them
    /// that fails is the error. The domains are put in a random order where
    /// the options ask for it.
    pub fn to_config(&self, lookups: &Vec<Lookup>, domain_lines: &Vec<String>) -> (config: Result<
        MassDnsConfig,
        CliError,
    >)
        ensures
            match config {
                Ok(c) => {
                    &&& wanted_types(
                        self.record_type@,
                        match self.record_types {
                            Some(list) => Some(list@),
                            None => None,
                        },
                    ) == Ok::<Seq<DnsRecordType>, Seq<char>>(c.record_types@)
                    &&& c.resolvers@ == found_endpoints(lookups@)
                    &&& c.resolvers@.len() > 0
                    &&& c.domains@.len() > 0
                    &&& texts(c.domains@).to_multiset() == accepted_domains(
                        texts(domain_lines@),
                    ).to_multiset()
                    &&& !self.shuffle ==> texts(c.domains@) == accepted_domains(
                        texts(domain_lines@),
                    )
                    &&& c.output_file == self.output
                    &&& c.rate_limit == match self.rate_limit {
                        Some(n) => Some(n as usize),
                        None => None,
                    }
                    &&& c.timeout_secs == self.timeout
                    &&& c.tcp_enabled == (self.tcp || self.tcp_only)
                    &&& c.tcp_only == self.tcp_only
                    &&& c.socket_count == self.sockets
                    &&& c.output_format == self.output_format
                },
                Err(e) => match wanted_types(
                    self.record_type@,
                    match self.record_types {
                        Some(list) => Some(list@),
                        None => None,
                    },
                ) {
                    Err(text) => e is InvalidRecordType && e->text@ == text,
                    Ok(_) => if found_endpoints(lookups@).len() == 0 {
                        e == (CliError::NoValidResolvers {
                            invalid: failed_lookups(lookups@) as usize,
                        })
                    } else {
                        &&& accepted_domains(texts(domain_lines@)).len() == 0
                        &&& e == (CliError::NoValidDomains {
                            invalid: malformed_domains(texts(domain_lines@)) as usize,
                        })
                    },
                },
            },
    {
        let record_types = match self.parse_record_types() {
            Ok(types) => types,
            Err(e) => {
                return Err(e);
            },
        };
        let resolvers = match collect_resolvers(lookups) {
            Ok(pool) => pool,
            Err(e) => {
                return Err(e);
            },
        };
        let mut domains = match select_domains(domain_lines) {
            Ok(kept) => kept,
            Err(e) => {
                return Err(e);
            },
        };
        if self.shuffle {
            shuffle(&mut domains);
            proof {
                texts(domains@).to_multiset_ensures();
                accepted_domains(texts(domain_lines@)).to_multiset_ensures();
                assert(texts(domains@).len() == domains@.len());
            }
        }
        let rate_limit = match self.rate_limit {
            Some(n) => Some(n as usize),
            None => None,
        };
        Ok(
            MassDnsConfig {
                resolvers,
                domains,
                output_file: copy_path(&self.output),
                record_types,
                rate_limit,
                timeout_secs: self.timeout,
                tcp_enabled: self.tcp || self.tcp_only,
                tcp_only: self.tcp_only,
                socket_count: self.sockets,
                output_format: self.output_format,
            },
        )
    }
}

/// A list whose part at `at` names no record type, and whose parts before it
/// all name one, fails with that part.
pub proof fn lemma_listed_types_fail(parts: Seq<Seq<char>>, at: int)
    requires
        0 <= at < parts.len(),
        listed_types(parts.take(at)) is Ok,
        record_type_of(trimmed(parts[at])) is None,
    ensures
        listed_types(parts) == Err::<Seq<DnsRecordType>, Seq<char>>(trimmed(parts[at])),
    decreases parts.len(),
{
    if at == parts.len() - 1 {
        assert(parts.drop_last() =~= parts.take(at));
    } else {
        let front = parts.drop_last();
        assert(front.take(at) =~= parts.take(at));
        lemma_listed_types_fail(front, at);
    }
}

} // verus!
