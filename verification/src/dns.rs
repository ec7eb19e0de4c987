//! Record types, and which names can be put into a query.

use vstd::prelude::*;
use hickory_client::proto::rr::Name;
use crate::text::{ascii_lowered, eq_ignore_ascii_case};

verus! {

/// Whether `Name::from_str` accepts a text as a domain name.
pub uninterp spec fn dns_name_parses(text: Seq<char>) -> bool;

/// The text that is parsed for a candidate name: the name with a closing dot,
/// which makes it fully qualified.
pub open spec fn query_text(name: Seq<char>) -> Seq<char> {
    name + seq!['.']
}

/// `Name::from_str` of hickory's `proto::rr`, reached through `str::parse`: tells whether the parser accepts
/// `text` as a domain name. The answer depends on the text alone; it is named
/// `dns_name_parses`, and nothing more is claimed of it.
#[verifier::external_body]
pub(crate) fn parses_as_name(text: &str) -> (ok: bool)
    ensures
        ok == dns_name_parses(text@),
{
    text.parse::<Name>().is_ok()
}

/// Tells whether a candidate name can be put into a query.
pub fn is_queryable(name: &str) -> (ok: bool)
    ensures
        ok == dns_name_parses(query_text(name@)),
{
    let mut text = name.to_owned();
    proof {
        reveal_strlit(".");
        assert("."@ =~= seq!['.']);
    }
    text.append(".");
    parses_as_name(text.as_str())
}

/// The type of record that a query asks for.
#[derive(Clone, Copy, PartialEq, Eq, Structural, Debug)]
pub enum DnsRecordType {
    A,
    AAAA,
    CNAME,
    MX,
    NS,
    PTR,
    SOA,
    SRV,
    TXT,
}

/// Two texts are the same up to the case of their ASCII letters.
pub open spec fn same_ignoring_case(a: Seq<char>, b: Seq<char>) -> bool {
    ascii_lowered(a) == ascii_lowered(b)
}

/// The record type that a text names, whatever the case of its letters.
pub open spec fn record_type_of(name: Seq<char>) -> Option<DnsRecordType> {
    if same_ignoring_case(name, "A"@) {
        Some(DnsRecordType::A)
    } else if same_ignoring_case(name, "AAAA"@) {
        Some(DnsRecordType::AAAA)
    } else if same_ignoring_case(name, "CNAME"@) {
        Some(DnsRecordType::CNAME)
    } else if same_ignoring_case(name, "MX"@) {
        Some(DnsRecordType::MX)
    } else if same_ignoring_case(name, "NS"@) {
        Some(DnsRecordType::NS)
    } else if same_ignoring_case(name, "PTR"@) {
        Some(DnsRecordType::PTR)
    } else if same_ignoring_case(name, "SOA"@) {
        Some(DnsRecordType::SOA)
    } else if same_ignoring_case(name, "SRV"@) {
        Some(DnsRecordType::SRV)
    } else if same_ignoring_case(name, "TXT"@) {
        Some(DnsRecordType::TXT)
    } else {
        None
    }
}

/// The name of a record type, in capitals.
pub open spec fn name_in_capitals(t: DnsRecordType) -> Seq<char> {
    match t {
        DnsRecordType::A => "A"@,
        DnsRecordType::AAAA => "AAAA"@,
        DnsRecordType::CNAME => "CNAME"@,
        DnsRecordType::MX => "MX"@,
        DnsRecordType::NS => "NS"@,
        DnsRecordType::PTR => "PTR"@,
        DnsRecordType::SOA => "SOA"@,
        DnsRecordType::SRV => "SRV"@,
        DnsRecordType::TXT => "TXT"@,
    }
}

impl DnsRecordType {
    /// Reads a record type from its name, whatever the case of its letters.
    pub fn from_name(name: &str) -> (parsed: Option<DnsRecordType>)
        ensures
            parsed == record_type_of(name@),
    {
        if eq_ignore_ascii_case(name, "A") {
            Some(DnsRecordType::A)
        } else if eq_ignore_ascii_case(name, "AAAA") {
            Some(DnsRecordType::AAAA)
        } else if eq_ignore_ascii_case(name, "CNAME") {
            Some(DnsRecordType::CNAME)
        } else if eq_ignore_ascii_case(name, "MX") {
            Some(DnsRecordType::MX)
        } else if eq_ignore_ascii_case(name, "NS") {
            Some(DnsRecordType::NS)
        } else if eq_ignore_ascii_case(name, "PTR") {
            Some(DnsRecordType::PTR)
        } else if eq_ignore_ascii_case(name, "SOA") {
            Some(DnsRecordType::SOA)
        } else if eq_ignore_ascii_case(name, "SRV") {
            Some(DnsRecordType::SRV)
        } else if eq_ignore_ascii_case(name, "TXT") {
            Some(DnsRecordType::TXT)
        } else {
            None
        }
    }

    /// The name of the record type, in capitals.
    pub fn name(&self) -> (name: &'static str)
        ensures
            name@ == name_in_capitals(*self),
            record_type_of(name@) == Some(*self),
    {
        proof {
            lemma_names_differ();
        }
        match self {
            DnsRecordType::A => "A",
            DnsRecordType::AAAA => "AAAA",
            DnsRecordType::CNAME => "CNAME",
            DnsRecordType::MX => "MX",
            DnsRecordType::NS => "NS",
            DnsRecordType::PTR => "PTR",
            DnsRecordType::SOA => "SOA",
            DnsRecordType::SRV => "SRV",
            DnsRecordType::TXT => "TXT",
        }
    }
}

/// No two record type names are the same up to case.
pub proof fn lemma_names_differ()
    ensures
        record_type_of("A"@) == Some(DnsRecordType::A),
        record_type_of("AAAA"@) == Some(DnsRecordType::AAAA),
        record_type_of("CNAME"@) == Some(DnsRecordType::CNAME),
        record_type_of("MX"@) == Some(DnsRecordType::MX),
        record_type_of("NS"@) == Some(DnsRecordType::NS),
        record_type_of("PTR"@) == Some(DnsRecordType::PTR),
        record_type_of("SOA"@) == Some(DnsRecordType::SOA),
        record_type_of("SRV"@) == Some(DnsRecordType::SRV),
        record_type_of("TXT"@) == Some(DnsRecordType::TXT),
{
    reveal_strlit("A");
    reveal_strlit("AAAA");
    reveal_strlit("CNAME");
    reveal_strlit("MX");
    reveal_strlit("NS");
    reveal_strlit("PTR");
    reveal_strlit("SOA");
    reveal_strlit("SRV");
    reveal_strlit("TXT");
    assert(ascii_lowered("A"@).len() == 1);
    assert(ascii_lowered("AAAA"@).len() == 4);
    assert(ascii_lowered("CNAME"@).len() == 5);
    assert(ascii_lowered("MX"@).len() == 2);
    assert(ascii_lowered("NS"@).len() == 2);
    assert(ascii_lowered("PTR"@).len() == 3);
    assert(ascii_lowered("SOA"@).len() == 3);
    assert(ascii_lowered("SRV"@).len() == 3);
    assert(ascii_lowered("TXT"@).len() == 3);
    assert(ascii_lowered("MX"@)[0] != ascii_lowered("NS"@)[0]);
    assert(ascii_lowered("PTR"@)[0] != ascii_lowered("SOA"@)[0]);
    assert(ascii_lowered("PTR"@)[0] != ascii_lowered("SRV"@)[0]);
    assert(ascii_lowered("PTR"@)[0] != ascii_lowered("TXT"@)[0]);
    assert(ascii_lowered("SOA"@)[1] != ascii_lowered("SRV"@)[1]);
    assert(ascii_lowered("SOA"@)[0] != ascii_lowered("TXT"@)[0]);
    assert(ascii_lowered("SRV"@)[0] != ascii_lowered("TXT"@)[0]);
}

} // verus!
