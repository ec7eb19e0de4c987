//! Resolver and domain lists, line by line: which lines count, what is read
//! from them, and when a list is too poor to go on with.

use vstd::prelude::*;
use vstd::std_specs::iter::IteratorSpec;
use crate::domain::{is_valid_domain, valid_domain};
use crate::endpoint::ResolverEndpoint;
use crate::text::{
    ascii_lowered, contains_char, is_ascii_text, starts_with_char, texts, to_lowercase, trim,
    trimmed,
};

verus! {

/// Why a list cannot be used.
#[derive(Debug, PartialEq, Eq)]
pub enum CliError {
    /// A text that names no record type.
    InvalidRecordType { text: String },
    /// No resolver was found; `invalid` entries could not be looked up.
    NoValidResolvers { invalid: usize },
    /// No domain was accepted; `invalid` entries were malformed.
    NoValidDomains { invalid: usize },
}

/// What looking up one resolver entry gave.
#[derive(Clone, Copy, PartialEq, Eq, Structural, Debug)]
pub enum Lookup {
    /// The first address that the entry stands for.
    Found(ResolverEndpoint),
    /// The lookup went through and gave no address.
    Empty,
    /// The entry could not be looked up.
    Failed,
}

/// The parts of `s` between the occurrences of `sep`; there is one more part
/// than there are separators.
pub open spec fn pieces(s: Seq<char>, sep: char) -> Seq<Seq<char>>
    decreases s.len(),
{
    if s.len() == 0 {
        seq![Seq::empty()]
    } else {
        let front = pieces(s.drop_last(), sep);
        if s.last() == sep {
            front.push(Seq::empty())
        } else {
            front.drop_last().push(front.last().push(s.last()))
        }
    }
}

/// Splits `s` at every occurrence of `sep`.
pub fn split_on(s: &str, sep: char) -> (parts: Vec<String>)
    ensures
        texts(parts@) == pieces(s@, sep),
{
    let total = s.unicode_len();
    let mut parts: Vec<String> = Vec::new();
    let mut it = s.chars();
    let mut start: usize = 0;
    let mut seen: usize = 0;
    proof {
        assert(s@.take(0) =~= Seq::<char>::empty());
        assert(s@.subrange(0, 0) =~= Seq::<char>::empty());
        assert(texts(parts@).push(s@.subrange(0, 0)) =~= seq![Seq::<char>::empty()]);
    }
    loop
        invariant
            it.obeys_prophetic_iter_laws(),
            total == s@.len(),
            start <= seen <= total,
            it.remaining() == s@.skip(seen as int),
            pieces(s@.take(seen as int), sep) == texts(parts@).push(
                s@.subrange(start as int, seen as int),
            ),
        decreases total - seen,
    {
        let ghost done = texts(parts@);
        let ghost current = s@.subrange(start as int, seen as int);
        match it.next() {
            None => {
                assert(s@.skip(seen as int).len() == 0);
                assert(s@.take(seen as int) =~= s@);
                parts.push(s.substring_char(start, seen).to_owned());
                assert(texts(parts@) =~= done.push(current));
                return parts;
            },
            Some(c) => {
                proof {
                    assert(s@.skip(seen as int).len() > 0);
                    assert(c == s@.skip(seen as int)[0]);
                    assert(s@.skip(seen as int).drop_first() =~= s@.skip(seen + 1));
                    assert(s@.take(seen + 1).drop_last() =~= s@.take(seen as int));
                    assert(s@.take(seen + 1).last() == c);
                }
                if c == sep {
                    parts.push(s.substring_char(start, seen).to_owned());
                    start = seen + 1;
                    proof {
                        assert(texts(parts@) =~= done.push(current));
                        assert(s@.subrange(start as int, seen + 1) =~= Seq::<char>::empty());
                    }
                } else {
                    proof {
                        assert(done.push(current).drop_last() =~= done);
                        assert(current.push(c) =~= s@.subrange(start as int, seen + 1));
                    }
                }
                seen = seen + 1;
            },
        }
    }
}

/// A line that is passed over: a blank one, or a comment.
pub open spec fn is_skipped(line: Seq<char>) -> bool {
    trimmed(line).len() == 0 || trimmed(line)[0] == '#'
}

/// The address text of a resolver line that is not passed over: the trimmed
/// line where it holds a colon, else the trimmed line with the default port.
pub open spec fn resolver_text(line: Seq<char>) -> Seq<char> {
    if trimmed(line).contains(':') {
        trimmed(line)
    } else {
        trimmed(line) + seq![':', '5', '3']
    }
}

/// The address texts of the resolver lines that are not passed over.
pub open spec fn resolver_texts(lines: Seq<Seq<char>>) -> Seq<Seq<char>>
    decreases lines.len(),
{
    if lines.len() == 0 {
        Seq::empty()
    } else if is_skipped(lines.last()) {
        resolver_texts(lines.drop_last())
    } else {
        resolver_texts(lines.drop_last()).push(resolver_text(lines.last()))
    }
}

/// Reads one resolver line: nothing for a blank line or a comment, else the
/// address text to look up.
pub fn resolver_entry(line: &str) -> (entry: Option<String>)
    ensures
        entry is None <==> is_skipped(line@),
        entry is Some ==> entry->Some_0@ == resolver_text(line@),
{
    let line = trim(line);
    if line.is_empty() || starts_with_char(line, '#') {
        return None;
    }
    let mut text = line.to_owned();
    if !contains_char(line, ':') {
        proof {
            reveal_strlit(":53");
            assert(":53"@ =~= seq![':', '5', '3']);
        }
        text.append(":53");
    }
    Some(text)
}

/// Reads the resolver lines: the address texts to look up, in their order.
pub fn resolver_entries(lines: &Vec<String>) -> (entries: Vec<String>)
    ensures
        texts(entries@) == resolver_texts(texts(lines@)),
{
    let mut entries: Vec<String> = Vec::new();
    let mut i: usize = 0;
    let ghost all = texts(lines@);
    assert(all.take(0) =~= Seq::<Seq<char>>::empty());
    while i < lines.len()
        invariant
            i <= lines@.len(),
            all == texts(lines@),
            texts(entries@) == resolver_texts(all.take(i as int)),
        decreases lines@.len() - i,
    {
        let ghost before = texts(entries@);
        proof {
            assert(all.take(i + 1).drop_last() =~= all.take(i as int));
            assert(all.take(i + 1).last() == lines@[i as int]@);
        }
        match resolver_entry(lines[i].as_str()) {
            None => {},
            Some(text) => {
                entries.push(text);
                assert(texts(entries@) =~= before.push(resolver_text(lines@[i as int]@)));
            },
        }
        i = i + 1;
    }
    assert(all.take(i as int) =~= all);
    entries
}

/// The endpoints that the lookups found, in their order.
pub open spec fn found_endpoints(lookups: Seq<Lookup>) -> Seq<ResolverEndpoint>
    decreases lookups.len(),
{
    if lookups.len() == 0 {
        Seq::empty()
    } else {
        match lookups.last() {
            Lookup::Found(endpoint) => found_endpoints(lookups.drop_last()).push(endpoint),
            _ => found_endpoints(lookups.drop_last()),
        }
    }
}

/// The number of lookups that failed.
pub open spec fn failed_lookups(lookups: Seq<Lookup>) -> nat
    decreases lookups.len(),
{
    if lookups.len() == 0 {
        0
    } else if lookups.last() == Lookup::Failed {
        failed_lookups(lookups.drop_last()) + 1
    } else {
        failed_lookups(lookups.drop_last())
    }
}

/// Gathers the resolvers that the lookups found. Without any the pool is
/// refused, with the number of lookups that failed.
pub fn collect_resolvers(lookups: &Vec<Lookup>) -> (pool: Result<Vec<ResolverEndpoint>, CliError>)
    ensures
        match pool {
            Ok(found) => found@.len() > 0 && found@ == found_endpoints(lookups@),
            Err(e) => found_endpoints(lookups@).len() == 0 && e == (CliError::NoValidResolvers {
                invalid: failed_lookups(lookups@) as usize,
            }),
        },
{
    let mut found: Vec<ResolverEndpoint> = Vec::new();
    let mut invalid: usize = 0;
    let mut i: usize = 0;
    assert(lookups@.take(0) =~= Seq::<Lookup>::empty());
    while i < lookups.len()
        invariant
            i <= lookups@.len(),
            found@ == found_endpoints(lookups@.take(i as int)),
            invalid == failed_lookups(lookups@.take(i as int)),
            invalid <= i,
        decreases lookups@.len() - i,
    {
        proof {
            assert(lookups@.take(i + 1).drop_last() =~= lookups@.take(i as int));
            assert(lookups@.take(i + 1).last() == lookups@[i as int]);
        }
        match lookups[i] {
            Lookup::Found(endpoint) => {
                found.push(endpoint);
            },
            Lookup::Empty => {},
            Lookup::Failed => {
                invalid = invalid + 1;
            },
        }
        i = i + 1;
    }
    assert(lookups@.take(i as int) =~= lookups@);
    if found.len() == 0 {
        Err(CliError::NoValidResolvers { invalid })
    } else {
        Ok(found)
    }
}

/// The domains that the lines give: of each line that is neither passed over
/// nor malformed, the trimmed text in small letters.
pub open spec fn accepted_domains(lines: Seq<Seq<char>>) -> Seq<Seq<char>>
    decreases lines.len(),
{
    if lines.len() == 0 {
        Seq::empty()
    } else if !is_skipped(lines.last()) && valid_domain(trimmed(lines.last())) {
        accepted_domains(lines.drop_last()).push(ascii_lowered(trimmed(lines.last())))
    } else {
        accepted_domains(lines.drop_last())
    }
}

/// The number of lines that are neither passed over nor well formed.
pub open spec fn malformed_domains(lines: Seq<Seq<char>>) -> nat
    decreases lines.len(),
{
    if lines.len() == 0 {
        0
    } else if !is_skipped(lines.last()) && !valid_domain(trimmed(lines.last())) {
        malformed_domains(lines.drop_last()) + 1
    } else {
        malformed_domains(lines.drop_last())
    }
}

/// A well-formed domain holds ASCII characters alone.
pub proof fn lemma_valid_domain_is_ascii(s: Seq<char>)
    requires
        valid_domain(s),
    ensures
        is_ascii_text(s),
{
    assert forall|i: int| 0 <= i < s.len() implies (#[trigger] s[i] as u32) < 128 by {
        assert(s[i] == '.' || crate::domain::is_label_char(s[i]));
    }
}

/// Reads the domain lines. Blank lines and comments are passed over; of the
/// others the well-formed ones are kept, trimmed and in small letters. Without
/// any the list is refused, with the number of malformed lines.
pub fn select_domains(lines: &Vec<String>) -> (domains: Result<Vec<String>, CliError>)
    ensures
        match domains {
            Ok(kept) => kept@.len() > 0 && texts(kept@) == accepted_domains(texts(lines@)),
            Err(e) => accepted_domains(texts(lines@)).len() == 0 && e == (
            CliError::NoValidDomains { invalid: malformed_domains(texts(lines@)) as usize }),
        },
{
    let mut kept: Vec<String> = Vec::new();
    let mut invalid: usize = 0;
    let mut i: usize = 0;
    let ghost all = texts(lines@);
    assert(all.take(0) =~= Seq::<Seq<char>>::empty());
    while i < lines.len()
        invariant
            i <= lines@.len(),
            all == texts(lines@),
            texts(kept@) == accepted_domains(all.take(i as int)),
            invalid == malformed_domains(all.take(i as int)),
            invalid <= i,
        decreases lines@.len() - i,
    {
        let ghost before = texts(kept@);
        proof {
            assert(all.take(i + 1).drop_last() =~= all.take(i as int));
            assert(all.take(i + 1).last() == lines@[i as int]@);
        }
        let line = trim(lines[i].as_str());
        if !(line.is_empty() || starts_with_char(line, '#')) {
            if is_valid_domain(line) {
                proof {
                    lemma_valid_domain_is_ascii(line@);
                }
                kept.push(to_lowercase(line));
                assert(texts(kept@) =~= before.push(ascii_lowered(line@)));
            } else {
                invalid = invalid + 1;
            }
        }
        i = i + 1;
    }
    assert(all.take(i as int) =~= all);
    if kept.len() == 0 {
        Err(CliError::NoValidDomains { invalid })
    } else {
        Ok(kept)
    }
}

} // verus!
