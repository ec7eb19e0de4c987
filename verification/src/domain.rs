//! Syntax of candidate domain names.

use vstd::prelude::*;
use vstd::std_specs::iter::IteratorSpec;

verus! {

/// Longest accepted domain name, in characters.
pub const MAX_DOMAIN_LEN: usize = 253;

/// Longest accepted label, in characters.
pub const MAX_LABEL_LEN: usize = 63;

/// A character that may stand inside a label: an ASCII letter or digit, a
/// hyphen or an underscore.
pub open spec fn is_label_char(c: char) -> bool {
    ||| 'a' <= c <= 'z'
    ||| 'A' <= c <= 'Z'
    ||| '0' <= c <= '9'
    ||| c == '-'
    ||| c == '_'
}

/// Every character is a dot or a label character.
pub open spec fn only_domain_chars(s: Seq<char>) -> bool {
    forall|i: int| 0 <= i < s.len() ==> s[i] == '.' || is_label_char(#[trigger] s[i])
}

/// No label is empty: the name neither starts nor ends with a dot, and no two
/// dots are neighbours.
pub open spec fn no_empty_label(s: Seq<char>) -> bool {
    &&& s.len() > 0 ==> s[0] != '.' && s[s.len() - 1] != '.'
    &&& forall|i: int| 0 < i < s.len() ==> !(s[i - 1] == '.' && #[trigger] s[i] == '.')
}

/// The `n` characters from `start` on hold no dot.
pub open spec fn dotless_run(s: Seq<char>, start: int, n: int) -> bool {
    &&& 0 <= start
    &&& 0 <= n
    &&& start + n <= s.len()
    &&& forall|j: int| start <= j < start + n ==> #[trigger] s[j] != '.'
}

/// No label is longer than `MAX_LABEL_LEN`: no run of that many characters
/// plus one is free of dots.
pub open spec fn no_long_label(s: Seq<char>) -> bool {
    forall|start: int| !#[trigger] dotless_run(s, start, MAX_LABEL_LEN + 1)
}

/// A syntactically acceptable domain name. The empty name passes: callers
/// drop blank lines before they ask.
pub open spec fn valid_domain(s: Seq<char>) -> bool {
    &&& s.len() <= MAX_DOMAIN_LEN
    &&& only_domain_chars(s)
    &&& no_empty_label(s)
    &&& no_long_label(s)
}

/// Tells whether `c` may stand inside a label.
pub fn is_label_character(c: char) -> (ok: bool)
    ensures
        ok == is_label_char(c),
{
    ('a' <= c && c <= 'z') || ('A' <= c && c <= 'Z') || ('0' <= c && c <= '9') || c == '-' || c
        == '_'
}

/// Tells whether `domain` is a syntactically acceptable domain name.
pub fn is_valid_domain(domain: &str) -> (ok: bool)
    ensures
        ok == valid_domain(domain@),
{
    let mut it = domain.chars();
    let ghost s = domain@;
    let mut seen: usize = 0;
    let mut label_chars: usize = 0;
    let mut last_dot = false;
    loop
        invariant
            it.obeys_prophetic_iter_laws(),
            s == domain@,
            seen <= s.len(),
            seen <= MAX_DOMAIN_LEN,
            it.remaining() == s.skip(seen as int),
            label_chars <= MAX_LABEL_LEN,
            label_chars <= seen,
            dotless_run(s, seen - label_chars, label_chars as int),
            label_chars < seen ==> s[seen - label_chars - 1] == '.',
            last_dot == (seen > 0 && s[seen - 1] == '.'),
            last_dot ==> label_chars == 0,
            seen > 0 ==> s[0] != '.',
            forall|i: int| 0 <= i < seen ==> s[i] == '.' || is_label_char(#[trigger] s[i]),
            forall|i: int| 0 < i < seen ==> !(s[i - 1] == '.' && #[trigger] s[i] == '.'),
            forall|start: int|
                start + MAX_LABEL_LEN + 1 <= seen ==> !#[trigger] dotless_run(
                    s,
                    start,
                    MAX_LABEL_LEN + 1,
                ),
        decreases s.len() - seen,
    {
        let ghost before = it;
        match it.next() {
            None => {
                proof {
                    assert(s.skip(seen as int).len() == 0);
                    assert(seen == s.len());
                    if last_dot {
                        assert(!no_empty_label(s));
                    } else {
                        assert(no_empty_label(s));
                        assert(only_domain_chars(s));
                        assert(no_long_label(s));
                    }
                }
                return !last_dot;
            },
            Some(c) => {
                proof {
                    assert(s.skip(seen as int).len() > 0);
                    assert(c == s.skip(seen as int)[0]);
                    assert(c == s[seen as int]);
                    assert(s.skip(seen as int).drop_first() =~= s.skip(seen + 1));
                }
                if seen == MAX_DOMAIN_LEN {
                    return false;
                }
                if c == '.' {
                    if label_chars == 0 {
                        proof {
                            if seen > 0 {
                                assert(s[seen - 1] == '.' && s[seen as int] == '.');
                            }
                            assert(!no_empty_label(s));
                        }
                        return false;
                    }
                    label_chars = 0;
                    last_dot = true;
                } else {
                    if !is_label_character(c) {
                        assert(!only_domain_chars(s));
                        return false;
                    }
                    if label_chars == MAX_LABEL_LEN {
                        proof {
                            assert(dotless_run(s, seen - label_chars, MAX_LABEL_LEN + 1));
                        }
                        return false;
                    }
                    label_chars = label_chars + 1;
                    last_dot = false;
                }
                seen = seen + 1;
                proof {
                    assert forall|start: int|
                        start + MAX_LABEL_LEN + 1 <= seen implies !#[trigger] dotless_run(
                        s,
                        start,
                        MAX_LABEL_LEN + 1,
                    ) by {
                        if start + MAX_LABEL_LEN + 1 == seen && start >= 0 {
                            if c == '.' {
                                assert(s[seen - 1] == '.');
                            } else {
                                assert(s[seen - label_chars - 1] == '.');
                            }
                        }
                    }
                }
            },
        }
    }
}

} // verus!
