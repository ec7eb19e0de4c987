//! Text helpers: trimming, lower-casing and joining of lines and names.

use vstd::prelude::*;
use vstd::std_specs::iter::IteratorSpec;

verus! {

/// A character with the Unicode property `White_Space`.
pub open spec fn is_space(c: char) -> bool {
    ||| '\u{9}' <= c <= '\u{d}'
    ||| c == ' '
    ||| c == '\u{85}'
    ||| c == '\u{a0}'
    ||| c == '\u{1680}'
    ||| '\u{2000}' <= c <= '\u{200a}'
    ||| c == '\u{2028}'
    ||| c == '\u{2029}'
    ||| c == '\u{202f}'
    ||| c == '\u{205f}'
    ||| c == '\u{3000}'
}

/// `s` without the white space it starts with.
pub open spec fn trimmed_start(s: Seq<char>) -> Seq<char>
    decreases s.len(),
{
    if s.len() > 0 && is_space(s[0]) {
        trimmed_start(s.drop_first())
    } else {
        s
    }
}

/// `s` without the white space it ends with.
pub open spec fn trimmed_end(s: Seq<char>) -> Seq<char>
    decreases s.len(),
{
    if s.len() > 0 && is_space(s.last()) {
        trimmed_end(s.drop_last())
    } else {
        s
    }
}

/// `s` without the white space at either end.
pub open spec fn trimmed(s: Seq<char>) -> Seq<char> {
    trimmed_end(trimmed_start(s))
}

/// Every character is white space.
pub open spec fn is_blank(s: Seq<char>) -> bool {
    forall|i: int| 0 <= i < s.len() ==> is_space(#[trigger] s[i])
}

/// What `str::to_lowercase` returns for a text.
pub uninterp spec fn lowercased(s: Seq<char>) -> Seq<char>;

/// The lower-case form of an ASCII character; any other character is kept.
pub open spec fn ascii_lower(c: char) -> char {
    if 'A' <= c <= 'Z' {
        ((c as u8) + 32) as char
    } else {
        c
    }
}

/// Every character is ASCII.
pub open spec fn is_ascii_text(s: Seq<char>) -> bool {
    forall|i: int| 0 <= i < s.len() ==> (#[trigger] s[i] as u32) < 128
}

/// The text with each ASCII capital replaced by its small letter.
pub open spec fn ascii_lowered(s: Seq<char>) -> Seq<char> {
    s.map_values(|c: char| ascii_lower(c))
}

/// A candidate name: the label alone where there is no base domain, else the
/// label, a dot and the base domain.
pub open spec fn candidate_name(label: Seq<char>, domain: Seq<char>) -> Seq<char> {
    if domain.len() == 0 {
        label
    } else {
        label + seq!['.'] + domain
    }
}

/// The views of a list of texts.
pub open spec fn texts(v: Seq<String>) -> Seq<Seq<char>> {
    Seq::new(v.len(), |i: int| v[i]@)
}

/// `str::trim`: the slice of `s` that is left when the white space at both
/// ends is taken away, white space being the Unicode property `White_Space`.
#[verifier::external_body]
pub(crate) fn trim(s: &str) -> (t: &str)
    ensures
        t@ == trimmed(s@),
{
    s.trim()
}

/// `str::to_lowercase`: the lower-case form of `s`, named `lowercased`. On a
/// text of ASCII characters alone it is the text with each capital replaced by
/// its small letter.
#[verifier::external_body]
pub(crate) fn to_lowercase(s: &str) -> (t: String)
    ensures
        t@ == lowercased(s@),
        is_ascii_text(s@) ==> t@ == ascii_lowered(s@),
{
    s.to_lowercase()
}

/// `str::eq_ignore_ascii_case`: tells whether two texts are the same once
/// each ASCII capital is replaced by its small letter.
#[verifier::external_body]
pub(crate) fn eq_ignore_ascii_case(a: &str, b: &str) -> (same: bool)
    ensures
        same == (ascii_lowered(a@) == ascii_lowered(b@)),
{
    a.eq_ignore_ascii_case(b)
}

/// Joins a label and a base domain into a candidate name.
pub fn compose_name(label: &str, domain: &str) -> (name: String)
    ensures
        name@ == candidate_name(label@, domain@),
{
    let mut name = String::from_str(label);
    if !domain.is_empty() {
        proof {
            reveal_strlit(".");
            assert("."@ =~= seq!['.']);
        }
        name.append(".");
        name.append(domain);
    }
    name
}

/// Tells whether `c` occurs in `s`.
pub fn contains_char(s: &str, c: char) -> (found: bool)
    ensures
        found == s@.contains(c),
{
    let mut it = s.chars();
    let ghost mut seen: int = 0;
    loop
        invariant
            it.obeys_prophetic_iter_laws(),
            0 <= seen <= s@.len(),
            it.remaining() == s@.skip(seen),
            forall|i: int| 0 <= i < seen ==> s@[i] != c,
        decreases s@.len() - seen,
    {
        match it.next() {
            None => {
                assert(s@.skip(seen).len() == 0);
                return false;
            },
            Some(d) => {
                assert(s@.skip(seen).len() > 0);
                assert(d == s@.skip(seen)[0]);
                assert(s@.skip(seen).drop_first() =~= s@.skip(seen + 1));
                if d == c {
                    assert(s@[seen] == c);
                    return true;
                }
                proof {
                    seen = seen + 1;
                }
            },
        }
    }
}

/// Tells whether `s` starts with `c`.
pub fn starts_with_char(s: &str, c: char) -> (found: bool)
    ensures
        found == (s@.len() > 0 && s@[0] == c),
{
    !s.is_empty() && s.get_char(0) == c
}

/// Tells whether two texts are the same.
pub fn same_text(a: &str, b: &str) -> (same: bool)
    ensures
        same == (a@ == b@),
{
    a.to_owned() == b.to_owned()
}

/// Copies a list of texts.
pub fn copy_texts(list: &Vec<String>) -> (copy: Vec<String>)
    ensures
        texts(copy@) == texts(list@),
{
    let mut copy: Vec<String> = Vec::new();
    let mut i: usize = 0;
    while i < list.len()
        invariant
            i <= list@.len(),
            copy@.len() == i,
            forall|j: int| 0 <= j < i ==> (#[trigger] copy@[j])@ == list@[j]@,
        decreases list@.len() - i,
    {
        copy.push(list[i].clone());
        i = i + 1;
    }
    assert(texts(copy@) =~= texts(list@));
    copy
}

/// A trimmed text is blank exactly when it is empty, and then the text it
/// came from was blank.
pub proof fn lemma_trimmed_empty(s: Seq<char>)
    ensures
        trimmed(s).len() == 0 <==> is_blank(s),
{
    lemma_trimmed_start(s);
    lemma_trimmed_end(trimmed_start(s));
    let a = trimmed_start(s);
    if is_blank(s) {
        if a.len() > 0 {
            let k = s.len() - a.len();
            assert(a[0] == s[k]);
        }
    } else {
        let i = choose|i: int| 0 <= i < s.len() && !is_space(#[trigger] s[i]);
        let k = s.len() - a.len();
        assert(k <= i);
        assert(a.len() > 0);
        assert(!is_space(a[0]));
        assert(trimmed_end(a).len() > 0);
    }
}

/// What is cut from the start is white space, and what stays is a suffix that
/// starts with none.
pub proof fn lemma_trimmed_start(s: Seq<char>)
    ensures
        trimmed_start(s).len() <= s.len(),
        trimmed_start(s) == s.skip(s.len() - trimmed_start(s).len()),
        forall|i: int| 0 <= i < s.len() - trimmed_start(s).len() ==> is_space(#[trigger] s[i]),
        trimmed_start(s).len() > 0 ==> !is_space(trimmed_start(s)[0]),
    decreases s.len(),
{
    if s.len() > 0 && is_space(s[0]) {
        let rest = s.drop_first();
        lemma_trimmed_start(rest);
        let t = trimmed_start(rest);
        assert(rest.skip(rest.len() - t.len()) =~= s.skip(s.len() - t.len()));
        assert forall|i: int| 0 <= i < s.len() - t.len() implies is_space(#[trigger] s[i]) by {
            if i > 0 {
                assert(s[i] == rest[i - 1]);
            }
        }
    } else {
        assert(s.skip(0) =~= s);
    }
}

/// What is cut from the end is white space, and what stays is a prefix that
/// ends with none; a text that starts with none keeps its start.
pub proof fn lemma_trimmed_end(s: Seq<char>)
    ensures
        trimmed_end(s).len() <= s.len(),
        trimmed_end(s) == s.take(trimmed_end(s).len() as int),
        forall|i: int| trimmed_end(s).len() <= i < s.len() ==> is_space(#[trigger] s[i]),
        trimmed_end(s).len() > 0 ==> !is_space(trimmed_end(s).last()),
        s.len() > 0 && !is_space(s[0]) ==> trimmed_end(s).len() > 0,
    decreases s.len(),
{
    if s.len() > 0 && is_space(s.last()) {
        let rest = s.drop_last();
        lemma_trimmed_end(rest);
        let t = trimmed_end(rest);
        assert(rest.take(t.len() as int) =~= s.take(t.len() as int));
        assert forall|i: int| t.len() <= i < s.len() implies is_space(#[trigger] s[i]) by {
            if i < s.len() - 1 {
                assert(s[i] == rest[i]);
            }
        }
        if !is_space(s[0]) {
            assert(rest.len() > 0);
            assert(rest[0] == s[0]);
        }
    } else {
        assert(s.take(s.len() as int) =~= s);
    }
}

} // verus!
