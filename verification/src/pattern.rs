//! Regular-expression search, done by the `regex` crate.
//!
//! What a search finds is not modelled: it is given the name
//! [`regex_captures`], and the rest of the library is specified in terms of
//! that name. Offsets are byte offsets into the haystack.

use crate::text::{byte_slice, span_ok};
use vstd::prelude::*;

verus! {

/// A byte range `(start, end)` of a haystack.
pub type Span = (usize, usize);

/// One match: the span of every capture group, in the order of their opening
/// parentheses, group 0 being the whole match. A group that took no part in
/// the match is `None`.
pub type Groups = Vec<Option<Span>>;

/// What `Regex::new(pattern)` followed by `captures_iter(haystack)` yields:
/// `None` where the pattern does not compile, else the successive matches
/// with the spans of their capture groups.
pub uninterp spec fn regex_captures(pattern: Seq<char>, haystack: Seq<char>) -> Option<
    Seq<Seq<Option<Span>>>,
>;

/// The matches as a sequence of sequences.
pub open spec fn groups_view(ms: Seq<Groups>) -> Seq<Seq<Option<Span>>> {
    Seq::new(ms.len(), |i: int| ms[i]@)
}

/// Group `k` of a match, `None` where the match has no such group.
pub open spec fn group_at(m: Seq<Option<Span>>, k: int) -> Option<Span> {
    if 0 <= k < m.len() {
        m[k]
    } else {
        None
    }
}

/// Where a match starts: the start of its group 0.
pub open spec fn start_of(m: Seq<Option<Span>>) -> int {
    match group_at(m, 0) {
        Some(sp) => sp.0 as int,
        None => 0,
    }
}

/// Where a match ends: the end of its group 0.
pub open spec fn end_of(m: Seq<Option<Span>>) -> int {
    match group_at(m, 0) {
        Some(sp) => sp.1 as int,
        None => 0,
    }
}

/// The text of a span.
pub open spec fn span_text(text: Seq<char>, sp: Span) -> Seq<char> {
    byte_slice(text, sp.0 as int, sp.1 as int)
}

/// Every span lies in the haystack between characters, every match has its
/// group 0, and the matches follow one another without overlap.
pub open spec fn matches_ok(haystack: Seq<char>, ms: Seq<Seq<Option<Span>>>) -> bool {
    &&& forall|i: int| 0 <= i < ms.len() ==> (#[trigger] ms[i]).len() >= 1 && ms[i][0] is Some
    &&& forall|i: int, k: int|
        0 <= i < ms.len() && 0 <= k < ms[i].len() ==> (#[trigger] ms[i][k] matches Some(sp)
            ==> span_ok(haystack, sp.0 as int, sp.1 as int))
    &&& forall|i: int, j: int|
        0 <= i < j < ms.len() ==> end_of(#[trigger] ms[i]) <= start_of(#[trigger] ms[j])
}

/// The matches of `pattern` in `haystack`; none where the pattern does not
/// compile.
pub open spec fn captures_of(pattern: Seq<char>, haystack: Seq<char>) -> Seq<Seq<Option<Span>>> {
    match regex_captures(pattern, haystack) {
        Some(ms) => ms,
        None => Seq::empty(),
    }
}

/// The span of each whole match.
pub open spec fn whole_spans(ms: Seq<Seq<Option<Span>>>) -> Seq<Span> {
    Seq::new(
        ms.len(),
        |i: int|
            match group_at(ms[i], 0) {
                Some(sp) => sp,
                None => (0usize, 0usize),
            },
    )
}

/// The spans at which `pattern` matches in `haystack`.
pub open spec fn spans_of(pattern: Seq<char>, haystack: Seq<char>) -> Seq<Span> {
    whole_spans(captures_of(pattern, haystack))
}

/// The spans lie in the text between characters and follow one another
/// without overlap.
pub open spec fn spans_ok(text: Seq<char>, spans: Seq<Span>) -> bool {
    &&& forall|i: int|
        0 <= i < spans.len() ==> span_ok(text, (#[trigger] spans[i]).0 as int, spans[i].1 as int)
    &&& forall|i: int, j: int|
        0 <= i < j < spans.len() ==> (#[trigger] spans[i]).1 <= (#[trigger] spans[j]).0
}

/// `regex::Regex::new` and `Regex::captures_iter`, with each `Captures` read
/// through `Captures::iter`, `Match::start` and `Match::end`.
///
/// The result is named [`regex_captures`]. Beyond the name, the contract
/// states what the crate documents of every search: group 0 is present in
/// every match, each span has `start <= end` and falls on UTF-8 character
/// boundaries of the haystack, and successive matches do not overlap.
#[verifier::external_body]
fn captures_iter(pattern: &str, haystack: &str) -> (found: Option<Vec<Groups>>)
    ensures
        found matches Some(ms) ==> regex_captures(pattern@, haystack@) == Some(groups_view(ms@))
            && matches_ok(haystack@, groups_view(ms@)),
        found is None ==> regex_captures(pattern@, haystack@) is None,
{
    match regex::Regex::new(pattern) {
        Ok(re) => Some(
            re.captures_iter(haystack).map(
                |c| c.iter().map(|g| g.map(|m| (m.start(), m.end()))).collect(),
            ).collect(),
        ),
        Err(_) => None,
    }
}

/// All matches of `pattern` in `haystack`, each with its capture groups.
pub fn find_captures(pattern: &str, haystack: &str) -> (ms: Vec<Groups>)
    ensures
        groups_view(ms@) == captures_of(pattern@, haystack@),
        matches_ok(haystack@, groups_view(ms@)),
{
    match captures_iter(pattern, haystack) {
        Some(ms) => ms,
        None => {
            let ms: Vec<Groups> = Vec::new();
            assert(groups_view(ms@) =~= Seq::empty());
            ms
        },
    }
}

/// Group `k` of a match.
pub fn group(m: &Groups, k: usize) -> (g: Option<Span>)
    ensures
        g == group_at(m@, k as int),
{
    if k < m.len() {
        m[k]
    } else {
        None
    }
}

/// Where a match starts.
pub fn start(m: &Groups) -> (at: usize)
    ensures
        at == start_of(m@),
{
    match group(m, 0) {
        Some(sp) => sp.0,
        None => 0,
    }
}

/// Where a match ends.
pub fn end(m: &Groups) -> (at: usize)
    ensures
        at == end_of(m@),
{
    match group(m, 0) {
        Some(sp) => sp.1,
        None => 0,
    }
}

/// The spans at which `pattern` matches in `haystack`.
pub fn find_spans(pattern: &str, haystack: &str) -> (spans: Vec<Span>)
    ensures
        spans@ == spans_of(pattern@, haystack@),
        spans_ok(haystack@, spans@),
{
    let ms = find_captures(pattern, haystack);
    let mut spans: Vec<Span> = Vec::new();
    let mut i: usize = 0;
    while i < ms.len()
        invariant
            i <= ms.len(),
            matches_ok(haystack@, groups_view(ms@)),
            spans@ == whole_spans(groups_view(ms@)).take(i as int),
        decreases ms.len() - i,
    {
        let sp: Span = match group(&ms[i], 0) {
            Some(sp) => sp,
            None => (0, 0),
        };
        assert(groups_view(ms@)[i as int] == ms@[i as int]@);
        spans.push(sp);
        assert(spans@ =~= whole_spans(groups_view(ms@)).take(i + 1));
        i += 1;
    }
    proof {
        let gv = groups_view(ms@);
        assert(spans@ =~= whole_spans(gv));
        assert forall|a: int| 0 <= a < spans.len() implies span_ok(
            haystack@,
            (#[trigger] spans@[a]).0 as int,
            spans@[a].1 as int,
        ) by {
            assert(gv[a].len() >= 1 && gv[a][0] is Some);
            assert(gv[a][0] matches Some(sp) ==> span_ok(haystack@, sp.0 as int, sp.1 as int));
        }
        assert forall|a: int, b: int| 0 <= a < b < spans.len() implies (#[trigger] spans@[a]).1 <= (
        #[trigger] spans@[b]).0 by {
            assert(gv[a].len() >= 1 && gv[a][0] is Some);
            assert(gv[b].len() >= 1 && gv[b][0] is Some);
            assert(end_of(gv[a]) <= start_of(gv[b]));
        }
    }
    spans
}

} // verus!
