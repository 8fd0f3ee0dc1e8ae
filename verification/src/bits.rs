//! Splitting the interior of a block tag into its bits.
//!
//! The interior is cut into words at whitespace, with quoted strings kept
//! whole; then a translated literal such as `_("two words")`, which the first
//! step cuts at its spaces, is put together again.

use crate::pattern::{find_spans, spans_of, Span};
use crate::text::{byte_slice, chars_of, concat, cut, owned, span_ok};
use vstd::prelude::*;

verus! {

/// A word: a run without whitespace in which quoted strings, spaces and all,
/// count as one, or else any run without whitespace.
pub const WORD_PATTERN: &'static str =
    r#"(?x)
        ((?:
            [^\s'"]*
            (?:
                (?:"(?:[^"\\]|\\.)*" | '(?:[^'\\]|\\.)*')
                [^\s'"]*
            )+
        ) | \S+)"#;

/// The pieces of `text` at the given spans.
pub open spec fn pieces_at(text: Seq<char>, spans: Seq<Span>) -> Seq<Seq<char>> {
    Seq::new(spans.len(), |i: int| byte_slice(text, spans[i].0 as int, spans[i].1 as int))
}

/// The words of `text`.
pub open spec fn smart_split_spec(text: Seq<char>) -> Seq<Seq<char>> {
    pieces_at(text, spans_of(WORD_PATTERN@, text))
}

/// The bit starts a translated literal: `_(` and a quote.
pub open spec fn opens_translation(bit: Seq<char>) -> bool {
    bit.len() >= 3 && bit[0] == '_' && bit[1] == '(' && (bit[2] == '"' || bit[2] == '\'')
}

/// The bit ends a translated literal that was opened with `quote`.
pub open spec fn closes_translation(bit: Seq<char>, quote: char) -> bool {
    bit.len() >= 2 && bit[bit.len() - 2] == quote && bit[bit.len() - 1] == ')'
}

/// Where the merging of words stands: the finished bits, and the translated
/// literal that is still open, with its quote.
pub struct Merging {
    pub done: Seq<Seq<char>>,
    pub open: Option<(Seq<char>, char)>,
}

/// Takes one more word into account.
pub open spec fn merge_step(m: Merging, word: Seq<char>) -> Merging {
    match m.open {
        Some((so_far, quote)) => {
            let joined = so_far + seq![' '] + word;
            if closes_translation(word, quote) {
                Merging { done: m.done.push(joined), open: None }
            } else {
                Merging { done: m.done, open: Some((joined, quote)) }
            }
        },
        None => {
            if opens_translation(word) && !closes_translation(word, word[2]) {
                Merging { done: m.done, open: Some((word, word[2])) }
            } else {
                Merging { done: m.done.push(word), open: None }
            }
        },
    }
}

/// Where the merging stands after all of `words`.
pub open spec fn merge_state(words: Seq<Seq<char>>) -> Merging
    decreases words.len(),
{
    if words.len() == 0 {
        Merging { done: Seq::empty(), open: None }
    } else {
        merge_step(merge_state(words.drop_last()), words.last())
    }
}

/// The bits that `words` make: a word that opens a translated literal is
/// joined, with single spaces, to the words after it up to and including the
/// first that closes the literal, or to all of them if none does.
pub open spec fn merge_translations_spec(words: Seq<Seq<char>>) -> Seq<Seq<char>> {
    let m = merge_state(words);
    match m.open {
        Some((so_far, _)) => m.done.push(so_far),
        None => m.done,
    }
}

/// The bits of a block tag's interior.
pub open spec fn split_contents_spec(contents: Seq<char>) -> Seq<Seq<char>> {
    merge_translations_spec(smart_split_spec(contents))
}

/// Cuts `text` at `spans`.
pub fn pieces(text: &str, spans: &Vec<Span>) -> (out: Vec<String>)
    requires
        forall|i: int|
            0 <= i < spans.len() ==> span_ok(
                text@,
                (#[trigger] spans[i]).0 as int,
                spans[i].1 as int,
            ),
    ensures
        out.deep_view() == pieces_at(text@, spans@),
{
    let mut out: Vec<String> = Vec::new();
    let mut i: usize = 0;
    while i < spans.len()
        invariant
            i <= spans.len(),
            forall|i: int|
                0 <= i < spans.len() ==> span_ok(
                    text@,
                    (#[trigger] spans[i]).0 as int,
                    spans[i].1 as int,
                ),
            out.deep_view() == pieces_at(text@, spans@).take(i as int),
        decreases spans.len() - i,
    {
        let sp: Span = spans[i];
        let piece = owned(cut(text, sp.0, sp.1));
        let ghost before = out.deep_view();
        out.push(piece);
        assert(out.deep_view() =~= before.push(piece@));
        assert(pieces_at(text@, spans@).take(i + 1) =~= pieces_at(text@, spans@).take(
            i as int,
        ).push(piece@));
        i += 1;
    }
    assert(out.deep_view() =~= pieces_at(text@, spans@));
    out
}

/// Splits `text` at whitespace, keeping quoted strings whole.
pub fn smart_split(text: &str) -> (words: Vec<String>)
    ensures
        words.deep_view() == smart_split_spec(text@),
{
    let spans = find_spans(WORD_PATTERN, text);
    pieces(text, &spans)
}

/// Puts translated literals back together.
pub fn merge_translations(words: &Vec<String>) -> (bits: Vec<String>)
    ensures
        bits.deep_view() == merge_translations_spec(words.deep_view()),
{
    let mut done: Vec<String> = Vec::new();
    let mut open: Option<(String, char)> = None;
    let mut i: usize = 0;
    let ghost all = words.deep_view();
    assert(all.take(0) =~= Seq::empty());
    while i < words.len()
        invariant
            i <= words.len(),
            all == words.deep_view(),
            done.deep_view() == merge_state(all.take(i as int)).done,
            match open {
                Some((so_far, quote)) => merge_state(all.take(i as int)).open == Some(
                    (so_far@, quote),
                ),
                None => merge_state(all.take(i as int)).open is None,
            },
        decreases words.len() - i,
    {
        let word: &String = &words[i];
        let cs = chars_of(word.as_str());
        proof {
            assert(all.take(i + 1).drop_last() =~= all.take(i as int));
            assert(all.take(i + 1).last() == word@);
        }
        let n: usize = cs.len();
        match open {
            Some((so_far, quote)) => {
                let spaced = concat(so_far.as_str(), " ");
                let joined = concat(spaced.as_str(), word.as_str());
                proof {
                    reveal_strlit(" ");
                    assert(" "@ =~= seq![' ']);
                }
                if n >= 2 && cs[n - 2] == quote && cs[n - 1] == ')' {
                    let ghost before = done.deep_view();
                    done.push(joined);
                    assert(done.deep_view() =~= before.push(joined@));
                    open = None;
                } else {
                    open = Some((joined, quote));
                }
            },
            None => {
                if n >= 3 && cs[0] == '_' && cs[1] == '(' && (cs[2] == '"' || cs[2] == '\'') && !(
                cs[n - 2] == cs[2] && cs[n - 1] == ')') {
                    open = Some((owned(word.as_str()), cs[2]));
                } else {
                    let ghost before = done.deep_view();
                    done.push(owned(word.as_str()));
                    assert(done.deep_view() =~= before.push(word@));
                    open = None;
                }
            },
        }
        i += 1;
    }
    assert(all.take(words.len() as int) =~= all);
    match open {
        Some((so_far, _)) => {
            let ghost before = done.deep_view();
            done.push(so_far);
            assert(done.deep_view() =~= before.push(so_far@));
        },
        None => {},
    }
    done
}

/// Splits the interior of a block tag into its bits.
pub fn split_contents(contents: &str) -> (bits: Vec<String>)
    ensures
        bits.deep_view() == split_contents_spec(contents@),
{
    let words = smart_split(contents);
    merge_translations(&words)
}

} // verus!
