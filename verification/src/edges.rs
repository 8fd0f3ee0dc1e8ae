//! Whitespace at the edges of a document: blank lines at its start are
//! dropped, and it ends with exactly one line break.

use crate::pattern::{
    captures_of, end, end_of, find_captures, groups_view, matches_ok, start, start_of, Groups,
    Span,
};
use crate::text::{
    byte_len, byte_slice, concat, cut, lemma_byte_slice_whole, owned, trim_end, trimmed_at_end,
};
use crate::token::{set_contents, Token, TokenView};
use vstd::prelude::*;

verus! {

/// A run of lines at the start of the text that hold nothing but whitespace.
pub const LEADING_BLANK_LINES_PATTERN: &'static str = r"^(\s*\n)+";

/// `text` without the first of the matches found in it.
pub open spec fn without_first_match(text: Seq<char>, ms: Seq<Seq<Option<Span>>>) -> Seq<char> {
    if ms.len() >= 1 {
        byte_slice(text, 0, start_of(ms[0])) + byte_slice(
            text,
            end_of(ms[0]),
            byte_len(text) as int,
        )
    } else {
        text
    }
}

/// `text` without the blank lines at its start.
pub open spec fn strip_leading_blank_lines_spec(text: Seq<char>) -> Seq<char> {
    without_first_match(text, captures_of(LEADING_BLANK_LINES_PATTERN@, text))
}

/// The document's first token, if it is text, loses its leading blank lines.
pub open spec fn strip_leading(tokens: Seq<TokenView>) -> Seq<TokenView> {
    if tokens.len() > 0 {
        match tokens[0] {
            TokenView::Text { contents, lineno } => tokens.update(
                0,
                TokenView::Text { contents: strip_leading_blank_lines_spec(contents), lineno },
            ),
            _ => tokens,
        }
    } else {
        tokens
    }
}

/// The document ends with one line break: a last token that is text has its
/// trailing whitespace replaced by `newline`; after any other last token, and
/// in a document without tokens, a text token holding `newline` is added.
pub open spec fn end_with_newline(tokens: Seq<TokenView>, newline: Seq<char>) -> Seq<TokenView> {
    let added = tokens.push(TokenView::Text { contents: newline, lineno: 0 });
    if tokens.len() > 0 {
        match tokens.last() {
            TokenView::Text { contents, lineno } => tokens.update(
                tokens.len() - 1,
                TokenView::Text { contents: trim_end(contents) + newline, lineno },
            ),
            _ => added,
        }
    } else {
        added
    }
}

/// The whitespace pass: first the start of the document, then its end.
pub open spec fn update_leading_trailing_whitespace_spec(
    tokens: Seq<TokenView>,
    newline: Seq<char>,
) -> Seq<TokenView> {
    end_with_newline(strip_leading(tokens), newline)
}

/// Removes from `text` the first of the matches found in it.
pub fn remove_first_match(text: &str, ms: &Vec<Groups>) -> (r: String)
    requires
        matches_ok(text@, groups_view(ms@)),
    ensures
        r@ == without_first_match(text@, groups_view(ms@)),
{
    if ms.len() == 0 {
        return owned(text);
    }
    let m: &Groups = &ms[0];
    proof {
        let gv = groups_view(ms@);
        assert(gv[0] == m@);
        assert(gv[0].len() >= 1 && gv[0][0] is Some);
        assert(gv[0][0] == m@[0]);
        lemma_byte_slice_whole(text@);
    }
    let from: usize = start(m);
    let to: usize = end(m);
    let n: usize = text.as_bytes().len();
    concat(cut(text, 0, from), cut(text, to, n))
}

/// `text` without the blank lines at its start.
pub fn strip_leading_blank_lines(text: &str) -> (r: String)
    ensures
        r@ == strip_leading_blank_lines_spec(text@),
{
    let ms = find_captures(LEADING_BLANK_LINES_PATTERN, text);
    remove_first_match(text, &ms)
}

/// Drops blank lines from the start of the document and ends it with exactly
/// one `newline`.
pub fn update_leading_trailing_whitespace(tokens: &mut Vec<Token>, newline: &str)
    ensures
        final(tokens).deep_view() == update_leading_trailing_whitespace_spec(
            old(tokens).deep_view(),
            newline@,
        ),
{
    if tokens.len() > 0 {
        let stripped: Option<String> = match &tokens[0] {
            Token::Text { contents, .. } => Some(strip_leading_blank_lines(contents.as_str())),
            _ => None,
        };
        match stripped {
            Some(contents) => {
                set_contents(tokens, 0, contents);
            },
            None => {},
        }
    }
    let n: usize = tokens.len();
    let ended: Option<String> = if n > 0 {
        match &tokens[n - 1] {
            Token::Text { contents, .. } => {
                let kept = trimmed_at_end(contents.as_str());
                Some(concat(kept.as_str(), newline))
            },
            _ => None,
        }
    } else {
        None
    };
    match ended {
        Some(contents) => {
            set_contents(tokens, n - 1, contents);
        },
        None => {
            let ghost before = tokens.deep_view();
            let token = Token::Text { contents: owned(newline), lineno: 0 };
            tokens.push(token);
            assert(tokens.deep_view() =~= before.push(token@));
        },
    }
}

} // verus!
