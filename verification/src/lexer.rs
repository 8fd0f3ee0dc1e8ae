//! The tag lexer: cuts a document into text, variable tags, block tags and
//! comments, counting lines and leaving everything between `verbatim` and its
//! end tag as text.

use crate::bits::{split_contents, split_contents_spec};
use crate::filter::{lex_filter_expression, lex_filter_expression_spec};
use crate::pattern::{find_spans, spans_of, spans_ok, Span};
use crate::text::{
    byte_len, byte_slice, chars_of, concat, count_newlines, cut, has_prefix,
    lemma_byte_slice_concat, lemma_byte_slice_len, lemma_byte_slice_whole, lemma_newlines_bound,
    newlines, on_boundary, owned, span_ok, str_eq, substring, trim, trimmed,
};
use crate::token::{Token, TokenView};
use vstd::prelude::*;

verus! {

/// A tag of any of the three kinds, ending at the nearest closing delimiter
/// of its own kind.
pub const TAG_PATTERN: &'static str = r"(\{%.*?%\}|\{\{.*?\}\}|\{#.*?#\})";

/// What stands between the delimiters of a tag, trimmed. A piece too short to
/// have two delimiters has an empty interior.
pub open spec fn interior(piece: Seq<char>) -> Seq<char> {
    if piece.len() >= 4 {
        trim(piece.subrange(2, piece.len() - 2))
    } else {
        Seq::empty()
    }
}

/// The piece starts with `{%`.
pub open spec fn is_block_tag(piece: Seq<char>) -> bool {
    piece.len() >= 2 && piece[0] == '{' && piece[1] == '%'
}

/// The piece starts with `{{`.
pub open spec fn is_variable_tag(piece: Seq<char>) -> bool {
    piece.len() >= 2 && piece[0] == '{' && piece[1] == '{'
}

/// The model of the lexer's verbatim state: the interior that ends verbatim
/// mode, when the lexer is in it.
pub open spec fn terminator(verbatim: Option<String>) -> Option<Seq<char>> {
    match verbatim {
        Some(v) => Some(v@),
        None => None,
    }
}

/// The token made from one piece of the document, and the verbatim state
/// after it.
///
/// Outside a tag the piece is text. A block tag in verbatim mode is text
/// unless its interior is the awaited terminator, which ends the mode; out of
/// verbatim mode it is a block, and one whose interior starts with `verbatim`
/// begins the mode. Any other tag in verbatim mode is text; out of it, it is
/// a variable if it starts with `{{`, else a comment.
pub open spec fn create_token_spec(
    piece: Seq<char>,
    lineno: nat,
    in_tag: bool,
    verbatim: Option<Seq<char>>,
) -> (TokenView, Option<Seq<char>>) {
    let as_text = (TokenView::Text { contents: piece, lineno }, verbatim);
    let content = interior(piece);
    if !in_tag {
        as_text
    } else if is_block_tag(piece) {
        let block = TokenView::Block { bits: split_contents_spec(content), lineno };
        match verbatim {
            Some(awaited) => if content == awaited {
                (block, None)
            } else {
                as_text
            },
            None => if "verbatim"@.is_prefix_of(content) {
                (block, Some("end"@ + content))
            } else {
                (block, None)
            },
        }
    } else if verbatim is Some {
        as_text
    } else if is_variable_tag(piece) {
        (
            TokenView::Variable { filter_expression: lex_filter_expression_spec(content), lineno },
            None,
        )
    } else {
        (TokenView::Comment { contents: content, lineno }, None)
    }
}

/// Where the lexer stands: the tokens so far, the byte offset up to which the
/// document is consumed, the current line and the verbatim state.
pub struct LexState {
    pub tokens: Seq<TokenView>,
    pub last_end: int,
    pub lineno: nat,
    pub verbatim: Option<Seq<char>>,
}

/// The lexer's state after one more tag, found at `sp`: the text between the
/// last tag and this one, if there is any, becomes a text token, then the tag
/// becomes a token; the line counter advances by the line feeds in both.
pub open spec fn lex_step(text: Seq<char>, st: LexState, sp: Span) -> LexState {
    let gap = byte_slice(text, st.last_end, sp.0 as int);
    let with_gap = if sp.0 > st.last_end {
        st.tokens.push(TokenView::Text { contents: gap, lineno: st.lineno })
    } else {
        st.tokens
    };
    let line = if sp.0 > st.last_end {
        st.lineno + newlines(gap)
    } else {
        st.lineno
    };
    let tag = byte_slice(text, sp.0 as int, sp.1 as int);
    let made = create_token_spec(tag, line, true, st.verbatim);
    LexState {
        tokens: with_gap.push(made.0),
        last_end: sp.1 as int,
        lineno: line + newlines(tag),
        verbatim: made.1,
    }
}

/// The lexer's state after the tags at `spans`. Lines are counted from 1.
pub open spec fn lex_state(text: Seq<char>, spans: Seq<Span>) -> LexState
    decreases spans.len(),
{
    if spans.len() == 0 {
        LexState { tokens: Seq::empty(), last_end: 0, lineno: 1, verbatim: None }
    } else {
        lex_step(text, lex_state(text, spans.drop_last()), spans.last())
    }
}

/// The tokens of `text`, given where its tags are: the tokens up to the last
/// tag, and a text token for what is left after it.
pub open spec fn lex_spans_spec(text: Seq<char>, spans: Seq<Span>) -> Seq<TokenView> {
    let st = lex_state(text, spans);
    if st.last_end < byte_len(text) {
        st.tokens.push(
            TokenView::Text {
                contents: byte_slice(text, st.last_end, byte_len(text) as int),
                lineno: st.lineno,
            },
        )
    } else {
        st.tokens
    }
}

/// The tokens of `text`.
pub open spec fn lex_spec(text: Seq<char>) -> Seq<TokenView> {
    lex_spans_spec(text, spans_of(TAG_PATTERN@, text))
}

/// Makes the token for one piece of the document and updates the verbatim
/// state.
pub fn create_token(
    token_string: &str,
    lineno: usize,
    in_tag: bool,
    verbatim: &mut Option<String>,
) -> (token: Token)
    ensures
        token@ == create_token_spec(
            token_string@,
            lineno as nat,
            in_tag,
            terminator(*old(verbatim)),
        ).0,
        terminator(*final(verbatim)) == create_token_spec(
            token_string@,
            lineno as nat,
            in_tag,
            terminator(*old(verbatim)),
        ).1,
{
    if !in_tag {
        return Token::Text { contents: owned(token_string), lineno };
    }
    let cs = chars_of(token_string);
    let n: usize = cs.len();
    let content: String = if n >= 4 {
        let inner = substring(token_string, 2, n - 2);
        trimmed(inner.as_str())
    } else {
        owned("")
    };
    proof {
        reveal_strlit("");
        assert(""@ =~= Seq::<char>::empty());
    }
    if n >= 2 && cs[0] == '{' && cs[1] == '%' {
        let awaited: bool = verbatim.is_some();
        let ends: bool = match verbatim {
            Some(v) => str_eq(content.as_str(), v.as_str()),
            None => false,
        };
        if awaited && !ends {
            return Token::Text { contents: owned(token_string), lineno };
        }
        if awaited {
            *verbatim = None;
        } else if has_prefix(&chars_of(content.as_str()), &chars_of("verbatim")) {
            *verbatim = Some(concat("end", content.as_str()));
        }
        Token::Block { bits: split_contents(content.as_str()), lineno }
    } else if verbatim.is_some() {
        Token::Text { contents: owned(token_string), lineno }
    } else if n >= 2 && cs[0] == '{' && cs[1] == '{' {
        Token::Variable { filter_expression: lex_filter_expression(content.as_str()), lineno }
    } else {
        Token::Comment { contents: content, lineno }
    }
}

/// Lexes `text`, given the spans of its tags.
pub fn lex_spans(text: &str, spans: &Vec<Span>) -> (tokens: Vec<Token>)
    requires
        spans_ok(text@, spans@),
        text@.len() < usize::MAX,
    ensures
        tokens.deep_view() == lex_spans_spec(text@, spans@),
{
    let mut tokens: Vec<Token> = Vec::new();
    let mut verbatim: Option<String> = None;
    let mut lineno: usize = 1;
    let mut last_end: usize = 0;
    let mut i: usize = 0;
    proof {
        lemma_byte_slice_whole(text@);
        assert(spans@.take(0) =~= Seq::empty());
        assert(tokens.deep_view() =~= Seq::empty());
    }
    while i < spans.len()
        invariant
            i <= spans.len(),
            spans_ok(text@, spans@),
            text@.len() < usize::MAX,
            on_boundary(text@, last_end as int),
            i > 0 ==> last_end == spans@[i - 1].1,
            lineno <= 1 + byte_slice(text@, 0, last_end as int).len(),
            tokens.deep_view() == lex_state(text@, spans@.take(i as int)).tokens,
            last_end == lex_state(text@, spans@.take(i as int)).last_end,
            lineno == lex_state(text@, spans@.take(i as int)).lineno,
            terminator(verbatim) == lex_state(text@, spans@.take(i as int)).verbatim,
        decreases spans.len() - i,
    {
        let sp: Span = spans[i];
        proof {
            assert(spans@.take(i + 1).drop_last() =~= spans@.take(i as int));
            assert(spans@.take(i + 1).last() == sp);
            assert(span_ok(text@, sp.0 as int, sp.1 as int));
            if i > 0 {
                assert(spans@[i - 1].1 <= spans@[i as int].0);
            }
            lemma_byte_slice_whole(text@);
            lemma_byte_slice_concat(text@, 0, last_end as int, sp.0 as int);
            lemma_byte_slice_concat(text@, 0, sp.0 as int, sp.1 as int);
            lemma_byte_slice_len(text@, 0, sp.1 as int);
        }
        if sp.0 > last_end {
            let gap = cut(text, last_end, sp.0);
            let gap_chars = chars_of(gap);
            let count = count_newlines(&gap_chars);
            proof {
                lemma_newlines_bound(gap@);
            }
            let ghost before = tokens.deep_view();
            let token = Token::Text { contents: owned(gap), lineno };
            tokens.push(token);
            assert(tokens.deep_view() =~= before.push(token@));
            lineno = lineno + count;
        }
        let tag = cut(text, sp.0, sp.1);
        let tag_chars = chars_of(tag);
        let count = count_newlines(&tag_chars);
        proof {
            lemma_newlines_bound(tag@);
        }
        let ghost before = tokens.deep_view();
        let token = create_token(tag, lineno, true, &mut verbatim);
        tokens.push(token);
        assert(tokens.deep_view() =~= before.push(token@));
        lineno = lineno + count;
        last_end = sp.1;
        i += 1;
    }
    assert(spans@.take(spans.len() as int) =~= spans@);
    let n: usize = text.as_bytes().len();
    if last_end < n {
        let rest = cut(text, last_end, n);
        let ghost before = tokens.deep_view();
        let token = Token::Text { contents: owned(rest), lineno };
        tokens.push(token);
        assert(tokens.deep_view() =~= before.push(token@));
    }
    tokens
}

/// Lexes a document into tokens.
pub fn lex(template_string: &str) -> (tokens: Vec<Token>)
    requires
        template_string@.len() < usize::MAX,
    ensures
        tokens.deep_view() == lex_spec(template_string@),
{
    let spans = find_spans(TAG_PATTERN, template_string);
    lex_spans(template_string, &spans)
}

} // verus!
