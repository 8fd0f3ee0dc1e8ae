//! The passes that look at `block` tags: the label of `endblock`, and the
//! indentation and spacing of the top-level blocks of a template that
//! extends another.

use crate::text::{concat, owned, str_eq, strip_indent, unindented};
use crate::token::{set_bits, set_contents, Token, TokenView};
use vstd::prelude::*;

verus! {

/// An open block: its label, if it has one, and the line it is on.
pub type OpenBlock = (Option<Seq<char>>, nat);

/// Where the labelling stands: the blocks that are open, innermost last, and
/// the tokens as rewritten so far.
pub struct Labelling {
    pub stack: Seq<OpenBlock>,
    pub tokens: Seq<TokenView>,
}

/// The label that a `block` tag gives its block: its second bit.
pub open spec fn label_of(t: TokenView) -> Option<Seq<char>> {
    if t.bits().len() >= 2 {
        Some(t.bits()[1])
    } else {
        None
    }
}

/// An `endblock` tag that can be matched with a block: bare, or with one
/// argument.
pub open spec fn closes_block(t: TokenView) -> bool {
    t.is_tag("endblock"@) && t.bits().len() <= 2
}

/// The `endblock` tag `t` in its canonical form, given the block that it
/// closes. It is rewritten if the block has a label and the tag is bare or
/// names that label: to the bare form if both tags are on one line, else to
/// the form with the label. In every other case it stays.
pub open spec fn relabel(t: TokenView, opened: OpenBlock) -> TokenView {
    match opened.0 {
        Some(label) => if t.bits().len() == 1 || t.bits()[1] == label {
            TokenView::Block {
                bits: if opened.1 == t.line() {
                    seq!["endblock"@]
                } else {
                    seq!["endblock"@, label]
                },
                lineno: t.line(),
            }
        } else {
            t
        },
        None => t,
    }
}

/// Takes one more token into account: a `block` tag opens a block, an
/// `endblock` tag with at most one argument closes the innermost open block
/// and is put in canonical form.
pub open spec fn label_step(st: Labelling, t: TokenView) -> Labelling {
    if t.is_tag("block"@) {
        Labelling { stack: st.stack.push((label_of(t), t.line())), tokens: st.tokens.push(t) }
    } else if closes_block(t) && st.stack.len() > 0 {
        Labelling {
            stack: st.stack.drop_last(),
            tokens: st.tokens.push(relabel(t, st.stack.last())),
        }
    } else {
        Labelling { stack: st.stack, tokens: st.tokens.push(t) }
    }
}

/// The labelling after all of `tokens`.
pub open spec fn labelling(tokens: Seq<TokenView>) -> Labelling
    decreases tokens.len(),
{
    if tokens.len() == 0 {
        Labelling { stack: Seq::empty(), tokens: Seq::empty() }
    } else {
        label_step(labelling(tokens.drop_last()), tokens.last())
    }
}

/// The label pass.
pub open spec fn update_endblock_labels_spec(tokens: Seq<TokenView>) -> Seq<TokenView> {
    labelling(tokens).tokens
}

/// The labelling keeps the number of tokens.
pub proof fn lemma_labelling_len(tokens: Seq<TokenView>)
    ensures
        labelling(tokens).tokens.len() == tokens.len(),
    decreases tokens.len(),
{
    if tokens.len() > 0 {
        lemma_labelling_len(tokens.drop_last());
    }
}

/// The model of an open block.
pub open spec fn open_block_view(b: (Option<String>, usize)) -> OpenBlock {
    (
        match b.0 {
            Some(label) => Some(label@),
            None => None,
        },
        b.1 as nat,
    )
}

/// The model of the stack of open blocks.
pub open spec fn stack_view(stack: Seq<(Option<String>, usize)>) -> Seq<OpenBlock> {
    Seq::new(stack.len(), |k: int| open_block_view(stack[k]))
}

/// The new bits of the `endblock` tag `token`, if the block that it closes
/// asks for a change.
fn relabelled(token: &Token, opened: &(Option<String>, usize)) -> (bits: Option<Vec<String>>)
    requires
        closes_block(token@),
    ensures
        match bits {
            Some(bits) => relabel(token@, open_block_view(*opened)) == (TokenView::Block {
                bits: bits.deep_view(),
                lineno: token@.line(),
            }),
            None => relabel(token@, open_block_view(*opened)) == token@,
        },
{
    match &opened.0 {
        Some(label) => {
            let n: usize = token.bit_count();
            let matches: bool = n == 1 || str_eq(token.bit(1).as_str(), label.as_str());
            if matches {
                let mut bits: Vec<String> = Vec::new();
                bits.push(owned("endblock"));
                if opened.1 != token.lineno() {
                    bits.push(owned(label.as_str()));
                    assert(bits.deep_view() =~= seq!["endblock"@, label@]);
                } else {
                    assert(bits.deep_view() =~= seq!["endblock"@]);
                }
                Some(bits)
            } else {
                None
            }
        },
        None => None,
    }
}

/// Puts the label of every `endblock` tag in canonical form: none where the
/// block starts and ends on one line, the block's label where it does not.
pub fn update_endblock_labels(tokens: &mut Vec<Token>)
    ensures
        final(tokens).deep_view() == update_endblock_labels_spec(old(tokens).deep_view()),
{
    let ghost before = tokens.deep_view();
    let mut stack: Vec<(Option<String>, usize)> = Vec::new();
    let mut i: usize = 0;
    proof {
        assert(before.take(0) =~= Seq::empty());
        assert(stack_view(stack@) =~= Seq::empty());
        assert(Seq::<TokenView>::empty() + before.skip(0) =~= before);
    }
    while i < tokens.len()
        invariant
            i <= tokens.len() == before.len(),
            stack_view(stack@) == labelling(before.take(i as int)).stack,
            tokens.deep_view() == labelling(before.take(i as int)).tokens + before.skip(i as int),
            labelling(before.take(i as int)).tokens.len() == i,
        decreases tokens.len() - i,
    {
        let ghost done = labelling(before.take(i as int));
        let ghost held = stack_view(stack@);
        let ghost current = tokens.deep_view();
        proof {
            assert(before.take(i + 1).drop_last() =~= before.take(i as int));
            assert(before.take(i + 1).last() == before[i as int]);
            assert(current[i as int] == before[i as int]);
            assert(tokens[i as int]@ == before[i as int]);
            lemma_labelling_len(before.take(i + 1));
        }
        if tokens[i].is_tag("block") {
            let label: Option<String> = if tokens[i].bit_count() >= 2 {
                Some(tokens[i].bit(1))
            } else {
                None
            };
            let opened: (Option<String>, usize) = (label, tokens[i].lineno());
            stack.push(opened);
            assert(stack_view(stack@) =~= held.push(open_block_view(opened)));
            assert(current =~= done.tokens.push(before[i as int]) + before.skip(i + 1));
        } else if tokens[i].is_tag("endblock") && tokens[i].bit_count() <= 2 && stack.len() > 0 {
            let opened = stack.pop().unwrap();
            assert(stack_view(stack@) =~= held.drop_last());
            assert(open_block_view(opened) == held.last());
            match relabelled(&tokens[i], &opened) {
                Some(bits) => {
                    set_bits(tokens, i, bits);
                    assert(tokens.deep_view() =~= done.tokens.push(
                        relabel(before[i as int], held.last()),
                    ) + before.skip(i + 1));
                },
                None => {
                    assert(current =~= done.tokens.push(before[i as int]) + before.skip(i + 1));
                },
            }
        } else {
            assert(current =~= done.tokens.push(before[i as int]) + before.skip(i + 1));
        }
        i += 1;
    }
    proof {
        assert(before.take(before.len() as int) =~= before);
        assert(before.skip(before.len() as int) =~= Seq::empty());
        assert(labelling(before).tokens + Seq::<TokenView>::empty() =~= labelling(before).tokens);
    }
}

/// The tokens with the text before index `i`, if text it is, stripped of the
/// spaces and tabs at its end.
pub open spec fn unindent_at(tokens: Seq<TokenView>, i: int) -> Seq<TokenView> {
    if 0 < i <= tokens.len() {
        match tokens[i - 1] {
            TokenView::Text { contents, lineno } => tokens.update(
                i - 1,
                TokenView::Text { contents: strip_indent(contents), lineno },
            ),
            _ => tokens,
        }
    } else {
        tokens
    }
}

/// Where a walk over the top level of a template stands: whether `extends`
/// was seen, how deep in blocks the walk is, the index of the last top-level
/// tag, and the tokens as rewritten so far.
pub struct TopLevel {
    pub extends: bool,
    pub depth: int,
    pub last: Option<int>,
    pub tokens: Seq<TokenView>,
}

/// The walk's state before the first token.
pub open spec fn top_level_start(tokens: Seq<TokenView>) -> TopLevel {
    TopLevel { extends: false, depth: 0, last: None, tokens }
}

/// One step of the indentation pass, at index `i`. The text before `extends`
/// is stripped of indentation; so is, once `extends` was seen, the text
/// before a `block` or `endblock` tag of the top level.
pub open spec fn indent_step(st: TopLevel, i: int) -> TopLevel {
    let t = st.tokens[i];
    if t.is_tag("extends"@) {
        TopLevel { extends: true, tokens: unindent_at(st.tokens, i), ..st }
    } else if t.is_tag("block"@) {
        TopLevel {
            depth: st.depth + 1,
            tokens: if st.extends && st.depth == 0 {
                unindent_at(st.tokens, i)
            } else {
                st.tokens
            },
            ..st
        }
    } else if t.is_tag("endblock"@) {
        TopLevel {
            depth: st.depth - 1,
            tokens: if st.extends && st.depth - 1 == 0 {
                unindent_at(st.tokens, i)
            } else {
                st.tokens
            },
            ..st
        }
    } else {
        st
    }
}

/// The indentation pass after the first `n` tokens.
pub open spec fn indent_state(tokens: Seq<TokenView>, n: int) -> TopLevel
    decreases n,
{
    if n <= 0 {
        top_level_start(tokens)
    } else {
        indent_step(indent_state(tokens, n - 1), n - 1)
    }
}

/// The indentation pass.
pub open spec fn update_top_level_block_indentation_spec(tokens: Seq<TokenView>) -> Seq<
    TokenView,
> {
    indent_state(tokens, tokens.len() as int).tokens
}

/// One step of the spacing pass, at index `i`. Once `extends` was seen, a
/// `block` tag of the top level that follows the last top-level tag with
/// nothing but one blank text between them has that text replaced by two
/// line breaks.
pub open spec fn spacing_step(st: TopLevel, i: int, newline: Seq<char>) -> TopLevel {
    let t = st.tokens[i];
    if t.is_tag("extends"@) {
        TopLevel { extends: true, last: Some(i), ..st }
    } else if t.is_tag("block"@) {
        if st.extends && st.depth == 0 {
            TopLevel {
                depth: st.depth + 1,
                last: Some(i),
                tokens: if i >= 2 && st.last == Some(i - 2) && st.tokens[i - 1].is_blank_text() {
                    st.tokens.update(
                        i - 1,
                        TokenView::Text {
                            contents: newline + newline,
                            lineno: st.tokens[i - 1].line(),
                        },
                    )
                } else {
                    st.tokens
                },
                ..st
            }
        } else {
            TopLevel { depth: st.depth + 1, ..st }
        }
    } else if t.is_tag("endblock"@) {
        TopLevel {
            depth: st.depth - 1,
            last: if st.extends && st.depth - 1 == 0 {
                Some(i)
            } else {
                st.last
            },
            ..st
        }
    } else {
        st
    }
}

/// The spacing pass after the first `n` tokens.
pub open spec fn spacing_state(tokens: Seq<TokenView>, n: int, newline: Seq<char>) -> TopLevel
    decreases n,
{
    if n <= 0 {
        top_level_start(tokens)
    } else {
        spacing_step(spacing_state(tokens, n - 1, newline), n - 1, newline)
    }
}

/// The spacing pass.
pub open spec fn update_top_level_block_spacing_spec(
    tokens: Seq<TokenView>,
    newline: Seq<char>,
) -> Seq<TokenView> {
    spacing_state(tokens, tokens.len() as int, newline).tokens
}

/// Strips the spaces and tabs from the end of the text before `index`.
pub fn unindent_token(tokens: &mut Vec<Token>, index: usize)
    ensures
        final(tokens).deep_view() == unindent_at(old(tokens).deep_view(), index as int),
        final(tokens).len() == old(tokens).len(),
{
    if index == 0 || index > tokens.len() {
        return ;
    }
    let stripped: Option<String> = match &tokens[index - 1] {
        Token::Text { contents, .. } => Some(unindented(contents.as_str())),
        _ => None,
    };
    match stripped {
        Some(contents) => {
            set_contents(tokens, index - 1, contents);
        },
        None => {},
    }
}

/// Removes the indentation of `extends` and of the top-level blocks of a
/// template that extends another.
pub fn update_top_level_block_indentation(tokens: &mut Vec<Token>)
    ensures
        final(tokens).deep_view() == update_top_level_block_indentation_spec(
            old(tokens).deep_view(),
        ),
{
    let ghost before = tokens.deep_view();
    let mut after_extends: bool = false;
    let mut block_depth: i128 = 0;
    let n: usize = tokens.len();
    let mut i: usize = 0;
    while i < n
        invariant
            i <= n == tokens.len() == before.len(),
            -i <= block_depth <= i,
            indent_state(before, i as int) == (TopLevel {
                extends: after_extends,
                depth: block_depth as int,
                last: None,
                tokens: tokens.deep_view(),
            }),
        decreases n - i,
    {
        assert(tokens.deep_view()[i as int] == tokens[i as int]@);
        if tokens[i].is_tag("extends") {
            after_extends = true;
            unindent_token(tokens, i);
        } else if tokens[i].is_tag("block") {
            if after_extends && block_depth == 0 {
                unindent_token(tokens, i);
            }
            block_depth = block_depth + 1;
        } else if tokens[i].is_tag("endblock") {
            block_depth = block_depth - 1;
            if after_extends && block_depth == 0 {
                unindent_token(tokens, i);
            }
        }
        i += 1;
    }
}

/// Puts exactly one blank line between consecutive top-level blocks of a
/// template that extends another.
pub fn update_top_level_block_spacing(tokens: &mut Vec<Token>, newline: &str)
    ensures
        final(tokens).deep_view() == update_top_level_block_spacing_spec(
            old(tokens).deep_view(),
            newline@,
        ),
{
    let ghost before = tokens.deep_view();
    let mut has_extends: bool = false;
    let mut depth: i128 = 0;
    let mut last_top_level_tag: Option<usize> = None;
    let n: usize = tokens.len();
    let mut i: usize = 0;
    while i < n
        invariant
            i <= n == tokens.len() == before.len(),
            -i <= depth <= i,
            spacing_state(before, i as int, newline@) == (TopLevel {
                extends: has_extends,
                depth: depth as int,
                last: match last_top_level_tag {
                    Some(at) => Some(at as int),
                    None => None,
                },
                tokens: tokens.deep_view(),
            }),
        decreases n - i,
    {
        assert(tokens.deep_view()[i as int] == tokens[i as int]@);
        if tokens[i].is_tag("extends") {
            has_extends = true;
            last_top_level_tag = Some(i);
        } else if tokens[i].is_tag("block") {
            if has_extends && depth == 0 {
                let follows: bool = match last_top_level_tag {
                    Some(at) => i >= 2 && at == i - 2,
                    None => false,
                };
                if follows {
                    assert(tokens.deep_view()[i - 1] == tokens[i - 1]@);
                    if tokens[i - 1].is_blank_text() {
                        set_contents(tokens, i - 1, concat(newline, newline));
                    }
                }
                last_top_level_tag = Some(i);
            }
            depth = depth + 1;
        } else if tokens[i].is_tag("endblock") {
            depth = depth - 1;
            if has_extends && depth == 0 {
                last_top_level_tag = Some(i);
            }
        }
        i += 1;
    }
}

} // verus!
