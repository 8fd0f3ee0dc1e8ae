//! What holds of the formatter as a whole.

use crate::blocks::{
    indent_state, labelling, spacing_state, update_endblock_labels_spec,
    update_top_level_block_indentation_spec, update_top_level_block_spacing_spec,
};
use crate::edges::{
    end_with_newline, strip_leading, strip_leading_blank_lines_spec,
    update_leading_trailing_whitespace_spec,
};
use crate::formatter::{detect_newline_spec, first_line_ends_crlf, format_spec, migrate_spec};
use crate::lexer::{lex_spans_spec, lex_spec, lex_state, TAG_PATTERN};
use crate::loads::{
    lemma_load_step_len, lemma_run_end_bounds, lemma_run_scan_bounds, load_step, run_end,
    update_load_tags_from, update_load_tags_spec,
};
use crate::migrate::{
    clear_empty_id, migrate_empty_json_script_spec, migrate_empty_json_script_token,
    migrate_ifequal_tags_spec, migrate_length_is_spec, migrate_static_bits,
    migrate_static_load_tags_spec, migrate_static_token, migrate_translation_bits,
    migrate_translation_tags_spec, migrate_translation_token, pairing, reaches_spec,
    rewrite_pairs,
};
use crate::pattern::{spans_of, spans_ok, Span};
use crate::render::{render_spec, render_token};
use crate::text::{
    byte_len, byte_slice, lemma_byte_slice_concat, lemma_byte_slice_whole, lemma_newlines_concat,
    newlines, span_ok, trim_end,
};
use crate::token::{FilterView, TokenView};
use vstd::prelude::*;

verus! {

/// Below version 2.1, and without a target version, the migrations change
/// nothing.
pub proof fn lemma_migrations_are_gated(tokens: Seq<TokenView>, target_version: Option<(u8, u8)>)
    requires
        !reaches_spec(target_version, 2, 1),
    ensures
        migrate_spec(tokens, target_version) == tokens,
{
}

/// A migration changes nothing below its own version, whatever the others
/// do: `length_is` below 4.2, `json_script` below 4.1, the translation tags
/// and `ifequal` below 3.1, the static loader below 2.1.
pub proof fn lemma_each_migration_is_gated(
    tokens: Seq<TokenView>,
    target_version: Option<(u8, u8)>,
)
    ensures
        !reaches_spec(target_version, 4, 2) ==> migrate_length_is_spec(tokens, target_version)
            == tokens,
        !reaches_spec(target_version, 4, 1) ==> migrate_empty_json_script_spec(
            tokens,
            target_version,
        ) == tokens,
        !reaches_spec(target_version, 3, 1) ==> migrate_translation_tags_spec(
            tokens,
            target_version,
        ) == tokens,
        !reaches_spec(target_version, 3, 1) ==> migrate_ifequal_tags_spec(tokens, target_version)
            == tokens,
        !reaches_spec(target_version, 2, 1) ==> migrate_static_load_tags_spec(
            tokens,
            target_version,
        ) == tokens,
{
}

/// The line break of a document is `\r\n` exactly if its first line ends so.
pub proof fn lemma_newline_of_first_line(content: Seq<char>)
    ensures
        first_line_ends_crlf(content) <==> detect_newline_spec(content) == "\r\n"@,
        !first_line_ends_crlf(content) <==> detect_newline_spec(content) == "\n"@,
{
    reveal_strlit("\r\n");
    reveal_strlit("\n");
    assert("\r\n"@.len() == 2);
    assert("\n"@.len() == 1);
}

/// Lines are counted from 1: after any number of tags, the lexer is on the
/// line that one more than the line feeds in the consumed part of the
/// document give.
pub proof fn lemma_lex_line_numbers(text: Seq<char>, spans: Seq<Span>, k: int)
    requires
        spans_ok(text, spans),
        0 <= k <= spans.len(),
    ensures
        ({
            let st = lex_state(text, spans.take(k));
            &&& span_ok(text, 0, st.last_end)
            &&& k > 0 ==> st.last_end == spans[k - 1].1
            &&& st.lineno == 1 + newlines(byte_slice(text, 0, st.last_end))
        }),
    decreases k,
{
    lemma_byte_slice_whole(text);
    if k == 0 {
        assert(vstd::utf8::encode_utf8(text).subrange(0, 0) =~= Seq::<u8>::empty());
    } else {
        lemma_lex_line_numbers(text, spans, k - 1);
        let prior = lex_state(text, spans.take(k - 1));
        let sp = spans[k - 1];
        assert(spans.take(k).drop_last() =~= spans.take(k - 1));
        assert(spans.take(k).last() == sp);
        assert(span_ok(text, sp.0 as int, sp.1 as int));
        if k - 1 > 0 {
            assert(spans[k - 2].1 <= spans[k - 1].0);
        }
        let gap = byte_slice(text, prior.last_end, sp.0 as int);
        let tag = byte_slice(text, sp.0 as int, sp.1 as int);
        lemma_byte_slice_concat(text, 0, prior.last_end, sp.0 as int);
        lemma_byte_slice_concat(text, 0, sp.0 as int, sp.1 as int);
        lemma_newlines_concat(byte_slice(text, 0, prior.last_end), gap);
        lemma_newlines_concat(byte_slice(text, 0, sp.0 as int), tag);
        if sp.0 <= prior.last_end {
            assert(vstd::utf8::encode_utf8(text).subrange(prior.last_end, sp.0 as int)
                =~= Seq::<u8>::empty());
            assert(gap =~= Seq::<char>::empty());
        }
    }
}

/// The tokens of a text without tags: the whole text as one token, or no
/// token for the empty text.
pub proof fn lemma_lex_without_tags(text: Seq<char>)
    ensures
        lex_spans_spec(text, Seq::empty()) == if text.len() == 0 {
            Seq::<TokenView>::empty()
        } else {
            seq![TokenView::Text { contents: text, lineno: 1 }]
        },
{
    lemma_byte_slice_whole(text);
    let st = lex_state(text, Seq::<Span>::empty());
    if byte_len(text) == 0 {
        assert(vstd::utf8::encode_utf8(text).subrange(0, 0) =~= Seq::<u8>::empty());
        assert(text.len() == 0);
    } else {
        assert(text.len() > 0);
        assert(st.tokens.push(
            TokenView::Text {
                contents: byte_slice(text, st.last_end, byte_len(text) as int),
                lineno: st.lineno,
            },
        ) =~= seq![TokenView::Text { contents: text, lineno: 1 }]);
    }
}

/// The migrations leave a text token alone.
proof fn lemma_migrate_single_text(t: TokenView, target_version: Option<(u8, u8)>)
    requires
        t is Text,
    ensures
        migrate_spec(seq![t], target_version) == seq![t],
{
    let s = seq![t];
    let a = migrate_length_is_spec(s, target_version);
    assert(a =~= s);
    let b = migrate_empty_json_script_spec(a, target_version);
    assert(b =~= s);
    let c = migrate_translation_tags_spec(b, target_version);
    assert(c =~= s);
    assert(s.drop_last() =~= Seq::<TokenView>::empty());
    assert(pairing(s).pairs =~= Seq::<(int, int)>::empty()) by {
        reveal_with_fuel(pairing, 2);
    }
    let d = migrate_ifequal_tags_spec(c, target_version);
    assert(d == s);
    let e = migrate_static_load_tags_spec(d, target_version);
    assert(e =~= s);
}

/// The passes after the whitespace pass leave a single text token alone.
proof fn lemma_tidy_single_text(t: TokenView, newline: Seq<char>)
    requires
        t is Text,
    ensures
        update_top_level_block_spacing_spec(
            update_top_level_block_indentation_spec(
                update_endblock_labels_spec(update_load_tags_spec(seq![t])),
            ),
            newline,
        ) == seq![t],
{
    let s = seq![t];
    assert(update_load_tags_spec(s) == s) by {
        reveal_with_fuel(update_load_tags_from, 2);
    }
    assert(s.drop_last() =~= Seq::<TokenView>::empty());
    assert(labelling(s).tokens =~= s) by {
        reveal_with_fuel(labelling, 2);
    }
    assert(indent_state(s, 1).tokens == s) by {
        reveal_with_fuel(indent_state, 2);
    }
    assert(spacing_state(s, 1, newline).tokens == s) by {
        reveal_with_fuel(spacing_state, 2);
    }
}

/// A single text token renders as its contents.
proof fn lemma_render_single_text(contents: Seq<char>, lineno: nat)
    ensures
        render_spec(seq![TokenView::Text { contents, lineno }]) == contents,
{
    let s = seq![TokenView::Text { contents, lineno }];
    assert(s.drop_last() =~= Seq::<TokenView>::empty());
    reveal_with_fuel(render_spec, 2);
    assert(Seq::<char>::empty() + contents =~= contents);
}

/// A document in which no tag is found keeps its content: formatting it
/// drops the blank lines at its start, replaces the whitespace at its end by
/// one line break, and changes nothing else. The empty document becomes one
/// line break.
pub proof fn lemma_format_without_tags(content: Seq<char>, target_version: Option<(u8, u8)>)
    ensures
        spans_of(TAG_PATTERN@, content).len() == 0 ==> format_spec(content, target_version) == if
            content.len() == 0 {
            detect_newline_spec(content)
        } else {
            trim_end(strip_leading_blank_lines_spec(content)) + detect_newline_spec(content)
        },
{
    if spans_of(TAG_PATTERN@, content).len() == 0 {
        let newline = detect_newline_spec(content);
        assert(spans_of(TAG_PATTERN@, content) =~= Seq::<Span>::empty());
        lemma_lex_without_tags(content);
        let lexed = lex_spec(content);
        if content.len() == 0 {
            assert(migrate_spec(lexed, target_version) =~= lexed) by {
                lemma_migrate_empty(target_version);
            }
            let last = TokenView::Text { contents: newline, lineno: 0 };
            assert(update_leading_trailing_whitespace_spec(lexed, newline) =~= seq![last]);
            lemma_tidy_single_text(last, newline);
            lemma_render_single_text(newline, 0);
        } else {
            let t = TokenView::Text { contents: content, lineno: 1 };
            lemma_migrate_single_text(t, target_version);
            let stripped = TokenView::Text {
                contents: strip_leading_blank_lines_spec(content),
                lineno: 1,
            };
            assert(strip_leading(seq![t]) =~= seq![stripped]);
            let kept = trim_end(strip_leading_blank_lines_spec(content)) + newline;
            let last = TokenView::Text { contents: kept, lineno: 1 };
            assert(end_with_newline(seq![stripped], newline) =~= seq![last]);
            lemma_tidy_single_text(last, newline);
            lemma_render_single_text(kept, 1);
        }
    }
}

/// The migrations leave a document without tokens alone.
proof fn lemma_migrate_empty(target_version: Option<(u8, u8)>)
    ensures
        migrate_spec(Seq::empty(), target_version) == Seq::<TokenView>::empty(),
{
    let s = Seq::<TokenView>::empty();
    let a = migrate_length_is_spec(s, target_version);
    assert(a =~= s);
    let b = migrate_empty_json_script_spec(a, target_version);
    assert(b =~= s);
    let c = migrate_translation_tags_spec(b, target_version);
    assert(c =~= s);
    let d = migrate_ifequal_tags_spec(c, target_version);
    assert(d == s);
    let e = migrate_static_load_tags_spec(d, target_version);
    assert(e =~= s);
}

/// Rendering goes token by token.
pub proof fn lemma_render_concat(a: Seq<TokenView>, b: Seq<TokenView>)
    ensures
        render_spec(a + b) == render_spec(a) + render_spec(b),
    decreases b.len(),
{
    if b.len() == 0 {
        assert(a + b =~= a);
        assert(render_spec(a) + Seq::<char>::empty() =~= render_spec(a));
    } else {
        assert((a + b).drop_last() =~= a + b.drop_last());
        assert((a + b).last() == b.last());
        lemma_render_concat(a, b.drop_last());
        assert(render_spec(a) + (render_spec(b.drop_last()) + render_token(b.last()))
            =~= render_spec(a) + render_spec(b.drop_last()) + render_token(b.last()));
    }
}

/// After the whitespace pass the document ends with a text token that ends
/// with the line break.
pub proof fn lemma_whitespace_pass_ends_with_newline(tokens: Seq<TokenView>, newline: Seq<char>)
    ensures
        ({
            let tidied = update_leading_trailing_whitespace_spec(tokens, newline);
            &&& tidied.len() > 0
            &&& tidied.last() matches TokenView::Text { contents, .. } && newline.is_suffix_of(
                contents,
            )
        }),
{
    let stripped = strip_leading(tokens);
    let tidied = end_with_newline(stripped, newline);
    if stripped.len() > 0 && stripped.last() is Text {
        let contents = stripped.last()->Text_contents;
        let kept = trim_end(contents) + newline;
        assert(kept.subrange(kept.len() - newline.len(), kept.len() as int) =~= newline);
    } else {
        assert(newline.subrange(0, newline.len() as int) =~= newline);
    }
}

/// The `load` pass keeps a last token that is text.
pub proof fn lemma_load_pass_keeps_last_text(tokens: Seq<TokenView>, i: int)
    requires
        0 <= i,
        tokens.len() > 0,
        tokens.last() is Text,
    ensures
        update_load_tags_from(tokens, i).len() > 0,
        update_load_tags_from(tokens, i).last() == tokens.last(),
    decreases tokens.len() - i,
{
    if i < tokens.len() {
        let stepped = load_step(tokens, i);
        lemma_load_step_len(tokens, i);
        if tokens[i] is Block {
            assert(i < tokens.len() - 1);
            lemma_run_scan_bounds(tokens, i + 1);
            lemma_run_end_bounds(tokens, i);
            assert(run_end(tokens, i) < tokens.len());
        }
        assert(stepped.last() == tokens.last());
        lemma_load_pass_keeps_last_text(stepped, i + 1);
    }
}

/// The indentation pass keeps the number of tokens and a last token that is
/// text.
pub proof fn lemma_indentation_pass_keeps_last_text(tokens: Seq<TokenView>, n: int)
    requires
        0 <= n <= tokens.len(),
        tokens.len() > 0,
        tokens.last() is Text,
    ensures
        indent_state(tokens, n).tokens.len() == tokens.len(),
        indent_state(tokens, n).tokens.last() == tokens.last(),
    decreases n,
{
    if n > 0 {
        lemma_indentation_pass_keeps_last_text(tokens, n - 1);
    }
}

/// The spacing pass keeps the number of tokens and a last token that is
/// text.
pub proof fn lemma_spacing_pass_keeps_last_text(
    tokens: Seq<TokenView>,
    n: int,
    newline: Seq<char>,
)
    requires
        0 <= n <= tokens.len(),
        tokens.len() > 0,
        tokens.last() is Text,
    ensures
        spacing_state(tokens, n, newline).tokens.len() == tokens.len(),
        spacing_state(tokens, n, newline).tokens.last() == tokens.last(),
    decreases n,
{
    if n > 0 {
        lemma_spacing_pass_keeps_last_text(tokens, n - 1, newline);
    }
}

/// The line break is kept: a formatted document ends with the line break of
/// the document it was made from, `\r\n` if the first line of that document
/// ends so and `\n` if not.
pub proof fn lemma_format_ends_with_newline(content: Seq<char>, target_version: Option<(u8, u8)>)
    ensures
        detect_newline_spec(content).is_suffix_of(format_spec(content, target_version)),
{
    let newline = detect_newline_spec(content);
    let migrated = migrate_spec(lex_spec(content), target_version);
    let edged = update_leading_trailing_whitespace_spec(migrated, newline);
    lemma_whitespace_pass_ends_with_newline(migrated, newline);
    let loaded = update_load_tags_spec(edged);
    lemma_load_pass_keeps_last_text(edged, 0);
    let labelled = update_endblock_labels_spec(loaded);
    assert(labelled.len() > 0 && labelled.last() == loaded.last());
    let indented = update_top_level_block_indentation_spec(labelled);
    lemma_indentation_pass_keeps_last_text(labelled, labelled.len() as int);
    let spaced = update_top_level_block_spacing_spec(indented, newline);
    lemma_spacing_pass_keeps_last_text(indented, indented.len() as int, newline);
    let contents = spaced.last()->Text_contents;
    let formatted = render_spec(spaced);
    assert(formatted == render_spec(spaced.drop_last()) + contents);
    assert(formatted.subrange(formatted.len() - newline.len(), formatted.len() as int)
        =~= contents.subrange(contents.len() - newline.len(), contents.len() as int));
}

/// An `ifequal` tag as the `if` tag that the migration makes of it.
pub open spec fn as_if_tag(t: TokenView) -> TokenView {
    let b = t.bits();
    TokenView::Block {
        bits: seq![
            "if"@,
            b[1],
            if b[0] == "ifequal"@ {
                "=="@
            } else {
                "!="@
            },
            b[2],
        ],
        lineno: t.line(),
    }
}

/// An `endifequal` tag as the `endif` tag that the migration makes of it.
pub open spec fn as_endif_tag(t: TokenView) -> TokenView {
    TokenView::Block { bits: seq!["endif"@], lineno: t.line() }
}

/// Whether `i` is the opening or the closing tag of one of the pairs.
pub open spec fn in_a_pair(pairs: Seq<(int, int)>, i: int) -> bool {
    exists|k: int| 0 <= k < pairs.len() && ((#[trigger] pairs[k]).0 == i || pairs[k].1 == i)
}

/// The pairs are pairs of tags of the tokens, and no tag is in two of them.
pub open spec fn pairs_apart(tokens: Seq<TokenView>, pairs: Seq<(int, int)>) -> bool {
    &&& forall|k: int|
        0 <= k < pairs.len() ==> {
            let p = #[trigger] pairs[k];
            &&& 0 <= p.0 < tokens.len()
            &&& 0 <= p.1 < tokens.len()
            &&& tokens[p.0] is Block
            &&& tokens[p.0].bits().len() >= 3
            &&& tokens[p.1] is Block
            &&& p.0 != p.1
        }
    &&& forall|k: int, m: int|
        0 <= k < m < pairs.len() ==> {
            let p = #[trigger] pairs[k];
            let q = #[trigger] pairs[m];
            p.0 != q.0 && p.0 != q.1 && p.1 != q.0 && p.1 != q.1
        }
}

/// Rewriting pairs that are apart rewrites every pair and nothing else,
/// whatever the order.
pub proof fn lemma_rewrite_pairs_apart(tokens: Seq<TokenView>, pairs: Seq<(int, int)>)
    requires
        pairs_apart(tokens, pairs),
    ensures
        rewrite_pairs(tokens, pairs).len() == tokens.len(),
        forall|k: int|
            0 <= k < pairs.len() ==> rewrite_pairs(tokens, pairs)[(#[trigger] pairs[k]).0]
                == as_if_tag(tokens[pairs[k].0]) && rewrite_pairs(tokens, pairs)[pairs[k].1]
                == as_endif_tag(tokens[pairs[k].1]),
        forall|i: int|
            0 <= i < tokens.len() && !in_a_pair(pairs, i) ==> #[trigger] rewrite_pairs(
                tokens,
                pairs,
            )[i] == tokens[i],
    decreases pairs.len(),
{
    if pairs.len() > 0 {
        let last = pairs.last();
        let rest = pairs.drop_last();
        let n = pairs.len() as int;
        assert(pairs[n - 1] == last);
        let stepped = crate::migrate::rewrite_pair(tokens, last.0, last.1);
        assert(stepped[last.0] == as_if_tag(tokens[last.0]));
        assert(stepped[last.1] == as_endif_tag(tokens[last.1]));
        assert forall|k: int| 0 <= k < rest.len() implies stepped[(#[trigger] rest[k]).0]
            == tokens[rest[k].0] && stepped[rest[k].1] == tokens[rest[k].1] by {
            assert(rest[k] == pairs[k]);
            let p = pairs[k];
            let q = pairs[n - 1];
            assert(p.0 != q.0 && p.0 != q.1 && p.1 != q.0 && p.1 != q.1);
        }
        assert(pairs_apart(stepped, rest)) by {
            assert forall|k: int| 0 <= k < rest.len() implies {
                let p = #[trigger] rest[k];
                &&& 0 <= p.0 < stepped.len()
                &&& 0 <= p.1 < stepped.len()
                &&& stepped[p.0] is Block
                &&& stepped[p.0].bits().len() >= 3
                &&& stepped[p.1] is Block
                &&& p.0 != p.1
            } by {
                assert(rest[k] == pairs[k]);
            }
            assert forall|k: int, m: int| 0 <= k < m < rest.len() implies {
                let p = #[trigger] rest[k];
                let q = #[trigger] rest[m];
                p.0 != q.0 && p.0 != q.1 && p.1 != q.0 && p.1 != q.1
            } by {
                assert(rest[k] == pairs[k] && rest[m] == pairs[m]);
            }
        }
        lemma_rewrite_pairs_apart(stepped, rest);
        let out = rewrite_pairs(tokens, pairs);
        assert(out == rewrite_pairs(stepped, rest));
        assert(!in_a_pair(rest, last.0)) by {
            if in_a_pair(rest, last.0) {
                let k = choose|k: int|
                    0 <= k < rest.len() && ((#[trigger] rest[k]).0 == last.0 || rest[k].1
                        == last.0);
                assert(rest[k] == pairs[k]);
                let p = pairs[k];
                let q = pairs[n - 1];
                assert(p.0 != q.0 && p.0 != q.1 && p.1 != q.0 && p.1 != q.1);
            }
        }
        assert(!in_a_pair(rest, last.1)) by {
            if in_a_pair(rest, last.1) {
                let k = choose|k: int|
                    0 <= k < rest.len() && ((#[trigger] rest[k]).0 == last.1 || rest[k].1
                        == last.1);
                assert(rest[k] == pairs[k]);
                let p = pairs[k];
                let q = pairs[n - 1];
                assert(p.0 != q.0 && p.0 != q.1 && p.1 != q.0 && p.1 != q.1);
            }
        }
        assert forall|k: int| 0 <= k < pairs.len() implies out[(#[trigger] pairs[k]).0]
            == as_if_tag(tokens[pairs[k].0]) && out[pairs[k].1] == as_endif_tag(
            tokens[pairs[k].1],
        ) by {
            if k < rest.len() {
                assert(rest[k] == pairs[k]);
            }
        }
        assert forall|i: int| 0 <= i < tokens.len() && !in_a_pair(pairs, i) implies #[trigger] out[i]
            == tokens[i] by {
            assert(pairs[n - 1].0 != i && pairs[n - 1].1 != i);
            if in_a_pair(rest, i) {
                let k = choose|k: int|
                    0 <= k < rest.len() && ((#[trigger] rest[k]).0 == i || rest[k].1 == i);
                assert(rest[k] == pairs[k]);
            }
        }
    }
}

/// What the pairing has found in `tokens` is in order: the waiting tags are
/// opening tags with three bits, in ascending order; every pair is an
/// opening tag with three bits and a later closing tag; no tag is in two
/// pairs, and no tag in a pair still waits.
pub open spec fn pairing_in_order(tokens: Seq<TokenView>) -> bool {
    let p = pairing(tokens);
    &&& pairs_apart(tokens, p.pairs)
    &&& forall|k: int|
        0 <= k < p.pairs.len() ==> {
            let pair = #[trigger] p.pairs[k];
            &&& crate::migrate::opens_ifequal(tokens[pair.0])
            &&& tokens[pair.0].bits().len() == 3
            &&& crate::migrate::closes_ifequal(tokens[pair.1])
            &&& tokens[pair.1].bits().len() == 1
            &&& pair.0 < pair.1
        }
    &&& forall|k: int|
        0 <= k < p.stack.len() ==> {
            let s = #[trigger] p.stack[k];
            &&& 0 <= s < tokens.len()
            &&& crate::migrate::opens_ifequal(tokens[s])
            &&& tokens[s].bits().len() == 3
        }
    &&& forall|k: int, m: int|
        0 <= k < m < p.stack.len() ==> (#[trigger] p.stack[k]) < (#[trigger] p.stack[m])
    &&& forall|k: int, m: int|
        0 <= k < p.pairs.len() && 0 <= m < p.stack.len() ==> (#[trigger] p.pairs[k]).0 != (
        #[trigger] p.stack[m]) && p.pairs[k].1 != p.stack[m]
}

/// The pairing is in order for every sequence of tokens.
pub proof fn lemma_pairing_in_order(tokens: Seq<TokenView>)
    ensures
        pairing_in_order(tokens),
    decreases tokens.len(),
{
    reveal_strlit("ifequal");
    reveal_strlit("ifnotequal");
    reveal_strlit("endifequal");
    reveal_strlit("endifnotequal");
    if tokens.len() > 0 {
        let front = tokens.drop_last();
        let t = tokens.last();
        let n = tokens.len() as int;
        lemma_pairing_in_order(front);
        let before = pairing(front);
        let after = pairing(tokens);
        assert(after == crate::migrate::pairing_step(before, n - 1, t));
        assert forall|i: int| 0 <= i < n - 1 implies front[i] == tokens[i] by {}
        assert forall|k: int| 0 <= k < before.pairs.len() implies {
            let pair = #[trigger] before.pairs[k];
            pair.0 < n - 1 && pair.1 < n - 1 && front[pair.0] == tokens[pair.0] && front[pair.1]
                == tokens[pair.1]
        } by {}
        assert forall|k: int| 0 <= k < before.stack.len() implies {
            let s = #[trigger] before.stack[k];
            s < n - 1 && front[s] == tokens[s]
        } by {}
        if crate::migrate::opens_ifequal(t) {
            if t.bits().len() == 3 {
                assert(after.stack == before.stack.push(n - 1));
                assert(after.pairs == before.pairs);
            }
        } else if crate::migrate::closes_ifequal(t) && before.stack.len() > 0 {
            let top = before.stack.last();
            assert(before.stack[before.stack.len() - 1] == top);
            assert(after.stack == before.stack.drop_last());
            if t.bits().len() == 1 {
                assert(after.pairs == before.pairs.push((top, n - 1)));
                assert(tokens[top].bits().len() == 3);
                assert("ifequal"@.len() == 7 && "endifequal"@.len() == 10);
                assert("ifnotequal"@[0] == 'i' && "endifequal"@[0] == 'e' && "endifnotequal"@.len()
                    == 13);
            }
        }
        assert(pairing_in_order(tokens));
    }
}

/// The `ifequal` migration, where it applies, rewrites every pair that the
/// pairing finds, the opening tag to an `if` tag and the closing tag to
/// `endif`, and leaves every other token as it is.
pub proof fn lemma_ifequal_migration_rewrites_pairs(
    tokens: Seq<TokenView>,
    target_version: Option<(u8, u8)>,
)
    requires
        reaches_spec(target_version, 3, 1),
    ensures
        ({
            let out = migrate_ifequal_tags_spec(tokens, target_version);
            let pairs = pairing(tokens).pairs;
            &&& out.len() == tokens.len()
            &&& forall|k: int|
                0 <= k < pairs.len() ==> out[(#[trigger] pairs[k]).0] == as_if_tag(
                    tokens[pairs[k].0],
                ) && out[pairs[k].1] == as_endif_tag(tokens[pairs[k].1])
            &&& forall|i: int|
                0 <= i < tokens.len() && !in_a_pair(pairs, i) ==> #[trigger] out[i] == tokens[i]
        }),
{
    lemma_pairing_in_order(tokens);
    lemma_rewrite_pairs_apart(tokens, pairing(tokens).pairs);
}

/// The four migrations that work token by token are idempotent, each on its
/// own: what one of them has rewritten, it leaves alone.
pub proof fn lemma_token_migrations_idempotent(
    tokens: Seq<TokenView>,
    target_version: Option<(u8, u8)>,
)
    ensures
        migrate_length_is_spec(migrate_length_is_spec(tokens, target_version), target_version)
            == migrate_length_is_spec(tokens, target_version),
        migrate_empty_json_script_spec(
            migrate_empty_json_script_spec(tokens, target_version),
            target_version,
        ) == migrate_empty_json_script_spec(tokens, target_version),
        migrate_translation_tags_spec(
            migrate_translation_tags_spec(tokens, target_version),
            target_version,
        ) == migrate_translation_tags_spec(tokens, target_version),
        migrate_static_load_tags_spec(
            migrate_static_load_tags_spec(tokens, target_version),
            target_version,
        ) == migrate_static_load_tags_spec(tokens, target_version),
{
    let a = migrate_length_is_spec(tokens, target_version);
    assert(migrate_length_is_spec(a, target_version) =~= a);
    let b = migrate_empty_json_script_spec(tokens, target_version);
    assert(migrate_empty_json_script_spec(b, target_version) =~= b) by {
        if reaches_spec(target_version, 4, 1) {
            assert forall|i: int| 0 <= i < b.len() implies migrate_empty_json_script_token(b[i])
                == #[trigger] b[i] by {
                if b[i] is Variable {
                    let filters = b[i]->Variable_filter_expression.filters;
                    assert(filters.map_values(|f: FilterView| clear_empty_id(f)) =~= filters);
                }
            }
        }
    }
    let c = migrate_translation_tags_spec(tokens, target_version);
    assert(migrate_translation_tags_spec(c, target_version) =~= c) by {
        if reaches_spec(target_version, 3, 1) {
            assert forall|i: int| 0 <= i < c.len() implies migrate_translation_token(c[i])
                == #[trigger] c[i] by {
                lemma_translation_names_apart();
                if tokens[i] is Block {
                    let bits = tokens[i].bits();
                    let once = migrate_translation_bits(bits);
                    assert(migrate_translation_bits(once) =~= once);
                }
            }
        }
    }
    let d = migrate_static_load_tags_spec(tokens, target_version);
    assert(migrate_static_load_tags_spec(d, target_version) =~= d) by {
        if reaches_spec(target_version, 2, 1) {
            assert forall|i: int| 0 <= i < d.len() implies migrate_static_token(d[i])
                == #[trigger] d[i] by {
                lemma_static_names_apart();
                if tokens[i] is Block {
                    let bits = tokens[i].bits();
                    let once = migrate_static_bits(bits);
                    if bits.len() > 0 && bits[0] == "load"@ {
                        if bits.contains("from"@) {
                            let k = choose|k: int| 0 <= k < bits.len() && bits[k] == "from"@;
                            if once != bits {
                                assert(k != bits.len() - 1);
                                assert(once[k] == "from"@);
                            }
                            assert(once.contains("from"@));
                        } else {
                            if once.contains("from"@) {
                                let k = choose|k: int| 0 <= k < once.len() && once[k] == "from"@;
                                assert(bits[k] == "from"@);
                            }
                        }
                    }
                    assert(migrate_static_bits(once) =~= once);
                }
            }
        }
    }
}

/// The names of the translation tags, old and modern, and `load` are all
/// different.
proof fn lemma_translation_names_apart()
    ensures
        "translate"@ != "trans"@,
        "translate"@ != "blocktrans"@,
        "translate"@ != "endblocktrans"@,
        "translate"@ != "load"@,
        "blocktranslate"@ != "trans"@,
        "blocktranslate"@ != "blocktrans"@,
        "blocktranslate"@ != "endblocktrans"@,
        "blocktranslate"@ != "load"@,
        "endblocktranslate"@ != "trans"@,
        "endblocktranslate"@ != "blocktrans"@,
        "endblocktranslate"@ != "endblocktrans"@,
        "endblocktranslate"@ != "load"@,
        "load"@ != "trans"@,
        "load"@ != "blocktrans"@,
        "load"@ != "endblocktrans"@,
{
    reveal_strlit("translate");
    reveal_strlit("blocktranslate");
    reveal_strlit("endblocktranslate");
    reveal_strlit("trans");
    reveal_strlit("blocktrans");
    reveal_strlit("endblocktrans");
    reveal_strlit("load");
    assert("translate"@.len() == 9);
    assert("blocktranslate"@.len() == 14);
    assert("endblocktranslate"@.len() == 17);
    assert("trans"@.len() == 5);
    assert("blocktrans"@.len() == 10);
    assert("endblocktrans"@.len() == 13);
    assert("load"@.len() == 4);
}

/// `static`, the libraries that it replaced, `load` and `from` are all
/// different.
proof fn lemma_static_names_apart()
    ensures
        "static"@ != "admin_static"@,
        "static"@ != "staticfiles"@,
        "static"@ != "from"@,
        "static"@ != "load"@,
        "from"@ != "admin_static"@,
        "from"@ != "staticfiles"@,
        "load"@ != "admin_static"@,
        "load"@ != "staticfiles"@,
{
    reveal_strlit("static");
    reveal_strlit("admin_static");
    reveal_strlit("staticfiles");
    reveal_strlit("from");
    reveal_strlit("load");
    assert("static"@.len() == 6);
    assert("admin_static"@.len() == 12);
    assert("staticfiles"@.len() == 11);
    assert("from"@.len() == 4);
    assert("load"@.len() == 4);
    assert("static"@[0] == 's' && "from"@[0] == 'f' && "load"@[0] == 'l');
}

/// The label pass is idempotent: labels that it has put in canonical form
/// are in canonical form.
pub proof fn lemma_label_pass_idempotent(tokens: Seq<TokenView>)
    ensures
        labelling(labelling(tokens).tokens).stack == labelling(tokens).stack,
        update_endblock_labels_spec(update_endblock_labels_spec(tokens))
            == update_endblock_labels_spec(tokens),
    decreases tokens.len(),
{
    reveal_strlit("block");
    reveal_strlit("endblock");
    assert("block"@.len() == 5 && "endblock"@.len() == 8);
    if tokens.len() > 0 {
        let front = tokens.drop_last();
        let t = tokens.last();
        lemma_label_pass_idempotent(front);
        let before = labelling(front);
        let after = labelling(tokens);
        assert(after == crate::blocks::label_step(before, t));
        let made = after.tokens.last();
        assert(after.tokens.drop_last() =~= before.tokens);
        let again = labelling(after.tokens);
        assert(again == crate::blocks::label_step(labelling(before.tokens), made));
        assert(again.tokens =~= after.tokens);
    } else {
        assert(labelling(tokens).tokens =~= tokens);
    }
}

} // verus!
