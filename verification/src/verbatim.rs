//! Verbatim content survives formatting: what stands between a `verbatim`
//! tag and its `endverbatim` tag is text to the lexer, and no pass touches
//! it.

use crate::blocks::{
    indent_state, labelling, lemma_labelling_len, spacing_state, update_endblock_labels_spec,
    update_top_level_block_indentation_spec, update_top_level_block_spacing_spec,
};
use crate::edges::{end_with_newline, strip_leading, update_leading_trailing_whitespace_spec};
use crate::formatter::{detect_newline_spec, format_spec, format_tokens_spec, migrate_spec};
use crate::laws::lemma_render_concat;
use crate::lexer::{create_token_spec, lex_spans_spec, lex_state, lex_step, TAG_PATTERN};
use crate::loads::{
    is_load_from, is_plain_load, lemma_load_step_len, lemma_run_end_bounds, load_step, run_end,
    run_scan, update_load_tags_from, update_load_tags_spec,
};
use crate::migrate::{
    closes_ifequal, migrate_empty_json_script_spec, migrate_empty_json_script_token,
    migrate_ifequal_tags_spec, migrate_length_is_spec, migrate_length_is_token,
    migrate_static_load_tags_spec, migrate_static_token, migrate_translation_tags_spec,
    migrate_translation_token, opens_ifequal, pairing, pairing_step, reaches_spec, rewrite_pair,
    rewrite_pairs,
};
use crate::pattern::{spans_of, spans_ok, Span};
use crate::render::render_spec;
use crate::text::{byte_slice, lemma_byte_slice_concat, lemma_byte_slice_whole, span_ok};
use crate::token::TokenView;
use vstd::prelude::*;

verus! {

/// The lexer has consumed the document up to the end of the last tag it saw.
pub proof fn lemma_lex_state_last_end(text: Seq<char>, spans: Seq<Span>, k: int)
    requires
        0 <= k <= spans.len(),
    ensures
        lex_state(text, spans.take(k)).last_end == if k == 0 {
            0
        } else {
            spans[k - 1].1 as int
        },
{
    if k > 0 {
        assert(spans.take(k).last() == spans[k - 1]);
    }
}

/// From after `a` tags to after `b` tags the lexer is in verbatim mode.
pub open spec fn verbatim_through(text: Seq<char>, spans: Seq<Span>, a: int, b: int) -> bool {
    forall|k: int| a <= k <= b ==> (#[trigger] lex_state(text, spans.take(k))).verbatim is Some
}

/// Verbatim content is kept as it is written. While the lexer is in verbatim
/// mode, every tag-like piece and every text between two of them becomes a
/// text token, and these tokens together render as the very stretch of the
/// document that they were cut from.
pub proof fn lemma_verbatim_fidelity(text: Seq<char>, spans: Seq<Span>, a: int, b: int)
    requires
        spans_ok(text, spans),
        0 <= a <= b <= spans.len(),
        verbatim_through(text, spans, a, b),
    ensures
        ({
            let entered = lex_state(text, spans.take(a));
            let left = lex_state(text, spans.take(b));
            &&& entered.tokens.len() <= left.tokens.len()
            &&& left.tokens.take(entered.tokens.len() as int) == entered.tokens
            &&& forall|i: int|
                entered.tokens.len() <= i < left.tokens.len() ==> #[trigger] left.tokens[i] is Text
            &&& span_ok(text, entered.last_end, left.last_end)
            &&& render_spec(left.tokens.skip(entered.tokens.len() as int)) == byte_slice(
                text,
                entered.last_end,
                left.last_end,
            )
        }),
    decreases b - a,
{
    let entered = lex_state(text, spans.take(a));
    lemma_lex_state_last_end(text, spans, a);
    lemma_byte_slice_whole(text);
    if a > 0 {
        assert(span_ok(text, spans[a - 1].0 as int, spans[a - 1].1 as int));
    }
    if a == b {
        assert(entered.tokens.take(entered.tokens.len() as int) =~= entered.tokens);
        assert(entered.tokens.skip(entered.tokens.len() as int) =~= Seq::<TokenView>::empty());
        assert(vstd::utf8::encode_utf8(text).subrange(entered.last_end, entered.last_end)
            =~= Seq::<u8>::empty());
    } else {
        assert(verbatim_through(text, spans, a, b - 1)) by {
            assert forall|k: int| a <= k <= b - 1 implies (#[trigger] lex_state(
                text,
                spans.take(k),
            )).verbatim is Some by {}
        }
        lemma_verbatim_fidelity(text, spans, a, b - 1);
        let prior = lex_state(text, spans.take(b - 1));
        let left = lex_state(text, spans.take(b));
        let sp = spans[b - 1];
        assert(spans.take(b).drop_last() =~= spans.take(b - 1));
        assert(spans.take(b).last() == sp);
        assert(left == lex_step(text, prior, sp));
        assert(prior.verbatim is Some);
        assert(left.verbatim is Some);
        lemma_lex_state_last_end(text, spans, b - 1);
        assert(span_ok(text, sp.0 as int, sp.1 as int));
        if b - 1 > 0 {
            assert(spans[b - 2].1 <= spans[b - 1].0);
            assert(span_ok(text, spans[b - 2].0 as int, spans[b - 2].1 as int));
        }
        let gap = byte_slice(text, prior.last_end, sp.0 as int);
        let tag = byte_slice(text, sp.0 as int, sp.1 as int);
        let line = if sp.0 > prior.last_end {
            prior.lineno + crate::text::newlines(gap)
        } else {
            prior.lineno
        };
        let made = create_token_spec(tag, line, true, prior.verbatim);
        assert(made.0 == TokenView::Text { contents: tag, lineno: line });
        let added = if sp.0 > prior.last_end {
            seq![TokenView::Text { contents: gap, lineno: prior.lineno }, made.0]
        } else {
            seq![made.0]
        };
        assert(left.tokens =~= prior.tokens + added);
        let n = entered.tokens.len() as int;
        assert(left.tokens.take(n) =~= prior.tokens.take(n));
        assert(left.tokens.skip(n) =~= prior.tokens.skip(n) + added);
        lemma_render_concat(prior.tokens.skip(n), added);
        lemma_byte_slice_concat(text, entered.last_end, prior.last_end, sp.0 as int);
        lemma_byte_slice_concat(text, entered.last_end, sp.0 as int, sp.1 as int);
        assert(render_spec(added) == gap + tag) by {
            reveal_with_fuel(render_spec, 3);
            if sp.0 > prior.last_end {
                assert(added.drop_last() =~= seq![
                    TokenView::Text { contents: gap, lineno: prior.lineno },
                ]);
                assert(added.drop_last().drop_last() =~= Seq::<TokenView>::empty());
                assert(Seq::<char>::empty() + gap + tag =~= gap + tag);
            } else {
                assert(added.drop_last() =~= Seq::<TokenView>::empty());
                assert(vstd::utf8::encode_utf8(text).subrange(prior.last_end, sp.0 as int)
                    =~= Seq::<u8>::empty());
                assert(gap =~= Seq::<char>::empty());
                assert(Seq::<char>::empty() + tag =~= gap + tag);
            }
        }
        assert(byte_slice(text, entered.last_end, prior.last_end) + (gap + tag) =~= byte_slice(
            text,
            entered.last_end,
            prior.last_end,
        ) + gap + tag);
    }
}

/// From index `at` the tokens hold a `verbatim` tag, then `region`, which is
/// all text, then an `endverbatim` tag.
pub open spec fn holds_verbatim(tokens: Seq<TokenView>, at: int, region: Seq<TokenView>) -> bool {
    &&& 0 <= at
    &&& at + region.len() + 1 < tokens.len()
    &&& tokens[at].is_tag("verbatim"@)
    &&& tokens[at + region.len() + 1].is_tag("endverbatim"@)
    &&& tokens.subrange(at + 1, at + 1 + region.len()) == region
    &&& forall|k: int| 0 <= k < region.len() ==> #[trigger] region[k] is Text
}

/// The token is a `verbatim` or an `endverbatim` tag.
pub open spec fn is_marker(t: TokenView) -> bool {
    t.is_tag("verbatim"@) || t.is_tag("endverbatim"@)
}

/// The token is one of the tags before which the passes change text:
/// `extends`, `block` or `endblock`.
pub open spec fn is_top_level_tag(t: TokenView) -> bool {
    t.is_tag("extends"@) || t.is_tag("block"@) || t.is_tag("endblock"@)
}

/// A `verbatim` or `endverbatim` tag is none of the tags that a pass looks
/// for.
pub proof fn lemma_marker_is_no_other_tag(t: TokenView)
    requires
        is_marker(t),
    ensures
        t is Block,
        !t.is_tag("load"@),
        !is_top_level_tag(t),
        !t.is_tag("trans"@),
        !t.is_tag("blocktrans"@),
        !t.is_tag("endblocktrans"@),
        !opens_ifequal(t),
        !closes_ifequal(t),
        !is_plain_load(t),
        !is_load_from(t),
        !t.is_blank_text(),
{
    reveal_strlit("verbatim");
    reveal_strlit("endverbatim");
    reveal_strlit("load");
    reveal_strlit("extends");
    reveal_strlit("block");
    reveal_strlit("endblock");
    reveal_strlit("trans");
    reveal_strlit("blocktrans");
    reveal_strlit("endblocktrans");
    reveal_strlit("ifequal");
    reveal_strlit("ifnotequal");
    reveal_strlit("endifequal");
    reveal_strlit("endifnotequal");
    let name = t.bits()[0];
    assert(name.len() == 8 || name.len() == 11);
    assert(name[0] == 'v' || name[1] == 'n');
    assert("endblock"@[0] == 'e' && "endblock"@[3] == 'b');
    assert("verbatim"@[0] == 'v');
    assert("endverbatim"@[3] == 'v');
}

/// Tokens that still hold the markers and the region in their places hold
/// the verbatim content.
proof fn lemma_holds_when_kept(
    tokens: Seq<TokenView>,
    after: Seq<TokenView>,
    at: int,
    region: Seq<TokenView>,
)
    requires
        holds_verbatim(tokens, at, region),
        after.len() >= tokens.len(),
        forall|i: int| at < i <= at + region.len() ==> after[i] == tokens[i],
        after[at].is_tag("verbatim"@),
        after[at + region.len() + 1].is_tag("endverbatim"@),
    ensures
        holds_verbatim(after, at, region),
{
    assert(after.subrange(at + 1, at + 1 + region.len()) =~= tokens.subrange(
        at + 1,
        at + 1 + region.len(),
    ));
}

/// The tokens of the region, seen in the sequence that holds them.
proof fn lemma_region_tokens(tokens: Seq<TokenView>, at: int, region: Seq<TokenView>, i: int)
    requires
        holds_verbatim(tokens, at, region),
        at < i <= at + region.len(),
    ensures
        tokens[i] == region[i - at - 1],
        tokens[i] is Text,
{
    assert(tokens.subrange(at + 1, at + 1 + region.len())[i - at - 1] == tokens[i]);
}

/// A migration that works token by token keeps text, and keeps the name of a
/// marker.
proof fn lemma_pointwise_migrations_keep(t: TokenView)
    requires
        t is Text || is_marker(t),
    ensures
        t is Text ==> migrate_length_is_token(t) == t,
        is_marker(t) ==> is_marker(migrate_length_is_token(t)) && (t.is_tag("verbatim"@)
            <==> migrate_length_is_token(t).is_tag("verbatim"@)),
        migrate_empty_json_script_token(t) == t,
        migrate_translation_token(t) == t,
        migrate_static_token(t) == t,
{
    if is_marker(t) {
        lemma_marker_is_no_other_tag(t);
        reveal_strlit("verbatim");
        reveal_strlit("endverbatim");
        reveal_strlit("load");
        reveal_strlit("trans");
        reveal_strlit("blocktrans");
        reveal_strlit("endblocktrans");
    }
}

/// Rewriting pairs keeps the number of tokens, and every token that is in no
/// pair.
proof fn lemma_rewrite_pairs_keeps(tokens: Seq<TokenView>, pairs: Seq<(int, int)>, i: int)
    requires
        0 <= i < tokens.len(),
        forall|k: int| 0 <= k < pairs.len() ==> (#[trigger] pairs[k]).0 != i && pairs[k].1 != i,
    ensures
        rewrite_pairs(tokens, pairs).len() == tokens.len(),
        rewrite_pairs(tokens, pairs)[i] == tokens[i],
    decreases pairs.len(),
{
    if pairs.len() > 0 {
        let last = pairs.last();
        assert(pairs[pairs.len() - 1] == last);
        let stepped = rewrite_pair(tokens, last.0, last.1);
        assert(stepped.len() == tokens.len());
        assert(stepped[i] == tokens[i]);
        let rest = pairs.drop_last();
        assert forall|k: int| 0 <= k < rest.len() implies (#[trigger] rest[k]).0 != i && rest[k].1
            != i by {
            assert(rest[k] == pairs[k]);
        }
        lemma_rewrite_pairs_keeps(stepped, rest, i);
    }
}

/// The `ifequal` migration keeps text and markers.
proof fn lemma_ifequal_keeps(tokens: Seq<TokenView>, target_version: Option<(u8, u8)>, i: int)
    requires
        0 <= i < tokens.len(),
        tokens[i] is Text || is_marker(tokens[i]),
    ensures
        migrate_ifequal_tags_spec(tokens, target_version).len() == tokens.len(),
        migrate_ifequal_tags_spec(tokens, target_version)[i] == tokens[i],
{
    if reaches_spec(target_version, 3, 1) {
        let pairs = pairing(tokens).pairs;
        crate::laws::lemma_pairing_in_order(tokens);
        if is_marker(tokens[i]) {
            lemma_marker_is_no_other_tag(tokens[i]);
        }
        assert forall|k: int| 0 <= k < pairs.len() implies (#[trigger] pairs[k]).0 != i
            && pairs[k].1 != i by {
            let p = pairs[k];
            assert(opens_ifequal(tokens[p.0]) && closes_ifequal(tokens[p.1]));
        }
        lemma_rewrite_pairs_keeps(tokens, pairs, i);
    }
}

/// The migrations keep verbatim content in its place.
pub proof fn lemma_migrations_keep_verbatim(
    tokens: Seq<TokenView>,
    at: int,
    region: Seq<TokenView>,
    target_version: Option<(u8, u8)>,
)
    requires
        holds_verbatim(tokens, at, region),
    ensures
        holds_verbatim(migrate_spec(tokens, target_version), at, region),
{
    let n = region.len() as int;
    let a = migrate_length_is_spec(tokens, target_version);
    let b = migrate_empty_json_script_spec(a, target_version);
    let c = migrate_translation_tags_spec(b, target_version);
    let d = migrate_ifequal_tags_spec(c, target_version);
    let e = migrate_static_load_tags_spec(d, target_version);
    assert forall|i: int| at <= i <= at + n + 1 implies (a[i] is Text || is_marker(a[i])) && (at < i
        <= at + n ==> a[i] == tokens[i]) && (a[i].is_tag("verbatim"@) <==> tokens[i].is_tag(
        "verbatim"@,
    )) && (a[i].is_tag("endverbatim"@) <==> tokens[i].is_tag("endverbatim"@)) by {
        if at < i <= at + n {
            lemma_region_tokens(tokens, at, region, i);
        }
        lemma_pointwise_migrations_keep(tokens[i]);
        if is_marker(tokens[i]) {
            lemma_marker_is_no_other_tag(tokens[i]);
            lemma_marker_is_no_other_tag(migrate_length_is_token(tokens[i]));
            reveal_strlit("verbatim");
            reveal_strlit("endverbatim");
        }
    }
    assert forall|i: int| at <= i <= at + n + 1 implies b[i] == a[i] && c[i] == a[i] by {
        lemma_pointwise_migrations_keep(a[i]);
    }
    assert(c.len() == tokens.len());
    assert forall|i: int| at <= i <= at + n + 1 implies d[i] == a[i] && d.len() == tokens.len() by {
        lemma_ifequal_keeps(c, target_version, i);
    }
    lemma_ifequal_keeps(c, target_version, at);
    assert forall|i: int| at <= i <= at + n + 1 implies e[i] == a[i] by {
        lemma_pointwise_migrations_keep(d[i]);
    }
    lemma_holds_when_kept(tokens, e, at, region);
}

/// The whitespace pass keeps verbatim content in its place.
pub proof fn lemma_whitespace_keeps_verbatim(
    tokens: Seq<TokenView>,
    at: int,
    region: Seq<TokenView>,
    newline: Seq<char>,
)
    requires
        holds_verbatim(tokens, at, region),
    ensures
        holds_verbatim(update_leading_trailing_whitespace_spec(tokens, newline), at, region),
{
    lemma_marker_is_no_other_tag(tokens[at]);
    lemma_marker_is_no_other_tag(tokens[at + region.len() + 1]);
    let stripped = strip_leading(tokens);
    lemma_holds_when_kept(tokens, stripped, at, region);
    let ended = end_with_newline(stripped, newline);
    lemma_holds_when_kept(stripped, ended, at, region);
}

/// A scan for `load` tags does not pass a token that is neither blank text
/// nor a plain `load` tag.
proof fn lemma_run_scan_stops(tokens: Seq<TokenView>, k: int, at: int)
    requires
        0 <= k <= at < tokens.len(),
        !tokens[at].is_blank_text(),
        !is_plain_load(tokens[at]),
    ensures
        run_scan(tokens, k) <= at,
    decreases at - k,
{
    if k < at && (tokens[k].is_blank_text() || is_plain_load(tokens[k])) {
        lemma_run_scan_stops(tokens, k + 1, at);
    }
}

/// One step of the `load` pass keeps verbatim content, maybe further to the
/// front.
proof fn lemma_load_step_keeps_verbatim(
    tokens: Seq<TokenView>,
    i: int,
    at: int,
    region: Seq<TokenView>,
) -> (moved: int)
    requires
        holds_verbatim(tokens, at, region),
        0 <= i < tokens.len(),
    ensures
        holds_verbatim(load_step(tokens, i), moved, region),
{
    let n = region.len() as int;
    let stepped = load_step(tokens, i);
    lemma_marker_is_no_other_tag(tokens[at]);
    lemma_marker_is_no_other_tag(tokens[at + n + 1]);
    if at < i <= at + n {
        lemma_region_tokens(tokens, at, region, i);
    }
    if is_plain_load(tokens[i]) {
        let j = run_end(tokens, i);
        lemma_run_end_bounds(tokens, i);
        if i > at + n + 1 {
            assert(stepped.subrange(at + 1, at + 1 + n) =~= tokens.subrange(at + 1, at + 1 + n));
            at
        } else {
            assert(i < at);
            lemma_run_scan_stops(tokens, i + 1, at);
            assert(j <= at);
            let moved = at - (j - (i + 1));
            assert(stepped.subrange(moved + 1, moved + 1 + n) =~= tokens.subrange(
                at + 1,
                at + 1 + n,
            ));
            assert(stepped[moved] == tokens[at]);
            assert(stepped[moved + n + 1] == tokens[at + n + 1]);
            moved
        }
    } else if is_load_from(tokens[i]) {
        lemma_holds_when_kept(tokens, stepped, at, region);
        at
    } else {
        at
    }
}

/// The `load` pass keeps verbatim content, maybe further to the front.
pub proof fn lemma_loads_keep_verbatim(
    tokens: Seq<TokenView>,
    i: int,
    at: int,
    region: Seq<TokenView>,
) -> (moved: int)
    requires
        holds_verbatim(tokens, at, region),
        0 <= i,
    ensures
        holds_verbatim(update_load_tags_from(tokens, i), moved, region),
    decreases tokens.len() - i,
{
    if i < tokens.len() {
        let next = lemma_load_step_keeps_verbatim(tokens, i, at, region);
        lemma_load_step_len(tokens, i);
        lemma_loads_keep_verbatim(load_step(tokens, i), i + 1, next, region)
    } else {
        at
    }
}

/// The label pass keeps every token that is not an `endblock` tag.
proof fn lemma_labels_keep(tokens: Seq<TokenView>, i: int)
    requires
        0 <= i < tokens.len(),
        !tokens[i].is_tag("endblock"@),
    ensures
        labelling(tokens).tokens.len() == tokens.len(),
        labelling(tokens).tokens[i] == tokens[i],
    decreases tokens.len(),
{
    lemma_labelling_len(tokens);
    let front = tokens.drop_last();
    lemma_labelling_len(front);
    if i < tokens.len() - 1 {
        lemma_labels_keep(front, i);
    }
}

/// The label pass keeps verbatim content in its place.
pub proof fn lemma_labels_keep_verbatim(tokens: Seq<TokenView>, at: int, region: Seq<TokenView>)
    requires
        holds_verbatim(tokens, at, region),
    ensures
        holds_verbatim(update_endblock_labels_spec(tokens), at, region),
{
    let n = region.len() as int;
    let after = update_endblock_labels_spec(tokens);
    lemma_marker_is_no_other_tag(tokens[at]);
    lemma_marker_is_no_other_tag(tokens[at + n + 1]);
    lemma_labels_keep(tokens, at);
    lemma_labels_keep(tokens, at + n + 1);
    assert forall|i: int| at < i <= at + n implies after[i] == tokens[i] by {
        lemma_region_tokens(tokens, at, region, i);
        lemma_labels_keep(tokens, i);
    }
    lemma_holds_when_kept(tokens, after, at, region);
}

/// `after` are the tokens `before` with no change but to text that stands
/// right before an `extends`, `block` or `endblock` tag.
pub open spec fn changed_before_tags_only(before: Seq<TokenView>, after: Seq<TokenView>) -> bool {
    &&& after.len() == before.len()
    &&& forall|k: int|
        0 <= k < before.len() ==> (#[trigger] before[k] is Text <==> after[k] is Text)
    &&& forall|k: int| 0 <= k < before.len() && !(before[k] is Text) ==> #[trigger] after[k] == before[k]
    &&& forall|k: int|
        0 <= k < before.len() && !(k + 1 < before.len() && is_top_level_tag(before[k + 1]))
            ==> #[trigger] after[k] == before[k]
}

/// The indentation pass changes nothing but text right before an `extends`,
/// `block` or `endblock` tag.
proof fn lemma_indentation_changes(tokens: Seq<TokenView>, n: int)
    requires
        0 <= n <= tokens.len(),
    ensures
        changed_before_tags_only(tokens, indent_state(tokens, n).tokens),
    decreases n,
{
    if n > 0 {
        lemma_indentation_changes(tokens, n - 1);
        let st = indent_state(tokens, n - 1);
        let t = st.tokens[n - 1];
        assert(tokens[n - 1] is Text <==> t is Text);
        if !(t is Text) {
            assert(t == tokens[n - 1]);
        }
    }
}

/// The spacing pass changes nothing but text right before a `block` tag.
proof fn lemma_spacing_changes(tokens: Seq<TokenView>, n: int, newline: Seq<char>)
    requires
        0 <= n <= tokens.len(),
    ensures
        changed_before_tags_only(tokens, spacing_state(tokens, n, newline).tokens),
    decreases n,
{
    if n > 0 {
        lemma_spacing_changes(tokens, n - 1, newline);
        let st = spacing_state(tokens, n - 1, newline);
        let t = st.tokens[n - 1];
        assert(tokens[n - 1] is Text <==> t is Text);
        if !(t is Text) {
            assert(t == tokens[n - 1]);
        }
    }
}

/// A pass that changes nothing but text before top-level tags keeps verbatim
/// content in its place.
proof fn lemma_changes_keep_verbatim(
    tokens: Seq<TokenView>,
    after: Seq<TokenView>,
    at: int,
    region: Seq<TokenView>,
)
    requires
        holds_verbatim(tokens, at, region),
        changed_before_tags_only(tokens, after),
    ensures
        holds_verbatim(after, at, region),
{
    let n = region.len() as int;
    lemma_marker_is_no_other_tag(tokens[at]);
    lemma_marker_is_no_other_tag(tokens[at + n + 1]);
    assert(after[at] == tokens[at]);
    assert(after[at + n + 1] == tokens[at + n + 1]);
    assert forall|i: int| at < i <= at + n implies after[i] == tokens[i] by {
        if i < at + n {
            lemma_region_tokens(tokens, at, region, i + 1);
        }
    }
    lemma_holds_when_kept(tokens, after, at, region);
}

/// No pass touches verbatim content: if the tokens hold a `verbatim` tag,
/// text, and an `endverbatim` tag, the formatted tokens hold the same text
/// between the same two tags.
pub proof fn lemma_passes_keep_verbatim(
    tokens: Seq<TokenView>,
    at: int,
    region: Seq<TokenView>,
    newline: Seq<char>,
    target_version: Option<(u8, u8)>,
) -> (moved: int)
    requires
        holds_verbatim(tokens, at, region),
    ensures
        holds_verbatim(format_tokens_spec(tokens, newline, target_version), moved, region),
{
    let migrated = migrate_spec(tokens, target_version);
    lemma_migrations_keep_verbatim(tokens, at, region, target_version);
    let edged = update_leading_trailing_whitespace_spec(migrated, newline);
    lemma_whitespace_keeps_verbatim(migrated, at, region, newline);
    let loaded = update_load_tags_spec(edged);
    let moved = lemma_loads_keep_verbatim(edged, 0, at, region);
    let labelled = update_endblock_labels_spec(loaded);
    lemma_labels_keep_verbatim(loaded, moved, region);
    let indented = update_top_level_block_indentation_spec(labelled);
    lemma_indentation_changes(labelled, labelled.len() as int);
    lemma_changes_keep_verbatim(labelled, indented, moved, region);
    let spaced = update_top_level_block_spacing_spec(indented, newline);
    lemma_spacing_changes(indented, indented.len() as int, newline);
    lemma_changes_keep_verbatim(indented, spaced, moved, region);
    moved
}

/// Tokens that hold verbatim content render it as it is, between what stands
/// before and what stands after.
pub proof fn lemma_render_verbatim(tokens: Seq<TokenView>, at: int, region: Seq<TokenView>)
    requires
        holds_verbatim(tokens, at, region),
    ensures
        render_spec(tokens) == render_spec(tokens.take(at + 1)) + render_spec(region)
            + render_spec(tokens.skip(at + 1 + region.len())),
{
    let head = tokens.take(at + 1);
    let tail = tokens.skip(at + 1 + region.len());
    assert(tokens =~= head + region + tail);
    lemma_render_concat(head + region, tail);
    lemma_render_concat(head, region);
}

/// The lexer only ever adds tokens, and every tag adds one.
pub proof fn lemma_lex_state_grows(text: Seq<char>, spans: Seq<Span>, k: int, m: int)
    requires
        0 <= k <= m <= spans.len(),
    ensures
        lex_state(text, spans.take(k)).tokens.len() <= lex_state(text, spans.take(m)).tokens.len(),
        lex_state(text, spans.take(m)).tokens.take(
            lex_state(text, spans.take(k)).tokens.len() as int,
        ) == lex_state(text, spans.take(k)).tokens,
        m > 0 ==> lex_state(text, spans.take(m)).tokens.len() > 0,
    decreases m - k,
{
    let early = lex_state(text, spans.take(k)).tokens;
    if m > 0 {
        assert(spans.take(m).drop_last() =~= spans.take(m - 1));
    }
    if k == m {
        assert(early.take(early.len() as int) =~= early);
    } else {
        lemma_lex_state_grows(text, spans, k, m - 1);
        let prior = lex_state(text, spans.take(m - 1)).tokens;
        let late = lex_state(text, spans.take(m)).tokens;
        assert(late.take(early.len() as int) =~= prior.take(early.len() as int));
    }
}

/// Verbatim content survives formatting. If the lexer enters verbatim mode
/// with a `verbatim` tag, tag `a - 1`, and leaves it with an `endverbatim`
/// tag, tag `b`, then the formatted document holds the stretch of the
/// document between these two tags as it is written: it is that stretch with
/// something before and something after.
pub proof fn lemma_verbatim_survives_formatting(
    text: Seq<char>,
    spans: Seq<Span>,
    a: int,
    b: int,
    newline: Seq<char>,
    target_version: Option<(u8, u8)>,
) -> (around: (Seq<char>, Seq<char>))
    requires
        spans_ok(text, spans),
        0 < a <= b < spans.len(),
        verbatim_through(text, spans, a, b),
        lex_state(text, spans.take(a)).tokens.last().is_tag("verbatim"@),
        lex_state(text, spans.take(b + 1)).tokens.last().is_tag("endverbatim"@),
    ensures
        render_spec(format_tokens_spec(lex_spans_spec(text, spans), newline, target_version))
            == around.0 + byte_slice(text, spans[a - 1].1 as int, spans[b].0 as int) + around.1,
{
    let entered = lex_state(text, spans.take(a));
    let inside = lex_state(text, spans.take(b));
    let left = lex_state(text, spans.take(b + 1));
    let all = lex_state(text, spans);
    let lexed = lex_spans_spec(text, spans);
    let sp = spans[b];
    lemma_verbatim_fidelity(text, spans, a, b);
    lemma_lex_state_last_end(text, spans, a);
    lemma_lex_state_last_end(text, spans, b);
    lemma_lex_state_grows(text, spans, 0, a);
    lemma_lex_state_grows(text, spans, b + 1, spans.len() as int);
    assert(spans.take(spans.len() as int) =~= spans);
    assert(spans.take(b + 1).drop_last() =~= spans.take(b));
    assert(spans.take(b + 1).last() == sp);
    assert(left == lex_step(text, inside, sp));
    assert(span_ok(text, sp.0 as int, sp.1 as int));
    assert(spans[b - 1].1 <= spans[b].0);
    let count = entered.tokens.len() as int;
    let middle = inside.tokens.skip(count);
    let gap = byte_slice(text, inside.last_end, sp.0 as int);
    let gap_token = TokenView::Text { contents: gap, lineno: inside.lineno };
    let region = if sp.0 > inside.last_end {
        middle.push(gap_token)
    } else {
        middle
    };
    let at = count - 1;
    assert(inside.tokens =~= entered.tokens + middle);
    assert(left.tokens =~= entered.tokens + region + seq![left.tokens.last()]);
    assert(lexed.take(left.tokens.len() as int) =~= left.tokens) by {
        assert(all.tokens.take(left.tokens.len() as int) == left.tokens);
    }
    assert forall|k: int| 0 <= k < region.len() implies #[trigger] region[k] is Text by {
        if k < middle.len() {
            assert(middle[k] == inside.tokens[count + k]);
        }
    }
    assert(lexed[at] == entered.tokens.last()) by {
        assert(left.tokens[at] == entered.tokens[at]);
        assert(lexed.take(left.tokens.len() as int)[at] == lexed[at]);
    }
    assert(lexed[at + region.len() + 1] == left.tokens.last()) by {
        assert(lexed.take(left.tokens.len() as int)[at + region.len() + 1] == lexed[at
            + region.len() + 1]);
    }
    assert(lexed.subrange(at + 1, at + 1 + region.len()) =~= region) by {
        assert forall|k: int| 0 <= k < region.len() implies lexed[at + 1 + k] == region[k] by {
            assert(lexed.take(left.tokens.len() as int)[at + 1 + k] == lexed[at + 1 + k]);
            assert(left.tokens[at + 1 + k] == region[k]);
        }
    }
    assert(holds_verbatim(lexed, at, region));
    assert(render_spec(region) == byte_slice(text, spans[a - 1].1 as int, sp.0 as int)) by {
        lemma_byte_slice_concat(text, entered.last_end, inside.last_end, sp.0 as int);
        if sp.0 > inside.last_end {
            assert(region.drop_last() =~= middle);
        } else {
            assert(vstd::utf8::encode_utf8(text).subrange(inside.last_end, sp.0 as int)
                =~= Seq::<u8>::empty());
            assert(gap =~= Seq::<char>::empty());
            assert(render_spec(middle) + gap =~= render_spec(middle));
        }
    }
    let formatted = format_tokens_spec(lexed, newline, target_version);
    let moved = lemma_passes_keep_verbatim(lexed, at, region, newline, target_version);
    lemma_render_verbatim(formatted, moved, region);
    (
        render_spec(formatted.take(moved + 1)),
        render_spec(formatted.skip(moved + 1 + region.len())),
    )
}

/// `whole` is `part` with `before` in front of it and `after` behind it.
pub open spec fn holds_between(
    whole: Seq<char>,
    before: Seq<char>,
    part: Seq<char>,
    after: Seq<char>,
) -> bool {
    whole == before + part + after
}

/// Verbatim content survives formatting, said of a document: where its tags
/// are found in good order, and a `verbatim` tag, tag `a - 1`, puts the lexer
/// in verbatim mode until an `endverbatim` tag, tag `b`, then the formatted
/// document holds what stands between the two tags as it is written.
pub proof fn lemma_format_keeps_verbatim(
    content: Seq<char>,
    a: int,
    b: int,
    target_version: Option<(u8, u8)>,
)
    ensures
        ({
            let spans = spans_of(TAG_PATTERN@, content);
            spans_ok(content, spans) && 0 < a <= b < spans.len() && verbatim_through(
                content,
                spans,
                a,
                b,
            ) && lex_state(content, spans.take(a)).tokens.last().is_tag("verbatim"@) && lex_state(
                content,
                spans.take(b + 1),
            ).tokens.last().is_tag("endverbatim"@) ==> exists|before: Seq<char>, after: Seq<char>| #[trigger]
                holds_between(
                    format_spec(content, target_version),
                    before,
                    byte_slice(content, spans[a - 1].1 as int, spans[b].0 as int),
                    after,
                )
        }),
{
    let spans = spans_of(TAG_PATTERN@, content);
    if spans_ok(content, spans) && 0 < a <= b < spans.len() && verbatim_through(
        content,
        spans,
        a,
        b,
    ) && lex_state(content, spans.take(a)).tokens.last().is_tag("verbatim"@) && lex_state(
        content,
        spans.take(b + 1),
    ).tokens.last().is_tag("endverbatim"@) {
        let around = lemma_verbatim_survives_formatting(
            content,
            spans,
            a,
            b,
            detect_newline_spec(content),
            target_version,
        );
        assert(holds_between(
            format_spec(content, target_version),
            around.0,
            byte_slice(content, spans[a - 1].1 as int, spans[b].0 as int),
            around.1,
        ));
    }
}

} // verus!
