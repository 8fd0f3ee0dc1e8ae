//! Tidying `load` tags. A run of plain `load` tags, with nothing but
//! whitespace between them, becomes one tag with the names sorted and each
//! once. A `load <names> from <library>` tag has its names sorted and each
//! once, and is never merged with another.

use crate::names::{contains_word, sort_dedup, sorted_names};
use crate::text::{owned, str_eq};
use crate::token::{set_bits, Token, TokenView};
use vstd::prelude::*;

verus! {

/// The token is a `load` tag without `from`.
pub open spec fn is_plain_load(t: TokenView) -> bool {
    t.is_tag("load"@) && !t.bits().contains("from"@)
}

/// The bits are `load <names> from <library>`, with at least one name.
pub open spec fn is_load_from(t: TokenView) -> bool {
    t.is_tag("load"@) && t.bits().len() >= 4 && t.bits()[t.bits().len() - 2] == "from"@
}

/// Where the run that is scanned from `j` stops: at the first token that is
/// neither blank text nor a plain `load` tag, or at the end.
pub open spec fn run_scan(tokens: Seq<TokenView>, j: int) -> int
    decreases tokens.len() - j,
{
    if 0 <= j < tokens.len() && (tokens[j].is_blank_text() || is_plain_load(tokens[j])) {
        run_scan(tokens, j + 1)
    } else {
        j
    }
}

/// The end of the run of `load` tags that starts at `i`: where the scan from
/// `i + 1` stops, less the blank text that the run would end on.
pub open spec fn run_end(tokens: Seq<TokenView>, i: int) -> int {
    let j = run_scan(tokens, i + 1);
    if 0 < j <= tokens.len() && tokens[j - 1] is Text {
        j - 1
    } else {
        j
    }
}

/// The names that the plain `load` tags among `run` ask for, in their order.
pub open spec fn loaded_names(run: Seq<TokenView>) -> Seq<Seq<char>>
    decreases run.len(),
{
    if run.len() == 0 {
        Seq::empty()
    } else {
        loaded_names(run.drop_last()) + if is_plain_load(run.last()) {
            run.last().bits().skip(1)
        } else {
            Seq::empty()
        }
    }
}

/// The bits of a `load ... from ...` tag with its names sorted, each once.
pub open spec fn sorted_load_from(bits: Seq<Seq<char>>) -> Seq<Seq<char>> {
    seq!["load"@] + sort_dedup(bits.subrange(1, bits.len() - 2)) + seq![
        "from"@,
        bits[bits.len() - 1],
    ]
}

/// What the pass does at index `i`. A plain `load` tag takes up the run that
/// starts with it. A `load` tag with `from` gets its names sorted if it has
/// the form `load <names> from <library>`, and is left alone if not. Any
/// other token stays.
pub open spec fn load_step(tokens: Seq<TokenView>, i: int) -> Seq<TokenView> {
    if 0 <= i < tokens.len() && is_plain_load(tokens[i]) {
        let j = run_end(tokens, i);
        let merged = TokenView::Block {
            bits: seq!["load"@] + sort_dedup(loaded_names(tokens.subrange(i, j))),
            lineno: tokens[i].line(),
        };
        tokens.take(i).push(merged) + tokens.skip(j)
    } else if 0 <= i < tokens.len() && is_load_from(tokens[i]) {
        tokens.update(
            i,
            TokenView::Block { bits: sorted_load_from(tokens[i].bits()), lineno: tokens[i].line() },
        )
    } else {
        tokens
    }
}

/// The scan moves forward and stays within the tokens.
pub proof fn lemma_run_scan_bounds(tokens: Seq<TokenView>, j: int)
    requires
        0 <= j <= tokens.len(),
    ensures
        j <= run_scan(tokens, j) <= tokens.len(),
    decreases tokens.len() - j,
{
    if j < tokens.len() && (tokens[j].is_blank_text() || is_plain_load(tokens[j])) {
        lemma_run_scan_bounds(tokens, j + 1);
    }
}

/// A run holds at least its first tag and stays within the tokens.
pub proof fn lemma_run_end_bounds(tokens: Seq<TokenView>, i: int)
    requires
        0 <= i < tokens.len(),
        tokens[i] is Block,
    ensures
        i + 1 <= run_end(tokens, i) <= tokens.len(),
{
    lemma_run_scan_bounds(tokens, i + 1);
}

/// One step never adds a token, and leaves the token at `i` in place.
pub proof fn lemma_load_step_len(tokens: Seq<TokenView>, i: int)
    requires
        0 <= i < tokens.len(),
    ensures
        i < load_step(tokens, i).len() <= tokens.len(),
{
    if is_plain_load(tokens[i]) {
        lemma_run_end_bounds(tokens, i);
    }
}

/// The tokens after the pass has worked from index `i` to the end.
pub open spec fn update_load_tags_from(tokens: Seq<TokenView>, i: int) -> Seq<TokenView>
    decreases tokens.len() - i,
{
    if 0 <= i < tokens.len() {
        proof {
            lemma_load_step_len(tokens, i);
        }
        update_load_tags_from(load_step(tokens, i), i + 1)
    } else {
        tokens
    }
}

/// The `load` pass: every index in turn, from the first.
pub open spec fn update_load_tags_spec(tokens: Seq<TokenView>) -> Seq<TokenView> {
    update_load_tags_from(tokens, 0)
}

fn plain_load(token: &Token) -> (r: bool)
    ensures
        r == is_plain_load(token@),
{
    match token {
        Token::Block { bits, .. } => bits.len() > 0 && str_eq(bits[0].as_str(), "load")
            && !contains_word(bits, "from"),
        _ => false,
    }
}

fn load_from(token: &Token) -> (r: bool)
    ensures
        r == is_load_from(token@),
{
    match token {
        Token::Block { bits, .. } => bits.len() >= 4 && str_eq(bits[0].as_str(), "load")
            && str_eq(bits[bits.len() - 2].as_str(), "from"),
        _ => false,
    }
}

/// Appends copies of `token`'s bits from index `from` up to `to`.
fn copy_bits(token: &Token, from: usize, to: usize, out: &mut Vec<String>)
    requires
        from <= to <= token@.bits().len(),
    ensures
        final(out).deep_view() == old(out).deep_view() + token@.bits().subrange(
            from as int,
            to as int,
        ),
{
    let ghost before = out.deep_view();
    let mut k: usize = from;
    assert(before + token@.bits().subrange(from as int, from as int) =~= before);
    while k < to
        invariant
            from <= k <= to <= token@.bits().len(),
            out.deep_view() == before + token@.bits().subrange(from as int, k as int),
        decreases to - k,
    {
        let ghost prior = out.deep_view();
        let bit = token.bit(k);
        out.push(bit);
        assert(out.deep_view() =~= prior.push(bit@));
        assert(prior.push(bit@) =~= before + token@.bits().subrange(from as int, k + 1));
        k += 1;
    }
}

fn sort_load_from(tokens: &mut Vec<Token>, i: usize)
    requires
        i < old(tokens).len(),
        is_load_from(old(tokens)[i as int]@),
    ensures
        final(tokens).deep_view() == load_step(old(tokens).deep_view(), i as int),
{
    let ghost before = tokens.deep_view();
    assert(before[i as int] == tokens[i as int]@);
    let n: usize = tokens[i].bit_count();
    let mut names: Vec<String> = Vec::new();
    assert(names.deep_view() =~= Seq::empty());
    copy_bits(&tokens[i], 1, n - 2, &mut names);
    assert(names.deep_view() =~= before[i as int].bits().subrange(1, n - 2));
    let mut bits: Vec<String> = Vec::new();
    bits.push(owned("load"));
    assert(bits.deep_view() =~= seq!["load"@]);
    let sorted = sorted_names(&names);
    let token: &Token = &tokens[i];
    let ghost first = bits.deep_view();
    let count: usize = sorted.len();
    let mut k: usize = 0;
    assert(first + sorted.deep_view().take(0) =~= first);
    while k < count
        invariant
            k <= count == sorted.len(),
            bits.deep_view() == first + sorted.deep_view().take(k as int),
        decreases count - k,
    {
        let ghost prior = bits.deep_view();
        let name = owned(sorted[k].as_str());
        bits.push(name);
        assert(bits.deep_view() =~= prior.push(name@));
        assert(prior.push(name@) =~= first + sorted.deep_view().take(k + 1));
        k += 1;
    }
    assert(sorted.deep_view().take(count as int) =~= sorted.deep_view());
    let ghost named = bits.deep_view();
    let from = owned("from");
    let library = token.bit(n - 1);
    bits.push(from);
    bits.push(library);
    assert(bits.deep_view() =~= named + seq!["from"@, library@]);
    assert(!is_plain_load(before[i as int])) by {
        assert(before[i as int].bits()[n - 2] == "from"@);
    }
    set_bits(tokens, i, bits);
}

fn merge_run(tokens: &mut Vec<Token>, i: usize)
    requires
        i < old(tokens).len(),
        is_plain_load(old(tokens)[i as int]@),
    ensures
        final(tokens).deep_view() == load_step(old(tokens).deep_view(), i as int),
{
    let ghost before = tokens.deep_view();
    assert(before[i as int] == tokens[i as int]@);
    let mut j: usize = i + 1;
    while j < tokens.len() && (tokens[j].is_blank_text() || plain_load(&tokens[j]))
        invariant
            i + 1 <= j <= tokens.len(),
            before == tokens.deep_view(),
            run_scan(before, i + 1) == run_scan(before, j as int),
        decreases tokens.len() - j,
    {
        assert(before[j as int] == tokens[j as int]@);
        j += 1;
    }
    proof {
        if j < tokens.len() {
            assert(before[j as int] == tokens[j as int]@);
        }
        assert(before[j - 1] == tokens[j - 1]@);
    }
    let on_text: bool = match &tokens[j - 1] {
        Token::Text { .. } => true,
        _ => false,
    };
    if on_text {
        j -= 1;
    }
    assert(j == run_end(before, i as int));
    let mut names: Vec<String> = Vec::new();
    let mut k: usize = i;
    proof {
        assert(names.deep_view() =~= Seq::empty());
        assert(before.subrange(i as int, i as int) =~= Seq::empty());
    }
    while k < j
        invariant
            i <= k <= j <= tokens.len(),
            before == tokens.deep_view(),
            names.deep_view() == loaded_names(before.subrange(i as int, k as int)),
        decreases j - k,
    {
        proof {
            assert(before.subrange(i as int, k + 1).drop_last() =~= before.subrange(
                i as int,
                k as int,
            ));
            assert(before.subrange(i as int, k + 1).last() == tokens[k as int]@);
        }
        if plain_load(&tokens[k]) {
            let n: usize = tokens[k].bit_count();
            copy_bits(&tokens[k], 1, n, &mut names);
            assert(tokens[k as int]@.bits().subrange(1, n as int) =~= tokens[k as int]@.bits().skip(
                1,
            ));
        } else {
            assert(names.deep_view() + Seq::<Seq<char>>::empty() =~= names.deep_view());
        }
        k += 1;
    }
    let sorted = sorted_names(&names);
    let mut bits: Vec<String> = Vec::new();
    bits.push(owned("load"));
    assert(bits.deep_view() =~= seq!["load"@]);
    let ghost first = bits.deep_view();
    let count: usize = sorted.len();
    let mut k: usize = 0;
    assert(first + sorted.deep_view().take(0) =~= first);
    while k < count
        invariant
            k <= count == sorted.len(),
            bits.deep_view() == first + sorted.deep_view().take(k as int),
        decreases count - k,
    {
        let ghost prior = bits.deep_view();
        let name = owned(sorted[k].as_str());
        bits.push(name);
        assert(bits.deep_view() =~= prior.push(name@));
        assert(prior.push(name@) =~= first + sorted.deep_view().take(k + 1));
        k += 1;
    }
    assert(sorted.deep_view().take(count as int) =~= sorted.deep_view());
    let ghost merged = TokenView::Block { bits: bits.deep_view(), lineno: before[i as int].line() };
    set_bits(tokens, i, bits);
    let ghost set = tokens.deep_view();
    let mut removed: usize = 0;
    let extra: usize = j - i - 1;
    assert(set.skip(i + 1) =~= before.skip(i + 1));
    assert(set.take(i + 1) =~= before.take(i as int).push(merged));
    while removed < extra
        invariant
            removed <= extra == j - i - 1,
            i + 1 <= j <= before.len(),
            tokens.len() == before.len() - removed,
            tokens.deep_view() == set.take(i + 1) + before.skip(i + 1 + removed),
        decreases extra - removed,
    {
        let ghost prior = tokens.deep_view();
        tokens.remove(i + 1);
        assert(tokens.deep_view() =~= prior.remove(i + 1));
        assert(prior.remove(i + 1) =~= set.take(i + 1) + before.skip(i + 1 + removed + 1));
        removed += 1;
    }
}

/// Sorts the names of `load` tags and merges runs of plain `load` tags.
pub fn update_load_tags(tokens: &mut Vec<Token>)
    ensures
        final(tokens).deep_view() == update_load_tags_spec(old(tokens).deep_view()),
{
    let ghost before = tokens.deep_view();
    let mut i: usize = 0;
    while i < tokens.len()
        invariant
            update_load_tags_from(before, 0) == update_load_tags_from(
                tokens.deep_view(),
                i as int,
            ),
        decreases tokens.len() - i,
    {
        proof {
            lemma_load_step_len(tokens.deep_view(), i as int);
        }
        if plain_load(&tokens[i]) {
            merge_run(tokens, i);
        } else if load_from(&tokens[i]) {
            sort_load_from(tokens, i);
        }
        i += 1;
    }
}

} // verus!
