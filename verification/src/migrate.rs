//! The migrations: rewrites of deprecated tags and filters into their modern
//! forms, each applied only from the target version that introduced the
//! modern form, and never without a target version.

use crate::pattern::{
    captures_of, end, end_of, find_captures, group, group_at, groups_view, matches_ok, span_text,
    start, start_of, Groups,
};
use crate::names::contains_word;
use crate::text::{byte_len, concat, cut, owned, str_eq};
use crate::token::{set_bits, Expression, ExpressionView, Filter, FilterView, Token, TokenView};
use vstd::prelude::*;

verus! {

/// `variable|length_is:argument`, with the variable in group 1 and the
/// argument in group 2.
pub const LENGTH_IS_PATTERN: &'static str = r"([\w.]+)\|length_is:(\w+)";

/// Whether the target version is at least `major.minor`. No target version
/// reaches nothing.
pub open spec fn reaches_spec(target_version: Option<(u8, u8)>, major: u8, minor: u8) -> bool {
    match target_version {
        Some(v) => v.0 > major || (v.0 == major && v.1 >= minor),
        None => false,
    }
}

/// Whether the target version is at least `major.minor`.
pub fn reaches(target_version: Option<(u8, u8)>, major: u8, minor: u8) -> (r: bool)
    ensures
        r == reaches_spec(target_version, major, minor),
{
    match target_version {
        Some(v) => v.0 > major || (v.0 == major && v.1 >= minor),
        None => false,
    }
}

/// The variable and the argument of a `length_is` test, where the first match
/// found in `bit` covers the whole of it and has both.
pub open spec fn length_is_parts(bit: Seq<char>, ms: Seq<Seq<Option<(usize, usize)>>>) -> Option<
    (Seq<char>, Seq<char>),
> {
    if ms.len() >= 1 && start_of(ms[0]) == 0 && end_of(ms[0]) == byte_len(bit) {
        match (group_at(ms[0], 1), group_at(ms[0], 2)) {
            (Some(var), Some(arg)) => Some((span_text(bit, var), span_text(bit, arg))),
            _ => None,
        }
    } else {
        None
    }
}

/// What the `length_is` migration makes of the bits of a block tag: a tag of
/// exactly two bits whose second is `variable|length_is:argument` gets the
/// bits `variable|length`, `==` and `argument` in its place.
pub open spec fn migrate_length_is_bits(bits: Seq<Seq<char>>) -> Seq<Seq<char>> {
    if bits.len() == 2 {
        match length_is_parts(bits[1], captures_of(LENGTH_IS_PATTERN@, bits[1])) {
            Some((var, arg)) => seq![bits[0], var + "|length"@, "=="@, arg],
            None => bits,
        }
    } else {
        bits
    }
}

/// What the `length_is` migration makes of one token.
pub open spec fn migrate_length_is_token(t: TokenView) -> TokenView {
    match t {
        TokenView::Block { bits, lineno } => TokenView::Block {
            bits: migrate_length_is_bits(bits),
            lineno,
        },
        _ => t,
    }
}

/// The `length_is` migration, from version 4.2.
pub open spec fn migrate_length_is_spec(
    tokens: Seq<TokenView>,
    target_version: Option<(u8, u8)>,
) -> Seq<TokenView> {
    if reaches_spec(target_version, 4, 2) {
        tokens.map_values(|t: TokenView| migrate_length_is_token(t))
    } else {
        tokens
    }
}

/// Reads the variable and the argument of a `length_is` test off the matches
/// found in `bit`.
pub fn length_is_rewrite(bit: &str, ms: &Vec<Groups>) -> (parts: Option<(String, String)>)
    requires
        matches_ok(bit@, groups_view(ms@)),
    ensures
        match parts {
            Some((var, arg)) => length_is_parts(bit@, groups_view(ms@)) == Some((var@, arg@)),
            None => length_is_parts(bit@, groups_view(ms@)) is None,
        },
{
    if ms.len() == 0 {
        return None;
    }
    let m: &Groups = &ms[0];
    assert(groups_view(ms@)[0] == m@);
    if start(m) != 0 || end(m) != bit.as_bytes().len() {
        return None;
    }
    match (group(m, 1), group(m, 2)) {
        (Some(var), Some(arg)) => {
            assert(groups_view(ms@)[0][1] == Some(var));
            assert(groups_view(ms@)[0][2] == Some(arg));
            Some((owned(cut(bit, var.0, var.1)), owned(cut(bit, arg.0, arg.1))))
        },
        _ => None,
    }
}

fn length_is_in_bits(bits: &mut Vec<String>)
    ensures
        final(bits).deep_view() == migrate_length_is_bits(old(bits).deep_view()),
{
    if bits.len() != 2 {
        return ;
    }
    let ms = find_captures(LENGTH_IS_PATTERN, bits[1].as_str());
    match length_is_rewrite(bits[1].as_str(), &ms) {
        Some((var, arg)) => {
            let ghost before = bits.deep_view();
            let fused = concat(var.as_str(), "|length");
            let equals = owned("==");
            bits.pop();
            bits.push(fused);
            bits.push(equals);
            bits.push(arg);
            assert(bits.deep_view() =~= seq![before[0], fused@, equals@, arg@]);
        },
        None => {},
    }
}

/// Rewrites `{% if x|length_is:n %}` to `{% if x|length == n %}`.
pub fn migrate_length_is(tokens: &mut Vec<Token>, target_version: Option<(u8, u8)>)
    ensures
        final(tokens).deep_view() == migrate_length_is_spec(
            old(tokens).deep_view(),
            target_version,
        ),
{
    if !reaches(target_version, 4, 2) {
        return ;
    }
    let ghost before = tokens.deep_view();
    let mut i: usize = 0;
    while i < tokens.len()
        invariant
            i <= tokens.len(),
            tokens.len() == before.len(),
            forall|j: int| 0 <= j < i ==> (#[trigger] tokens@[j])@ == migrate_length_is_token(before[j]),
            forall|j: int| i <= j < tokens.len() ==> (#[trigger] tokens@[j])@ == before[j],
        decreases tokens.len() - i,
    {
        match &mut tokens[i] {
            Token::Block { bits, .. } => {
                length_is_in_bits(bits);
            },
            _ => {},
        }
        i += 1;
    }
    assert(tokens.deep_view() =~= before.map_values(|t: TokenView| migrate_length_is_token(t)));
}

/// A filter `json_script` whose argument is the empty string, in double or in
/// single quotes, loses the argument.
pub open spec fn clear_empty_id(f: FilterView) -> FilterView {
    if f.name == "json_script"@ && (f.arg == Some(ExpressionView::Constant("\"\""@)) || f.arg
        == Some(ExpressionView::Constant("''"@))) {
        FilterView { name: f.name, arg: None }
    } else {
        f
    }
}

/// What the `json_script` migration makes of one token.
pub open spec fn migrate_empty_json_script_token(t: TokenView) -> TokenView {
    match t {
        TokenView::Variable { filter_expression, lineno } => TokenView::Variable {
            filter_expression: crate::token::FilterExpressionView {
                var: filter_expression.var,
                filters: filter_expression.filters.map_values(|f: FilterView| clear_empty_id(f)),
            },
            lineno,
        },
        _ => t,
    }
}

/// The `json_script` migration, from version 4.1.
pub open spec fn migrate_empty_json_script_spec(
    tokens: Seq<TokenView>,
    target_version: Option<(u8, u8)>,
) -> Seq<TokenView> {
    if reaches_spec(target_version, 4, 1) {
        tokens.map_values(|t: TokenView| migrate_empty_json_script_token(t))
    } else {
        tokens
    }
}

fn has_empty_id(f: &Filter) -> (r: bool)
    ensures
        r == (clear_empty_id(f@) != f@),
{
    if !str_eq(f.name.as_str(), "json_script") {
        return false;
    }
    match &f.arg {
        Some(Expression::Constant(arg)) => str_eq(arg.as_str(), "\"\"") || str_eq(
            arg.as_str(),
            "''",
        ),
        _ => false,
    }
}

fn clear_empty_ids(filters: &mut Vec<Filter>)
    ensures
        final(filters).deep_view() == old(filters).deep_view().map_values(
            |f: FilterView| clear_empty_id(f),
        ),
{
    let ghost before = filters.deep_view();
    let mut k: usize = 0;
    while k < filters.len()
        invariant
            k <= filters.len(),
            filters.len() == before.len(),
            forall|j: int| 0 <= j < k ==> (#[trigger] filters@[j])@ == clear_empty_id(before[j]),
            forall|j: int| k <= j < filters.len() ==> (#[trigger] filters@[j])@ == before[j],
        decreases filters.len() - k,
    {
        if has_empty_id(&filters[k]) {
            filters[k].arg = None;
        }
        k += 1;
    }
    assert(filters.deep_view() =~= before.map_values(|f: FilterView| clear_empty_id(f)));
}

/// Rewrites `|json_script:""` to `|json_script`.
pub fn migrate_empty_json_script(tokens: &mut Vec<Token>, target_version: Option<(u8, u8)>)
    ensures
        final(tokens).deep_view() == migrate_empty_json_script_spec(
            old(tokens).deep_view(),
            target_version,
        ),
{
    if !reaches(target_version, 4, 1) {
        return ;
    }
    let ghost before = tokens.deep_view();
    let mut i: usize = 0;
    while i < tokens.len()
        invariant
            i <= tokens.len(),
            tokens.len() == before.len(),
            forall|j: int|
                0 <= j < i ==> (#[trigger] tokens@[j])@ == migrate_empty_json_script_token(
                    before[j],
                ),
            forall|j: int| i <= j < tokens.len() ==> (#[trigger] tokens@[j])@ == before[j],
        decreases tokens.len() - i,
    {
        match &mut tokens[i] {
            Token::Variable { filter_expression, .. } => {
                clear_empty_ids(&mut filter_expression.filters);
            },
            _ => {},
        }
        i += 1;
    }
    assert(tokens.deep_view() =~= before.map_values(
        |t: TokenView| migrate_empty_json_script_token(t),
    ));
}

/// The modern name of a translation tag.
pub open spec fn rename_translation(name: Seq<char>) -> Seq<char> {
    if name == "trans"@ {
        "translate"@
    } else if name == "blocktrans"@ {
        "blocktranslate"@
    } else {
        name
    }
}

/// The bits are `load <names> from i18n`, with at least one name.
pub open spec fn loads_from_i18n(bits: Seq<Seq<char>>) -> bool {
    bits.len() >= 4 && bits[0] == "load"@ && bits[bits.len() - 2] == "from"@ && bits[bits.len()
        - 1] == "i18n"@
}

/// What the translation migration makes of the bits of a block tag: `trans`,
/// `blocktrans` and `endblocktrans` get their modern names, as tag names and
/// as the names that `load ... from i18n` asks for.
pub open spec fn migrate_translation_bits(bits: Seq<Seq<char>>) -> Seq<Seq<char>> {
    if bits.len() == 0 {
        bits
    } else if bits[0] == "trans"@ || bits[0] == "blocktrans"@ {
        bits.update(0, rename_translation(bits[0]))
    } else if bits[0] == "endblocktrans"@ {
        bits.update(0, "endblocktranslate"@)
    } else if loads_from_i18n(bits) {
        Seq::new(
            bits.len(),
            |i: int|
                if 1 <= i < bits.len() - 2 {
                    rename_translation(bits[i])
                } else {
                    bits[i]
                },
        )
    } else {
        bits
    }
}

/// What the translation migration makes of one token.
pub open spec fn migrate_translation_token(t: TokenView) -> TokenView {
    match t {
        TokenView::Block { bits, lineno } => TokenView::Block {
            bits: migrate_translation_bits(bits),
            lineno,
        },
        _ => t,
    }
}

/// The translation migration, from version 3.1.
pub open spec fn migrate_translation_tags_spec(
    tokens: Seq<TokenView>,
    target_version: Option<(u8, u8)>,
) -> Seq<TokenView> {
    if reaches_spec(target_version, 3, 1) {
        tokens.map_values(|t: TokenView| migrate_translation_token(t))
    } else {
        tokens
    }
}

fn rename_translation_at(bits: &mut Vec<String>, i: usize)
    requires
        i < old(bits).len(),
    ensures
        final(bits).len() == old(bits).len(),
        final(bits).deep_view() == old(bits).deep_view().update(
            i as int,
            rename_translation(old(bits).deep_view()[i as int]),
        ),
{
    let ghost before = bits.deep_view();
    if str_eq(bits[i].as_str(), "trans") {
        bits[i] = owned("translate");
    } else if str_eq(bits[i].as_str(), "blocktrans") {
        bits[i] = owned("blocktranslate");
    }
    assert(bits.deep_view() =~= before.update(i as int, rename_translation(before[i as int])));
}

fn translation_in_bits(bits: &mut Vec<String>)
    ensures
        final(bits).deep_view() == migrate_translation_bits(old(bits).deep_view()),
{
    let ghost before = bits.deep_view();
    let n: usize = bits.len();
    if n == 0 {
        return ;
    }
    if str_eq(bits[0].as_str(), "trans") || str_eq(bits[0].as_str(), "blocktrans") {
        rename_translation_at(bits, 0);
    } else if str_eq(bits[0].as_str(), "endblocktrans") {
        bits[0] = owned("endblocktranslate");
        assert(bits.deep_view() =~= before.update(0, "endblocktranslate"@));
    } else if n >= 4 && str_eq(bits[0].as_str(), "load") && str_eq(bits[n - 2].as_str(), "from")
        && str_eq(bits[n - 1].as_str(), "i18n") {
        let mut i: usize = 1;
        while i < n - 2
            invariant
                1 <= i <= n - 2,
                n == bits.len() == before.len(),
                forall|j: int|
                    1 <= j < i ==> (#[trigger] bits.deep_view()[j]) == rename_translation(
                        before[j],
                    ),
                forall|j: int|
                    (0 <= j < 1 || i <= j < n) ==> (#[trigger] bits.deep_view()[j]) == before[j],
            decreases n - i,
        {
            rename_translation_at(bits, i);
            i += 1;
        }
        assert(bits.deep_view() =~= migrate_translation_bits(before));
    }
}

/// Renames `trans`, `blocktrans` and `endblocktrans`.
pub fn migrate_translation_tags(tokens: &mut Vec<Token>, target_version: Option<(u8, u8)>)
    ensures
        final(tokens).deep_view() == migrate_translation_tags_spec(
            old(tokens).deep_view(),
            target_version,
        ),
{
    if !reaches(target_version, 3, 1) {
        return ;
    }
    let ghost before = tokens.deep_view();
    let mut i: usize = 0;
    while i < tokens.len()
        invariant
            i <= tokens.len(),
            tokens.len() == before.len(),
            forall|j: int|
                0 <= j < i ==> (#[trigger] tokens@[j])@ == migrate_translation_token(before[j]),
            forall|j: int| i <= j < tokens.len() ==> (#[trigger] tokens@[j])@ == before[j],
        decreases tokens.len() - i,
    {
        match &mut tokens[i] {
            Token::Block { bits, .. } => {
                translation_in_bits(bits);
            },
            _ => {},
        }
        i += 1;
    }
    assert(tokens.deep_view() =~= before.map_values(|t: TokenView| migrate_translation_token(t)));
}

/// One of the two libraries that `static` replaced.
pub open spec fn is_old_static(name: Seq<char>) -> bool {
    name == "admin_static"@ || name == "staticfiles"@
}

/// What the static-loader migration makes of the bits of a block tag. In
/// `load <names> from <library>` the library becomes `static` if it is one of
/// the old two; in a `load` without `from`, every such name does.
pub open spec fn migrate_static_bits(bits: Seq<Seq<char>>) -> Seq<Seq<char>> {
    if bits.len() > 0 && bits[0] == "load"@ {
        if bits.contains("from"@) {
            if bits.len() >= 4 && bits[bits.len() - 2] == "from"@ && is_old_static(
                bits[bits.len() - 1],
            ) {
                bits.update(bits.len() - 1, "static"@)
            } else {
                bits
            }
        } else {
            Seq::new(
                bits.len(),
                |i: int|
                    if 1 <= i && is_old_static(bits[i]) {
                        "static"@
                    } else {
                        bits[i]
                    },
            )
        }
    } else {
        bits
    }
}

/// What the static-loader migration makes of one token.
pub open spec fn migrate_static_token(t: TokenView) -> TokenView {
    match t {
        TokenView::Block { bits, lineno } => TokenView::Block {
            bits: migrate_static_bits(bits),
            lineno,
        },
        _ => t,
    }
}

/// The static-loader migration, from version 2.1.
pub open spec fn migrate_static_load_tags_spec(
    tokens: Seq<TokenView>,
    target_version: Option<(u8, u8)>,
) -> Seq<TokenView> {
    if reaches_spec(target_version, 2, 1) {
        tokens.map_values(|t: TokenView| migrate_static_token(t))
    } else {
        tokens
    }
}

fn old_static(name: &str) -> (r: bool)
    ensures
        r == is_old_static(name@),
{
    str_eq(name, "admin_static") || str_eq(name, "staticfiles")
}

fn static_in_bits(bits: &mut Vec<String>)
    ensures
        final(bits).deep_view() == migrate_static_bits(old(bits).deep_view()),
{
    let ghost before = bits.deep_view();
    let n: usize = bits.len();
    if n == 0 || !str_eq(bits[0].as_str(), "load") {
        return ;
    }
    if contains_word(bits, "from") {
        if n >= 4 && str_eq(bits[n - 2].as_str(), "from") && old_static(bits[n - 1].as_str()) {
            bits[n - 1] = owned("static");
            assert(bits.deep_view() =~= before.update(n - 1, "static"@));
        }
    } else {
        let mut i: usize = 1;
        while i < n
            invariant
                1 <= i <= n,
                n == bits.len() == before.len(),
                forall|j: int|
                    1 <= j < i ==> (#[trigger] bits.deep_view()[j]) == (if is_old_static(
                        before[j],
                    ) {
                        "static"@
                    } else {
                        before[j]
                    }),
                forall|j: int|
                    (0 <= j < 1 || i <= j < n) ==> (#[trigger] bits.deep_view()[j]) == before[j],
            decreases n - i,
        {
            assert(bits.deep_view()[i as int] == bits@[i as int]@);
            if old_static(bits[i].as_str()) {
                let ghost prior = bits.deep_view();
                bits[i] = owned("static");
                assert(bits.deep_view() =~= prior.update(i as int, "static"@));
            }
            i += 1;
        }
        assert(bits.deep_view() =~= migrate_static_bits(before));
    }
}

/// Rewrites the loading of `admin_static` and `staticfiles` to `static`.
pub fn migrate_static_load_tags(tokens: &mut Vec<Token>, target_version: Option<(u8, u8)>)
    ensures
        final(tokens).deep_view() == migrate_static_load_tags_spec(
            old(tokens).deep_view(),
            target_version,
        ),
{
    if !reaches(target_version, 2, 1) {
        return ;
    }
    let ghost before = tokens.deep_view();
    let mut i: usize = 0;
    while i < tokens.len()
        invariant
            i <= tokens.len(),
            tokens.len() == before.len(),
            forall|j: int|
                0 <= j < i ==> (#[trigger] tokens@[j])@ == migrate_static_token(before[j]),
            forall|j: int| i <= j < tokens.len() ==> (#[trigger] tokens@[j])@ == before[j],
        decreases tokens.len() - i,
    {
        match &mut tokens[i] {
            Token::Block { bits, .. } => {
                static_in_bits(bits);
            },
            _ => {},
        }
        i += 1;
    }
    assert(tokens.deep_view() =~= before.map_values(|t: TokenView| migrate_static_token(t)));
}

/// Where the pairing of `ifequal` tags stands: the opening tags that still
/// wait for their end, innermost last, and the pairs found so far, each as
/// the indices of its opening and its closing tag.
pub struct Pairing {
    pub stack: Seq<int>,
    pub pairs: Seq<(int, int)>,
}

/// The token is an `ifequal` or `ifnotequal` tag.
pub open spec fn opens_ifequal(t: TokenView) -> bool {
    t.is_tag("ifequal"@) || t.is_tag("ifnotequal"@)
}

/// The token is an `endifequal` or `endifnotequal` tag.
pub open spec fn closes_ifequal(t: TokenView) -> bool {
    t.is_tag("endifequal"@) || t.is_tag("endifnotequal"@)
}

/// Takes the token at index `i` into account. An opening tag with exactly
/// three bits waits for its end. A closing tag takes the innermost waiting
/// tag, and makes a pair with it if it has no argument.
pub open spec fn pairing_step(p: Pairing, i: int, t: TokenView) -> Pairing {
    if opens_ifequal(t) {
        if t.bits().len() == 3 {
            Pairing { stack: p.stack.push(i), pairs: p.pairs }
        } else {
            p
        }
    } else if closes_ifequal(t) && p.stack.len() > 0 {
        Pairing {
            stack: p.stack.drop_last(),
            pairs: if t.bits().len() == 1 {
                p.pairs.push((p.stack.last(), i))
            } else {
                p.pairs
            },
        }
    } else {
        p
    }
}

/// The pairing after all of `tokens`.
pub open spec fn pairing(tokens: Seq<TokenView>) -> Pairing
    decreases tokens.len(),
{
    if tokens.len() == 0 {
        Pairing { stack: Seq::empty(), pairs: Seq::empty() }
    } else {
        pairing_step(pairing(tokens.drop_last()), tokens.len() - 1, tokens.last())
    }
}

/// The tokens with one pair rewritten: the opening tag becomes
/// `if <first> == <second>`, or `!=` for `ifnotequal`, and the closing tag
/// becomes `endif`.
pub open spec fn rewrite_pair(tokens: Seq<TokenView>, start: int, end: int) -> Seq<TokenView> {
    if 0 <= start < tokens.len() && 0 <= end < tokens.len() && tokens[start] is Block
        && tokens[start].bits().len() >= 3 && tokens[end] is Block {
        let b = tokens[start].bits();
        let comparison = if b[0] == "ifequal"@ {
            "=="@
        } else {
            "!="@
        };
        let opened = tokens.update(
            start,
            TokenView::Block {
                bits: seq!["if"@, b[1], comparison, b[2]],
                lineno: tokens[start].line(),
            },
        );
        opened.update(end, TokenView::Block { bits: seq!["endif"@], lineno: opened[end].line() })
    } else {
        tokens
    }
}

/// The tokens with the pairs rewritten, the last pair first.
pub open spec fn rewrite_pairs(tokens: Seq<TokenView>, pairs: Seq<(int, int)>) -> Seq<TokenView>
    decreases pairs.len(),
{
    if pairs.len() == 0 {
        tokens
    } else {
        rewrite_pairs(rewrite_pair(tokens, pairs.last().0, pairs.last().1), pairs.drop_last())
    }
}

/// The `ifequal` migration, from version 3.1.
pub open spec fn migrate_ifequal_tags_spec(
    tokens: Seq<TokenView>,
    target_version: Option<(u8, u8)>,
) -> Seq<TokenView> {
    if reaches_spec(target_version, 3, 1) {
        rewrite_pairs(tokens, pairing(tokens).pairs)
    } else {
        tokens
    }
}

/// The pairs as the model has them.
pub open spec fn pairs_view(pairs: Seq<(usize, usize)>) -> Seq<(int, int)> {
    Seq::new(pairs.len(), |k: int| (pairs[k].0 as int, pairs[k].1 as int))
}

/// The indices as the model has them.
pub open spec fn indices_view(stack: Seq<usize>) -> Seq<int> {
    Seq::new(stack.len(), |k: int| stack[k] as int)
}

/// Finds the matching pairs of `ifequal` tags.
pub fn ifequal_pairs(tokens: &Vec<Token>) -> (pairs: Vec<(usize, usize)>)
    ensures
        pairs_view(pairs@) == pairing(tokens.deep_view()).pairs,
{
    let mut stack: Vec<usize> = Vec::new();
    let mut pairs: Vec<(usize, usize)> = Vec::new();
    let ghost all = tokens.deep_view();
    let mut i: usize = 0;
    proof {
        assert(all.take(0) =~= Seq::empty());
        assert(pairs_view(pairs@) =~= Seq::empty());
        assert(indices_view(stack@) =~= Seq::empty());
    }
    while i < tokens.len()
        invariant
            i <= tokens.len(),
            all == tokens.deep_view(),
            pairs_view(pairs@) == pairing(all.take(i as int)).pairs,
            indices_view(stack@) == pairing(all.take(i as int)).stack,
        decreases tokens.len() - i,
    {
        let token: &Token = &tokens[i];
        proof {
            assert(all.take(i + 1).drop_last() =~= all.take(i as int));
            assert(all.take(i + 1).last() == token@);
        }
        let ghost held = indices_view(stack@);
        let ghost found = pairs_view(pairs@);
        if token.is_tag("ifequal") || token.is_tag("ifnotequal") {
            if token.bit_count() == 3 {
                stack.push(i);
                assert(indices_view(stack@) =~= held.push(i as int));
            }
        } else if (token.is_tag("endifequal") || token.is_tag("endifnotequal")) && stack.len()
            > 0 {
            let start: usize = stack[stack.len() - 1];
            stack.pop();
            assert(indices_view(stack@) =~= held.drop_last());
            if token.bit_count() == 1 {
                pairs.push((start, i));
                assert(pairs_view(pairs@) =~= found.push((start as int, i as int)));
            }
        }
        i += 1;
    }
    assert(all.take(tokens.len() as int) =~= all);
    pairs
}

fn rewrite_one_pair(tokens: &mut Vec<Token>, start: usize, end: usize)
    ensures
        final(tokens).deep_view() == rewrite_pair(
            old(tokens).deep_view(),
            start as int,
            end as int,
        ),
{
    if start >= tokens.len() || end >= tokens.len() {
        return ;
    }
    let opening_ok: bool = match &tokens[start] {
        Token::Block { bits, .. } => bits.len() >= 3,
        _ => false,
    };
    let closing_ok: bool = match &tokens[end] {
        Token::Block { .. } => true,
        _ => false,
    };
    if !opening_ok || !closing_ok {
        return ;
    }
    let comparison = if str_eq(tokens[start].bit(0).as_str(), "ifequal") {
        owned("==")
    } else {
        owned("!=")
    };
    let first = tokens[start].bit(1);
    let second = tokens[start].bit(2);
    let mut opening: Vec<String> = Vec::new();
    opening.push(owned("if"));
    opening.push(first);
    opening.push(comparison);
    opening.push(second);
    assert(opening.deep_view() =~= seq!["if"@, first@, comparison@, second@]);
    set_bits(tokens, start, opening);
    let mut closing: Vec<String> = Vec::new();
    closing.push(owned("endif"));
    assert(closing.deep_view() =~= seq!["endif"@]);
    set_bits(tokens, end, closing);
}

/// Rewrites matching `ifequal` and `ifnotequal` tags to `if` tags.
pub fn migrate_ifequal_tags(tokens: &mut Vec<Token>, target_version: Option<(u8, u8)>)
    ensures
        final(tokens).deep_view() == migrate_ifequal_tags_spec(
            old(tokens).deep_view(),
            target_version,
        ),
{
    if !reaches(target_version, 3, 1) {
        return ;
    }
    let ghost before = tokens.deep_view();
    let pairs = ifequal_pairs(tokens);
    let ghost found = pairs_view(pairs@);
    let mut k: usize = pairs.len();
    assert(found.take(k as int) =~= found);
    while k > 0
        invariant
            k <= pairs.len(),
            found == pairs_view(pairs@),
            rewrite_pairs(before, found) == rewrite_pairs(
                tokens.deep_view(),
                found.take(k as int),
            ),
        decreases k,
    {
        let pair: (usize, usize) = pairs[k - 1];
        proof {
            assert(found.take(k as int).drop_last() =~= found.take(k - 1));
            assert(found.take(k as int).last() == (pair.0 as int, pair.1 as int));
        }
        rewrite_one_pair(tokens, pair.0, pair.1);
        k -= 1;
    }
    assert(found.take(0) =~= Seq::empty());
}

} // verus!
