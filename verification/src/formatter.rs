//! The formatter: lex, migrate, tidy, render.

use crate::blocks::{
    update_endblock_labels, update_endblock_labels_spec, update_top_level_block_indentation,
    update_top_level_block_indentation_spec, update_top_level_block_spacing,
    update_top_level_block_spacing_spec,
};
use crate::edges::{update_leading_trailing_whitespace, update_leading_trailing_whitespace_spec};
use crate::laws::lemma_format_ends_with_newline;
use crate::lexer::{lex, lex_spec};
use crate::loads::{update_load_tags, update_load_tags_spec};
use crate::migrate::{
    migrate_empty_json_script, migrate_empty_json_script_spec, migrate_ifequal_tags,
    migrate_ifequal_tags_spec, migrate_length_is, migrate_length_is_spec, migrate_static_load_tags,
    migrate_static_load_tags_spec, migrate_translation_tags, migrate_translation_tags_spec,
};
use crate::render::{render, render_spec};
use crate::text::chars_of;
use crate::token::{Token, TokenView};
use vstd::prelude::*;

verus! {

/// The index of the first line feed in `s`; the length of `s` if it has none.
pub open spec fn first_line_feed(s: Seq<char>) -> nat
    decreases s.len(),
{
    if s.len() == 0 || s[0] == '\n' {
        0
    } else {
        1 + first_line_feed(s.drop_first())
    }
}

/// Whether the first line of `content` ends with a carriage return and a line
/// feed.
pub open spec fn first_line_ends_crlf(content: Seq<char>) -> bool {
    let i = first_line_feed(content);
    0 < i < content.len() && content[i - 1] == '\r'
}

/// The line break of a document: `\r\n` if its first line ends so, else `\n`.
pub open spec fn detect_newline_spec(content: Seq<char>) -> Seq<char> {
    if first_line_ends_crlf(content) {
        "\r\n"@
    } else {
        "\n"@
    }
}

/// The migrations, in their order.
pub open spec fn migrate_spec(
    tokens: Seq<TokenView>,
    target_version: Option<(u8, u8)>,
) -> Seq<TokenView> {
    migrate_static_load_tags_spec(
        migrate_ifequal_tags_spec(
            migrate_translation_tags_spec(
                migrate_empty_json_script_spec(
                    migrate_length_is_spec(tokens, target_version),
                    target_version,
                ),
                target_version,
            ),
            target_version,
        ),
        target_version,
    )
}

/// The formatting passes, in their order.
pub open spec fn tidy_spec(tokens: Seq<TokenView>, newline: Seq<char>) -> Seq<TokenView> {
    update_top_level_block_spacing_spec(
        update_top_level_block_indentation_spec(
            update_endblock_labels_spec(
                update_load_tags_spec(update_leading_trailing_whitespace_spec(tokens, newline)),
            ),
        ),
        newline,
    )
}

/// The tokens of a formatted document.
pub open spec fn format_tokens_spec(
    tokens: Seq<TokenView>,
    newline: Seq<char>,
    target_version: Option<(u8, u8)>,
) -> Seq<TokenView> {
    tidy_spec(migrate_spec(tokens, target_version), newline)
}

/// The formatted document: its tokens, migrated for the target version and
/// tidied with the document's own line break, as text.
pub open spec fn format_spec(content: Seq<char>, target_version: Option<(u8, u8)>) -> Seq<char> {
    render_spec(format_tokens_spec(lex_spec(content), detect_newline_spec(content), target_version))
}

/// Detects the line break that a document uses.
pub fn detect_newline(content: &str) -> (newline: &'static str)
    ensures
        newline@ == detect_newline_spec(content@),
{
    let cs = chars_of(content);
    let mut i: usize = 0;
    assert(cs@.skip(0) =~= cs@);
    while i < cs.len() && cs[i] != '\n'
        invariant
            i <= cs.len(),
            first_line_feed(cs@) == i + first_line_feed(cs@.skip(i as int)),
        decreases cs.len() - i,
    {
        assert(cs@.skip(i as int).drop_first() =~= cs@.skip(i + 1));
        i += 1;
    }
    if 0 < i && i < cs.len() && cs[i - 1] == '\r' {
        "\r\n"
    } else {
        "\n"
    }
}

/// Runs the migrations and the formatting passes over the tokens.
pub fn format_tokens(tokens: &mut Vec<Token>, newline: &str, target_version: Option<(u8, u8)>)
    ensures
        final(tokens).deep_view() == format_tokens_spec(
            old(tokens).deep_view(),
            newline@,
            target_version,
        ),
{
    migrate_length_is(tokens, target_version);
    migrate_empty_json_script(tokens, target_version);
    migrate_translation_tags(tokens, target_version);
    migrate_ifequal_tags(tokens, target_version);
    migrate_static_load_tags(tokens, target_version);
    update_leading_trailing_whitespace(tokens, newline);
    update_load_tags(tokens);
    update_endblock_labels(tokens);
    update_top_level_block_indentation(tokens);
    update_top_level_block_spacing(tokens, newline);
}

/// Formats a template: lexes it, migrates it to the target version, if one
/// is given, tidies it and renders it. The result ends with the line break of
/// the document.
pub fn format(content: &str, target_version: Option<(u8, u8)>) -> (formatted: String)
    requires
        content@.len() < usize::MAX,
    ensures
        formatted@ == format_spec(content@, target_version),
        detect_newline_spec(content@).is_suffix_of(formatted@),
{
    proof {
        lemma_format_ends_with_newline(content@, target_version);
    }
    let newline = detect_newline(content);
    let mut tokens = lex(content);
    format_tokens(&mut tokens, newline, target_version);
    render(&tokens)
}

} // verus!
