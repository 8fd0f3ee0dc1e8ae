//! The passes, on token sequences built by hand.

use djade::blocks::{
    unindent_token, update_endblock_labels, update_top_level_block_indentation,
    update_top_level_block_spacing,
};
use djade::edges::{remove_first_match, strip_leading_blank_lines, update_leading_trailing_whitespace};
use djade::formatter;
use djade::loads::update_load_tags;
use djade::migrate::{
    ifequal_pairs, length_is_rewrite, migrate_empty_json_script, migrate_ifequal_tags,
    migrate_length_is, migrate_static_load_tags, migrate_translation_tags, reaches,
};
use djade::names::{comes_before, sorted_names};
use djade::render::render;
use djade::token::{Expression, Filter, FilterExpression, Token};

fn strings(items: &[&str]) -> Vec<String> {
    items.iter().map(|s| s.to_string()).collect()
}

fn text(contents: &str, lineno: usize) -> Token {
    Token::Text {
        contents: contents.to_string(),
        lineno,
    }
}

fn block(bits: &[&str], lineno: usize) -> Token {
    Token::Block {
        bits: strings(bits),
        lineno,
    }
}

#[test]
fn test_reaches() {
    assert!(!reaches(None, 0, 0));
    assert!(reaches(Some((4, 2)), 4, 2));
    assert!(reaches(Some((5, 0)), 4, 2));
    assert!(reaches(Some((4, 3)), 4, 2));
    assert!(!reaches(Some((4, 1)), 4, 2));
    assert!(!reaches(Some((3, 9)), 4, 2));
}

#[test]
fn test_sorted_names() {
    assert_eq!(
        sorted_names(&strings(&["b", "a", "b", "ab", "", "B", "a", "é", "z"])),
        strings(&["", "B", "a", "ab", "b", "z", "é"])
    );
    assert_eq!(sorted_names(&strings(&[])), strings(&[]));
}

#[test]
fn test_sorted_names_agrees_with_the_order_of_strings() {
    let names = strings(&["i18n", "static", "I18n", "l10n", "tz", "staticfiles", "\u{10000}", "\u{ffff}", "cache"]);
    let mut expected = names.clone();
    expected.sort_unstable();
    expected.dedup();
    assert_eq!(sorted_names(&names), expected);
}

#[test]
fn test_comes_before() {
    assert!(comes_before("a", "b"));
    assert!(comes_before("a", "ab"));
    assert!(comes_before("", "a"));
    assert!(!comes_before("a", "a"));
    assert!(!comes_before("b", "a"));
    assert!(!comes_before("", ""));
    assert!(comes_before("Z", "a"));
}

#[test]
fn test_migrations_on_a_block_without_bits() {
    let mut tokens = vec![block(&[], 1)];
    migrate_length_is(&mut tokens, Some((5, 2)));
    migrate_empty_json_script(&mut tokens, Some((5, 2)));
    migrate_translation_tags(&mut tokens, Some((5, 2)));
    migrate_ifequal_tags(&mut tokens, Some((5, 2)));
    migrate_static_load_tags(&mut tokens, Some((5, 2)));
    assert_eq!(tokens, vec![block(&[], 1)]);
}

#[test]
fn test_length_is_rewrite_of_given_matches() {
    let found = vec![vec![Some((0, 6)), Some((0, 1)), Some((5, 6))]];
    assert_eq!(length_is_rewrite("a|x:yb", &found), Some(("a".to_string(), "b".to_string())));
    let partial = vec![vec![Some((1, 6)), Some((1, 2)), Some((5, 6))]];
    assert_eq!(length_is_rewrite("a|x:yb", &partial), None);
    let one_group = vec![vec![Some((0, 6)), Some((0, 1))]];
    assert_eq!(length_is_rewrite("a|x:yb", &one_group), None);
    assert_eq!(length_is_rewrite("a|x:yb", &vec![]), None);
}

#[test]
fn test_length_is_needs_the_whole_bit() {
    let mut tokens = vec![block(&["if", "-eggs|length_is:1"], 1), block(&["if", "eggs|length_is:1"], 2)];
    migrate_length_is(&mut tokens, Some((4, 2)));
    assert_eq!(
        tokens,
        vec![
            block(&["if", "-eggs|length_is:1"], 1),
            block(&["if", "eggs|length", "==", "1"], 2),
        ]
    );
}

#[test]
fn test_json_script_only_with_an_empty_constant() {
    let filter = |arg: Option<Expression>| Filter {
        name: "json_script".to_string(),
        arg,
    };
    let expression = |filters: Vec<Filter>| Token::Variable {
        filter_expression: FilterExpression {
            var: Expression::Variable("x".to_string()),
            filters,
        },
        lineno: 1,
    };
    let mut tokens = vec![expression(vec![
        filter(Some(Expression::Constant("''".to_string()))),
        filter(Some(Expression::Variable("''".to_string()))),
        filter(Some(Expression::Constant("'a'".to_string()))),
        Filter {
            name: "other".to_string(),
            arg: Some(Expression::Constant("\"\"".to_string())),
        },
        filter(Some(Expression::Constant("\"\"".to_string()))),
    ])];
    migrate_empty_json_script(&mut tokens, Some((4, 1)));
    assert_eq!(
        tokens,
        vec![expression(vec![
            filter(None),
            filter(Some(Expression::Variable("''".to_string()))),
            filter(Some(Expression::Constant("'a'".to_string()))),
            Filter {
                name: "other".to_string(),
                arg: Some(Expression::Constant("\"\"".to_string())),
            },
            filter(None),
        ])]
    );
}

#[test]
fn test_translation_names_in_load_only_from_i18n() {
    let mut tokens = vec![
        block(&["load", "trans", "blocktrans", "x", "from", "i18n"], 1),
        block(&["load", "trans", "from", "other"], 2),
        block(&["load", "trans"], 3),
        block(&["load", "from", "i18n"], 4),
        block(&["endblocktrans"], 5),
    ];
    migrate_translation_tags(&mut tokens, Some((3, 1)));
    assert_eq!(
        tokens,
        vec![
            block(&["load", "translate", "blocktranslate", "x", "from", "i18n"], 1),
            block(&["load", "trans", "from", "other"], 2),
            block(&["load", "trans"], 3),
            block(&["load", "from", "i18n"], 4),
            block(&["endblocktranslate"], 5),
        ]
    );
}

#[test]
fn test_ifequal_pairs() {
    let tokens = vec![
        block(&["ifequal", "a", "b"], 1),
        block(&["ifnotequal", "c", "d"], 1),
        block(&["ifequal", "e"], 1),
        block(&["endifequal"], 1),
        block(&["endifnotequal", "x"], 1),
        block(&["endifequal"], 1),
    ];
    assert_eq!(ifequal_pairs(&tokens), vec![(1, 3)]);
}

#[test]
fn test_ifequal_skips_what_does_not_pair() {
    let mut tokens = vec![
        block(&["endifequal"], 1),
        block(&["ifequal", "a", "b"], 2),
        block(&["ifnotequal", "c", "d"], 3),
        block(&["endifequal"], 4),
        block(&["endifnotequal", "x"], 5),
        block(&["endifequal"], 6),
    ];
    migrate_ifequal_tags(&mut tokens, Some((3, 1)));
    assert_eq!(
        tokens,
        vec![
            block(&["endifequal"], 1),
            block(&["ifequal", "a", "b"], 2),
            block(&["if", "c", "!=", "d"], 3),
            block(&["endif"], 4),
            block(&["endifnotequal", "x"], 5),
            block(&["endifequal"], 6),
        ]
    );
}

#[test]
fn test_static_load_forms() {
    let mut tokens = vec![
        block(&["load", "admin_static", "x", "staticfiles"], 1),
        block(&["load", "admin_static", "from", "staticfiles"], 2),
        block(&["load", "admin_static", "from", "other"], 3),
        block(&["load", "from", "staticfiles"], 4),
        block(&["admin_static", "staticfiles"], 5),
    ];
    migrate_static_load_tags(&mut tokens, Some((2, 1)));
    assert_eq!(
        tokens,
        vec![
            block(&["load", "static", "x", "static"], 1),
            block(&["load", "admin_static", "from", "static"], 2),
            block(&["load", "admin_static", "from", "other"], 3),
            block(&["load", "from", "staticfiles"], 4),
            block(&["admin_static", "staticfiles"], 5),
        ]
    );
}

#[test]
fn test_strip_leading_blank_lines() {
    assert_eq!(strip_leading_blank_lines("  \n\t\n  a\n\n"), "  a\n\n");
    assert_eq!(strip_leading_blank_lines("a\n\n"), "a\n\n");
    assert_eq!(strip_leading_blank_lines("   "), "   ");
    assert_eq!(strip_leading_blank_lines("\u{a0}\n\u{3000}b"), "\u{3000}b");
}

#[test]
fn test_remove_first_match() {
    assert_eq!(remove_first_match("abcdef", &vec![vec![Some((1, 3))], vec![Some((4, 5))]]), "adef");
    assert_eq!(remove_first_match("abcdef", &vec![]), "abcdef");
    assert_eq!(remove_first_match("abc", &vec![vec![Some((0, 3))]]), "");
}

#[test]
fn test_whitespace_pass_on_no_tokens() {
    let mut tokens = vec![];
    update_leading_trailing_whitespace(&mut tokens, "\r\n");
    assert_eq!(tokens, vec![text("\r\n", 0)]);
}

#[test]
fn test_whitespace_pass_on_one_text() {
    let mut tokens = vec![text(" \n \n a \u{2003}\n ", 1)];
    update_leading_trailing_whitespace(&mut tokens, "\n");
    assert_eq!(tokens, vec![text(" a\n", 1)]);
}

#[test]
fn test_whitespace_pass_adds_a_token_after_a_tag() {
    let mut tokens = vec![text("\n\nx  ", 1), block(&["a"], 3)];
    update_leading_trailing_whitespace(&mut tokens, "\n");
    assert_eq!(tokens, vec![text("x  ", 1), block(&["a"], 3), text("\n", 0)]);
}

#[test]
fn test_load_pass_merges_a_run() {
    let mut tokens = vec![
        block(&["load", "b", "a"], 1),
        text(" \n", 1),
        block(&["load", "c", "a"], 2),
        block(&["load"], 2),
        text("\n", 2),
        text("\n", 3),
        block(&["x"], 4),
    ];
    update_load_tags(&mut tokens);
    assert_eq!(
        tokens,
        vec![
            block(&["load", "a", "b", "c"], 1),
            text("\n", 3),
            block(&["x"], 4),
        ]
    );
}

#[test]
fn test_load_pass_stops_at_from() {
    let mut tokens = vec![
        block(&["load", "b"], 1),
        text("\n", 1),
        block(&["load", "z", "a", "a", "from", "lib"], 2),
        text("\n", 2),
        block(&["load", "a"], 3),
    ];
    update_load_tags(&mut tokens);
    assert_eq!(
        tokens,
        vec![
            block(&["load", "b"], 1),
            text("\n", 1),
            block(&["load", "a", "z", "from", "lib"], 2),
            text("\n", 2),
            block(&["load", "a"], 3),
        ]
    );
}

#[test]
fn test_load_pass_at_the_end_of_the_tokens() {
    let mut tokens = vec![block(&["load", "b"], 1), text(" ", 1), block(&["load", "a"], 1)];
    update_load_tags(&mut tokens);
    assert_eq!(tokens, vec![block(&["load", "a", "b"], 1)]);
    let mut tokens = vec![block(&["load", "b"], 1), text(" ", 1)];
    update_load_tags(&mut tokens);
    assert_eq!(tokens, vec![block(&["load", "b"], 1), text(" ", 1)]);
}

#[test]
fn test_endblock_labels() {
    let mut tokens = vec![
        block(&["block", "a"], 1),
        block(&["block"], 1),
        block(&["endblock"], 2),
        block(&["endblock", "a"], 1),
        block(&["block", "b"], 3),
        block(&["endblock", "c"], 4),
        block(&["block", "d", "extra"], 5),
        block(&["endblock"], 6),
        block(&["endblock"], 7),
    ];
    update_endblock_labels(&mut tokens);
    assert_eq!(
        tokens,
        vec![
            block(&["block", "a"], 1),
            block(&["block"], 1),
            block(&["endblock"], 2),
            block(&["endblock"], 1),
            block(&["block", "b"], 3),
            block(&["endblock", "c"], 4),
            block(&["block", "d", "extra"], 5),
            block(&["endblock", "d"], 6),
            block(&["endblock"], 7),
        ]
    );
}

#[test]
fn test_endblock_with_more_arguments_closes_nothing() {
    let mut tokens = vec![
        block(&["block", "a"], 1),
        block(&["block", "b"], 2),
        block(&["endblock", "x", "y"], 3),
        block(&["endblock"], 4),
        block(&["endblock"], 5),
    ];
    update_endblock_labels(&mut tokens);
    assert_eq!(
        tokens,
        vec![
            block(&["block", "a"], 1),
            block(&["block", "b"], 2),
            block(&["endblock", "x", "y"], 3),
            block(&["endblock", "b"], 4),
            block(&["endblock", "a"], 5),
        ]
    );
}

#[test]
fn test_unindent_token() {
    let mut tokens = vec![text("a \n \t ", 1), block(&["x"], 2), text(" ", 2)];
    unindent_token(&mut tokens, 1);
    assert_eq!(tokens, vec![text("a \n", 1), block(&["x"], 2), text(" ", 2)]);
    unindent_token(&mut tokens, 0);
    unindent_token(&mut tokens, 2);
    unindent_token(&mut tokens, 4);
    assert_eq!(tokens, vec![text("a \n", 1), block(&["x"], 2), text(" ", 2)]);
    unindent_token(&mut tokens, 3);
    assert_eq!(tokens, vec![text("a \n", 1), block(&["x"], 2), text("", 2)]);
}

#[test]
fn test_indentation_only_at_the_top_level_and_after_extends() {
    let mut tokens = vec![
        text(" ", 1),
        block(&["block", "early"], 1),
        text(" ", 1),
        block(&["endblock"], 1),
        text(" ", 1),
        block(&["extends", "'a'"], 1),
        text("\n ", 1),
        block(&["block", "outer"], 2),
        text("\n ", 2),
        block(&["block", "inner"], 3),
        text("\n ", 3),
        block(&["endblock"], 4),
        text("\n ", 4),
        block(&["endblock"], 5),
    ];
    update_top_level_block_indentation(&mut tokens);
    assert_eq!(
        tokens,
        vec![
            text(" ", 1),
            block(&["block", "early"], 1),
            text(" ", 1),
            block(&["endblock"], 1),
            text("", 1),
            block(&["extends", "'a'"], 1),
            text("\n", 1),
            block(&["block", "outer"], 2),
            text("\n ", 2),
            block(&["block", "inner"], 3),
            text("\n ", 3),
            block(&["endblock"], 4),
            text("\n", 4),
            block(&["endblock"], 5),
        ]
    );
}

#[test]
fn test_spacing_right_after_extends() {
    let mut tokens = vec![block(&["extends", "'a'"], 1), block(&["block", "b"], 1), block(&["endblock"], 1)];
    let before = tokens.clone();
    update_top_level_block_spacing(&mut tokens, "\n");
    assert_eq!(tokens, before);
}

#[test]
fn test_spacing_between_top_level_blocks() {
    let mut tokens = vec![
        block(&["extends", "'a'"], 1),
        text(" ", 1),
        block(&["block", "b"], 1),
        text("\n", 1),
        block(&["block", "c"], 2),
        block(&["endblock"], 2),
        text(" ", 2),
        block(&["endblock"], 2),
        text("\n\n\n", 2),
        block(&["block", "d"], 5),
        block(&["endblock"], 5),
        text("x", 5),
        block(&["block", "e"], 5),
    ];
    update_top_level_block_spacing(&mut tokens, "\r\n");
    assert_eq!(
        tokens,
        vec![
            block(&["extends", "'a'"], 1),
            text("\r\n\r\n", 1),
            block(&["block", "b"], 1),
            text("\n", 1),
            block(&["block", "c"], 2),
            block(&["endblock"], 2),
            text(" ", 2),
            block(&["endblock"], 2),
            text("\r\n\r\n", 2),
            block(&["block", "d"], 5),
            block(&["endblock"], 5),
            text("x", 5),
            block(&["block", "e"], 5),
        ]
    );
}

#[test]
fn test_render() {
    let tokens = vec![
        text("a ", 1),
        Token::Variable {
            filter_expression: FilterExpression {
                var: Expression::Constant("'x'".to_string()),
                filters: vec![
                    Filter {
                        name: "f".to_string(),
                        arg: None,
                    },
                    Filter {
                        name: "g".to_string(),
                        arg: Some(Expression::Variable("y".to_string())),
                    },
                ],
            },
            lineno: 1,
        },
        block(&["if", "a", "==", "'b  c'"], 1),
        block(&[], 1),
        block(&["x"], 1),
        Token::Comment {
            contents: "note".to_string(),
            lineno: 1,
        },
    ];
    assert_eq!(
        render(&tokens),
        "a {{ 'x'|f|g:y }}{% if a == 'b  c' %}{%  %}{% x %}{# note #}"
    );
    assert_eq!(render(&vec![]), "");
}

#[test]
fn test_format_tokens_runs_every_pass() {
    let mut tokens = vec![
        text("\n", 1),
        block(&["load", "staticfiles"], 2),
        block(&["load", "a"], 2),
        block(&["trans", "'x'"], 2),
    ];
    formatter::format_tokens(&mut tokens, "\n", Some((3, 1)));
    assert_eq!(
        tokens,
        vec![
            text("", 1),
            block(&["load", "a", "static"], 2),
            block(&["translate", "'x'"], 2),
            text("\n", 0),
        ]
    );
}
