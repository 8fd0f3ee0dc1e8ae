//! The lexer and its two helpers, on their own.

use djade::bits::{merge_translations, smart_split, split_contents};
use djade::filter::{lex_filter_expression, parse_filter_expression};
use djade::lexer::{create_token, lex, lex_spans};
use djade::pattern::{find_captures, find_spans};
use djade::token::{Expression, Filter, FilterExpression, Token};

fn strings(items: &[&str]) -> Vec<String> {
    items.iter().map(|s| s.to_string()).collect()
}

fn text(contents: &str, lineno: usize) -> Token {
    Token::Text {
        contents: contents.to_string(),
        lineno,
    }
}

fn block(bits: &[&str], lineno: usize) -> Token {
    Token::Block {
        bits: strings(bits),
        lineno,
    }
}

fn variable(name: &str) -> FilterExpression {
    FilterExpression {
        var: Expression::Variable(name.to_string()),
        filters: vec![],
    }
}

fn unparsed(text: &str) -> FilterExpression {
    FilterExpression {
        var: Expression::Unparsed(text.to_string()),
        filters: vec![],
    }
}

#[test]
fn test_find_spans_gives_byte_offsets() {
    assert_eq!(find_spans("b+", "abba b"), vec![(1, 3), (5, 6)]);
    assert_eq!(find_spans("é", "aéé"), vec![(1, 3), (3, 5)]);
    assert_eq!(find_spans("x", "abc"), vec![]);
}

#[test]
fn test_find_spans_of_a_pattern_that_does_not_compile() {
    assert_eq!(find_spans("(", "((("), vec![]);
    assert_eq!(find_captures("[", "[[[").len(), 0);
}

#[test]
fn test_find_captures_gives_every_group() {
    let found = find_captures("(a)|(b)", "ab");
    assert_eq!(
        found,
        vec![
            vec![Some((0, 1)), Some((0, 1)), None],
            vec![Some((1, 2)), None, Some((1, 2))],
        ]
    );
}

#[test]
fn test_smart_split_keeps_quoted_strings_whole() {
    assert_eq!(
        smart_split("if breakfast  ==  'egg  mcmuffin'"),
        strings(&["if", "breakfast", "==", "'egg  mcmuffin'"])
    );
    assert_eq!(
        smart_split(r#"a "b \" c" d='e f'g"#),
        strings(&["a", r#""b \" c""#, "d='e f'g"])
    );
    assert_eq!(smart_split(""), strings(&[]));
    assert_eq!(smart_split("   "), strings(&[]));
}

#[test]
fn test_smart_split_cuts_a_translated_literal() {
    assert_eq!(
        smart_split(r#"trans _("a b") c"#),
        strings(&["trans", r#"_("a b")"#, "c"])
    );
    assert_eq!(
        smart_split("_('a' + 'b c') d"),
        strings(&["_('a'", "+", "'b c')", "d"])
    );
}

#[test]
fn test_merge_translations_joins_up_to_the_closing_quote() {
    assert_eq!(
        merge_translations(&strings(&["_('a'", "+", "'b c')", "d"])),
        strings(&["_('a' + 'b c')", "d"])
    );
    assert_eq!(
        merge_translations(&strings(&["x", "_(\"a", "b", "c\")", "_('d", "e')"])),
        strings(&["x", "_(\"a b c\")", "_('d e')"])
    );
}

#[test]
fn test_merge_translations_without_a_closing_quote_takes_the_rest() {
    assert_eq!(
        merge_translations(&strings(&["x", "_('a", "b", "c"])),
        strings(&["x", "_('a b c"])
    );
}

#[test]
fn test_merge_translations_needs_the_same_quote_to_close() {
    assert_eq!(
        merge_translations(&strings(&["_('a", "b\")", "c')", "d"])),
        strings(&["_('a b\") c')", "d"])
    );
}

#[test]
fn test_merge_translations_leaves_other_words() {
    assert_eq!(
        merge_translations(&strings(&["_(", "_(x", "_", "_('a')", "'b')"])),
        strings(&["_(", "_(x", "_", "_('a')", "'b')"])
    );
    assert_eq!(merge_translations(&strings(&[])), strings(&[]));
}

#[test]
fn test_split_contents() {
    assert_eq!(
        split_contents("if breakfast == _('egg  mcmuffin')"),
        strings(&["if", "breakfast", "==", "_('egg  mcmuffin')"])
    );
    assert_eq!(
        split_contents("trans _('a' 'b c') as x"),
        strings(&["trans", "_('a' 'b c')", "as", "x"])
    );
}

#[test]
fn test_lex_filter_expression_terms() {
    assert_eq!(lex_filter_expression("egg"), variable("egg"));
    assert_eq!(lex_filter_expression("egg.shell"), variable("egg.shell"));
    assert_eq!(lex_filter_expression("-1.23"), variable("-1.23"));
    assert_eq!(
        lex_filter_expression("_(\"egg\")"),
        FilterExpression {
            var: Expression::Constant("_(\"egg\")".to_string()),
            filters: vec![],
        }
    );
}

#[test]
fn test_lex_filter_expression_filters() {
    assert_eq!(
        lex_filter_expression("egg | crack:'fully' |eat:spoon|smile"),
        FilterExpression {
            var: Expression::Variable("egg".to_string()),
            filters: vec![
                Filter {
                    name: "crack".to_string(),
                    arg: Some(Expression::Constant("'fully'".to_string())),
                },
                Filter {
                    name: "eat".to_string(),
                    arg: Some(Expression::Variable("spoon".to_string())),
                },
                Filter {
                    name: "smile".to_string(),
                    arg: None,
                },
            ],
        }
    );
}

#[test]
fn test_lex_filter_expression_falls_back_on_any_gap() {
    assert_eq!(lex_filter_expression(""), unparsed(""));
    assert_eq!(lex_filter_expression("?egg | crack"), unparsed("?egg | crack"));
    assert_eq!(lex_filter_expression("egg | crack?"), unparsed("egg | crack?"));
    assert_eq!(lex_filter_expression("egg ?| crack"), unparsed("egg ?| crack"));
    assert_eq!(
        lex_filter_expression("egg|crack ?|eat"),
        unparsed("egg|crack ?|eat")
    );
    assert_eq!(lex_filter_expression("egg|crack: 1"), unparsed("egg|crack: 1"));
}

#[test]
fn test_lex_filter_expression_needs_a_leading_term() {
    assert_eq!(lex_filter_expression("|foo"), unparsed("|foo"));
    assert_eq!(lex_filter_expression("|foo|bar"), unparsed("|foo|bar"));
}

#[test]
fn test_parse_filter_expression_of_given_terms() {
    let with_filter = vec![
        vec![Some((0, 1)), None, Some((0, 1)), None, None, None],
        vec![Some((1, 3)), None, None, Some((2, 3)), None, None],
    ];
    assert_eq!(
        parse_filter_expression("a|b", &with_filter),
        FilterExpression {
            var: Expression::Variable("a".to_string()),
            filters: vec![Filter {
                name: "b".to_string(),
                arg: None,
            }],
        }
    );
    let short = vec![vec![Some((0, 1)), None, Some((0, 1)), None, None, None]];
    assert_eq!(parse_filter_expression("a|b", &short), unparsed("a|b"));
    let late = vec![vec![Some((1, 3)), None, None, Some((2, 3)), None, None]];
    assert_eq!(parse_filter_expression("a|b", &late), unparsed("a|b"));
    let no_name = vec![
        vec![Some((0, 1)), None, Some((0, 1))],
        vec![Some((1, 3))],
    ];
    assert_eq!(parse_filter_expression("a|b", &no_name), unparsed("a|b"));
    assert_eq!(parse_filter_expression("a|b", &vec![]), unparsed("a|b"));
}

#[test]
fn test_create_token_outside_a_tag_is_text() {
    let mut verbatim = None;
    assert_eq!(
        create_token("{% x %}", 3, false, &mut verbatim),
        text("{% x %}", 3)
    );
    assert_eq!(verbatim, None);
}

#[test]
fn test_create_token_kinds() {
    let mut verbatim = None;
    assert_eq!(
        create_token("{%  if  x %}", 1, true, &mut verbatim),
        block(&["if", "x"], 1)
    );
    assert_eq!(
        create_token("{{x}}", 2, true, &mut verbatim),
        Token::Variable {
            filter_expression: variable("x"),
            lineno: 2,
        }
    );
    assert_eq!(
        create_token("{#  a  b #}", 4, true, &mut verbatim),
        Token::Comment {
            contents: "a  b".to_string(),
            lineno: 4,
        }
    );
    assert_eq!(verbatim, None);
}

#[test]
fn test_create_token_verbatim_mode() {
    let mut verbatim = None;
    assert_eq!(
        create_token("{% verbatim myblock %}", 1, true, &mut verbatim),
        block(&["verbatim", "myblock"], 1)
    );
    assert_eq!(verbatim, Some("endverbatim myblock".to_string()));
    assert_eq!(
        create_token("{% endverbatim %}", 1, true, &mut verbatim),
        text("{% endverbatim %}", 1)
    );
    assert_eq!(
        create_token("{{ x }}", 1, true, &mut verbatim),
        text("{{ x }}", 1)
    );
    assert_eq!(
        create_token("{#c#}", 1, true, &mut verbatim),
        text("{#c#}", 1)
    );
    assert_eq!(verbatim, Some("endverbatim myblock".to_string()));
    assert_eq!(
        create_token("{%endverbatim myblock%}", 2, true, &mut verbatim),
        block(&["endverbatim", "myblock"], 2)
    );
    assert_eq!(verbatim, None);
}

#[test]
fn test_create_token_of_a_piece_without_delimiters() {
    let mut verbatim = None;
    assert_eq!(create_token("{%}", 1, true, &mut verbatim), block(&[], 1));
    assert_eq!(
        create_token("ab", 1, true, &mut verbatim),
        Token::Comment {
            contents: "".to_string(),
            lineno: 1,
        }
    );
}

#[test]
fn test_lex_counts_lines() {
    assert_eq!(
        lex("a\n{% b c %}\n\n{{ d }}e"),
        vec![
            text("a\n", 1),
            block(&["b", "c"], 2),
            text("\n\n", 2),
            Token::Variable {
                filter_expression: variable("d"),
                lineno: 4,
            },
            text("e", 4),
        ]
    );
}

#[test]
fn test_lex_finds_no_tag_across_lines() {
    assert_eq!(lex("{% b\nc %}"), vec![text("{% b\nc %}", 1)]);
}

#[test]
fn test_lex_takes_the_nearest_closing_delimiter() {
    assert_eq!(
        lex("{% a %} %}{{ b }}"),
        vec![
            block(&["a"], 1),
            text(" %}", 1),
            Token::Variable {
                filter_expression: variable("b"),
                lineno: 1,
            },
        ]
    );
}

#[test]
fn test_lex_of_nothing_and_of_text() {
    assert_eq!(lex(""), vec![]);
    assert_eq!(lex("{% no end"), vec![text("{% no end", 1)]);
}

#[test]
fn test_lex_spans_cuts_where_it_is_told() {
    assert_eq!(
        lex_spans("é{{x}}é", &vec![(2, 7)]),
        vec![
            text("é", 1),
            Token::Variable {
                filter_expression: variable("x"),
                lineno: 1,
            },
            text("é", 1),
        ]
    );
    assert_eq!(lex_spans("abc", &vec![]), vec![text("abc", 1)]);
    assert_eq!(
        lex_spans("{%a%}{%b%}", &vec![(0, 5), (5, 10)]),
        vec![block(&["a"], 1), block(&["b"], 1)]
    );
}
