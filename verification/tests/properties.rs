//! What holds of the formatter as a whole, on chosen documents.

use djade::formatter;

const DOCUMENTS: [&str; 12] = [
    "",
    "\n\n  plain text  \n\n",
    "a {{var}} {%tag%} {#comment#}",
    "{% load z y x %}\n{% load a %}\n\n{% block h %}\n{% endblock %}\n",
    "  {% extends 'egg.html' %}\n  {% block yolk %}\n    yellow\n  {% endblock %}\n{% block white %}{% endblock white %}",
    "{% verbatim %} {{var}} {%tag%} {#comment#} {% endverbatim %}",
    "{{ egg | crack:'fully' | eat }}\r\n{{ ?egg }}\r\n",
    "{% ifequal a b %}\n{% ifnotequal b c %}\n{% endifnotequal %}\n{% endifequal %}\n",
    "{% load trans from i18n %}{% trans 'Hello' %}{% blocktrans %}x{% endblocktrans %}",
    "{% if eggs|length_is:1 %}{{ d|json_script:'' }}{% endif %}{% load staticfiles %}",
    "é {{ 'é' | f:\"ü\" }} {% if _(\"a  b\") %}\n",
    "{% %}{{ }}{# #}{%%}",
];

const VERSIONS: [Option<(u8, u8)>; 5] = [None, Some((2, 0)), Some((3, 1)), Some((4, 1)), Some((5, 2))];

#[test]
fn test_formatting_twice_changes_nothing_more() {
    for document in DOCUMENTS {
        for version in VERSIONS {
            let once = formatter::format(document, version);
            let twice = formatter::format(&once, version);
            assert_eq!(twice, once, "for {:?} and {:?}", document, version);
        }
    }
}

#[test]
fn test_formatting_twice_can_drop_a_label_that_merging_loads_made_needless() {
    let document = "{% block h %}{% load a %}\n{% load b %}{% endblock %}\n";
    let once = formatter::format(document, None);
    assert_eq!(once, "{% block h %}{% load a b %}{% endblock h %}\n");
    let twice = formatter::format(&once, None);
    assert_eq!(twice, "{% block h %}{% load a b %}{% endblock %}\n");
    assert_eq!(formatter::format(&twice, None), twice);
}

#[test]
fn test_text_without_tags_keeps_its_content() {
    for version in VERSIONS {
        assert_eq!(formatter::format("a { b } c %} #}\n", version), "a { b } c %} #}\n");
        assert_eq!(
            formatter::format("\n \n  first\n\n  second  \n\n \t", version),
            "  first\n\n  second\n"
        );
        assert_eq!(formatter::format("x", version), "x\n");
    }
}

#[test]
fn test_empty_document_becomes_one_line_break() {
    assert_eq!(formatter::format("", None), "\n");
    assert_eq!(formatter::format("", Some((5, 2))), "\n");
}

#[test]
fn test_verbatim_content_is_kept() {
    let inside = "  {{var|f :x}}\n {%  tag  %}\t{#c#} {% endverbatim x %} {% block  a %}  ";
    let document = format!("a{{% verbatim %}}{inside}{{% endverbatim %}}b\n");
    for version in VERSIONS {
        assert_eq!(formatter::format(&document, version), document);
    }
}

#[test]
fn test_verbatim_with_a_name_ends_at_its_own_end_tag() {
    let document = "{% verbatim one %}{{a}}{% endverbatim %}{{b}}{% endverbatim one %}{{c}}\n";
    assert_eq!(
        formatter::format(document, None),
        "{% verbatim one %}{{a}}{% endverbatim %}{{b}}{% endverbatim one %}{{ c }}\n"
    );
}

#[test]
fn test_verbatim_without_end_keeps_the_rest() {
    let document = "{% verbatim %}{{a}} {%b%}";
    assert_eq!(formatter::format(document, None), "{% verbatim %}{{a}} {%b%}\n");
}

#[test]
fn test_load_merge_does_not_depend_on_the_order_of_names() {
    for version in VERSIONS {
        assert_eq!(formatter::format("{% load b a %}\n", version), "{% load a b %}\n");
        assert_eq!(
            formatter::format("{% load a %}{% load b %}\n", version),
            "{% load a b %}\n"
        );
        assert_eq!(
            formatter::format("{% load b %}\n{% load a b %}\n", version),
            "{% load a b %}\n"
        );
    }
}

#[test]
fn test_endblock_label_is_dropped_on_one_line_and_added_across_lines() {
    assert_eq!(
        formatter::format("{% block h %}x{% endblock h %}\n", None),
        "{% block h %}x{% endblock %}\n"
    );
    assert_eq!(
        formatter::format("{% block h %}\n{% endblock %}\n", None),
        "{% block h %}\n{% endblock h %}\n"
    );
}

#[test]
fn test_migrations_wait_for_their_version() {
    let document = "{% ifequal a b %}\n{% endifequal %}\n";
    assert_eq!(formatter::format(document, Some((3, 0))), document);
    assert_eq!(formatter::format(document, None), document);
    assert_eq!(
        formatter::format(document, Some((3, 1))),
        "{% if a == b %}\n{% endif %}\n"
    );
}

#[test]
fn test_each_migration_has_its_own_version() {
    let document = "{% load staticfiles %}\n{% trans 'x' %}{{ d|json_script:'' }}{% if e|length_is:1 %}\n";
    assert_eq!(formatter::format(document, Some((2, 0))), document);
    assert_eq!(
        formatter::format(document, Some((2, 1))),
        "{% load static %}\n{% trans 'x' %}{{ d|json_script:'' }}{% if e|length_is:1 %}\n"
    );
    assert_eq!(
        formatter::format(document, Some((3, 1))),
        "{% load static %}\n{% translate 'x' %}{{ d|json_script:'' }}{% if e|length_is:1 %}\n"
    );
    assert_eq!(
        formatter::format(document, Some((4, 1))),
        "{% load static %}\n{% translate 'x' %}{{ d|json_script }}{% if e|length_is:1 %}\n"
    );
    assert_eq!(
        formatter::format(document, Some((4, 2))),
        "{% load static %}\n{% translate 'x' %}{{ d|json_script }}{% if e|length == 1 %}\n"
    );
}

#[test]
fn test_filter_spacing_is_normalized() {
    assert_eq!(
        formatter::format("{{ egg | crack:'fully' }}\n", None),
        "{{ egg|crack:'fully' }}\n"
    );
}

#[test]
fn test_what_does_not_parse_is_kept() {
    assert_eq!(formatter::format("{{ ?egg | crack }}\n", None), "{{ ?egg | crack }}\n");
    assert_eq!(formatter::format("{{ egg ?| crack }}\n", None), "{{ egg ?| crack }}\n");
    assert_eq!(formatter::format("{{ |foo|bar }}\n", None), "{{ |foo|bar }}\n");
}

#[test]
fn test_line_break_of_the_first_line_is_used_throughout() {
    assert_eq!(
        formatter::format("{% extends 'a' %}\r\n{% block b %}{% endblock %}\n{% block c %}{% endblock %}", None),
        "{% extends 'a' %}\r\n\r\n{% block b %}{% endblock %}\r\n\r\n{% block c %}{% endblock %}\r\n"
    );
    assert_eq!(formatter::format("a\r\nb\n", None), "a\r\nb\r\n");
    assert_eq!(formatter::format("a\nb\r\n", None), "a\nb\n");
    assert_eq!(formatter::format("a\rb", None), "a\rb\n");
}

#[test]
fn test_formatted_document_ends_with_its_line_break() {
    for document in DOCUMENTS {
        for version in VERSIONS {
            let newline = formatter::detect_newline(document);
            let formatted = formatter::format(document, version);
            assert!(formatted.ends_with(newline), "for {:?}", document);
        }
    }
}

#[test]
fn test_detect_newline_looks_at_the_first_line_only() {
    assert_eq!(formatter::detect_newline("\n\r\n"), "\n");
    assert_eq!(formatter::detect_newline("\r\n\n"), "\r\n");
    assert_eq!(formatter::detect_newline("\r"), "\n");
    assert_eq!(formatter::detect_newline("a\rb\r\n"), "\r\n");
    assert_eq!(formatter::detect_newline("no line break"), "\n");
}

#[test]
fn test_tags_without_an_interior() {
    assert_eq!(formatter::format("{%%}", None), "{%  %}\n");
    assert_eq!(formatter::format("{%%}", Some((5, 2))), "{%  %}\n");
    assert_eq!(formatter::format("{{}}{##}", None), "{{  }}{#  #}\n");
}

#[test]
fn test_text_after_the_last_tag_is_kept() {
    assert_eq!(formatter::format("{{ a }} tail", None), "{{ a }} tail\n");
}

#[test]
fn test_characters_of_more_than_one_byte() {
    assert_eq!(
        formatter::format("é {{ 'é' | f:\"ü\" }} {% if _(\"a  b\") %}\u{2003}\n", None),
        "é {{ 'é'|f:\"ü\" }} {% if _(\"a  b\") %}\n"
    );
}

#[test]
fn test_formatting_twice_can_change_the_line_break_of_mixed_documents() {
    let document = "\n a\r\nb";
    let once = formatter::format(document, None);
    assert_eq!(once, " a\r\nb\n");
    let twice = formatter::format(&once, None);
    assert_eq!(twice, " a\r\nb\r\n");
    assert_eq!(formatter::format(&twice, None), twice);
}
