//! Parsing the interior of a variable tag: a leading term and the filters
//! applied to it.
//!
//! The pattern matcher finds the terms; this module checks that they cover the
//! interior without a gap and builds the expression. Whatever does not parse
//! is kept as it was written.

use crate::pattern::{
    captures_of, end, end_of, find_captures, group, group_at, groups_view, matches_ok, span_text,
    start, start_of, Groups, Span,
};
use crate::text::{byte_len, byte_slice, cut, owned, span_ok};
use crate::token::{
    Expression, ExpressionView, Filter, FilterExpression, FilterExpressionView, FilterView,
};
use vstd::prelude::*;
use vstd::string::StringSliceAdditionalSpecFns;

verus! {

/// One term of a filter expression. A match is either the leading term, which
/// is anchored at the start (group 1: a quoted constant, possibly wrapped in
/// `_( )`; group 2: a variable or a number), or a filter: a `|`, the filter's
/// name (group 3) and, after a `:`, its argument (group 4: a constant;
/// group 5: a variable or a number).
pub const TERM_PATTERN: &'static str =
    r#"(?x)
        ^(?P<constant>
            (?:_\("[^"\\]*(?:\\.[^"\\]*)*"\)|
               _\('[^'\\]*(?:\\.[^'\\]*)*'\)|
               "[^"\\]*(?:\\.[^"\\]*)*"|
               '[^'\\]*(?:\\.[^'\\]*)*')
        )|
        ^(?P<var>[\w\.]+|[-+.]?\d[\d.e]*)|
         (?:\s*\|\s*
             (?P<filter_name>\w+)
                 (?::
                     (?:
                      (?P<constant_arg>
                        (?:_\("[^"\\]*(?:\\.[^"\\]*)*"\)|
                           _\('[^'\\]*(?:\\.[^'\\]*)*'\)|
                           "[^"\\]*(?:\\.[^"\\]*)*"|
                           '[^'\\]*(?:\\.[^'\\]*)*')
                      )|
                      (?P<var_arg>[\w\.]+|[-+.]?\d[\d.e]*)
                     )
                 )?
         )"#;

/// The constant or variable that a match holds in the groups `constant` and
/// `variable`, the constant first.
pub open spec fn term_at(
    text: Seq<char>,
    m: Seq<Option<Span>>,
    constant: int,
    variable: int,
) -> Option<ExpressionView> {
    match group_at(m, constant) {
        Some(sp) => Some(ExpressionView::Constant(span_text(text, sp))),
        None => match group_at(m, variable) {
            Some(sp) => Some(ExpressionView::Variable(span_text(text, sp))),
            None => None,
        },
    }
}

/// The leading term that a match holds, if any.
pub open spec fn leading_term(text: Seq<char>, m: Seq<Option<Span>>) -> Option<ExpressionView> {
    term_at(text, m, 1, 2)
}

/// The filter that a match holds, if any.
pub open spec fn filter_at(text: Seq<char>, m: Seq<Option<Span>>) -> Option<FilterView> {
    match group_at(m, 3) {
        Some(sp) => Some(FilterView { name: span_text(text, sp), arg: term_at(text, m, 4, 5) }),
        None => None,
    }
}

/// The matches cover the text from its first byte to its last, each starting
/// where the one before ended.
pub open spec fn tiles(text: Seq<char>, ms: Seq<Seq<Option<Span>>>) -> bool {
    &&& ms.len() >= 1
    &&& start_of(ms[0]) == 0
    &&& forall|i: int| 0 <= i < ms.len() - 1 ==> end_of(#[trigger] ms[i]) == start_of(ms[i + 1])
    &&& end_of(ms[ms.len() - 1]) == byte_len(text)
}

/// The matches spell a filter expression: they cover the text, the first is a
/// leading term and every other one is a filter.
pub open spec fn well_formed(text: Seq<char>, ms: Seq<Seq<Option<Span>>>) -> bool {
    &&& tiles(text, ms)
    &&& leading_term(text, ms[0]) is Some
    &&& forall|i: int| 1 <= i < ms.len() ==> filter_at(text, #[trigger] ms[i]) is Some
}

/// The expression that stands for text that did not parse.
pub open spec fn unparsed(text: Seq<char>) -> FilterExpressionView {
    FilterExpressionView { var: ExpressionView::Unparsed(text), filters: Seq::empty() }
}

/// The filter expression that `text` holds, given the terms that were found
/// in it: the leading term with the filters in their order, or, where the
/// terms do not spell an expression, the text unparsed and without filters.
pub open spec fn parse_spec(text: Seq<char>, ms: Seq<Seq<Option<Span>>>) -> FilterExpressionView {
    if well_formed(text, ms) {
        FilterExpressionView {
            var: leading_term(text, ms[0])->0,
            filters: Seq::new((ms.len() - 1) as nat, |i: int| filter_at(text, ms[i + 1])->0),
        }
    } else {
        unparsed(text)
    }
}

/// The filter expression that `text` holds.
pub open spec fn lex_filter_expression_spec(text: Seq<char>) -> FilterExpressionView {
    parse_spec(text, captures_of(TERM_PATTERN@, text))
}

fn span_string(text: &str, sp: Span) -> (s: String)
    requires
        span_ok(text@, sp.0 as int, sp.1 as int),
    ensures
        s@ == span_text(text@, sp),
{
    owned(cut(text, sp.0, sp.1))
}

fn term(text: &str, m: &Groups, constant: usize, variable: usize) -> (e: Option<Expression>)
    requires
        forall|k: int|
            0 <= k < m@.len() ==> (#[trigger] m@[k] matches Some(sp) ==> span_ok(
                text@,
                sp.0 as int,
                sp.1 as int,
            )),
    ensures
        match e {
            Some(e) => term_at(text@, m@, constant as int, variable as int) == Some(e@),
            None => term_at(text@, m@, constant as int, variable as int) is None,
        },
{
    match group(m, constant) {
        Some(sp) => Some(Expression::Constant(span_string(text, sp))),
        None => match group(m, variable) {
            Some(sp) => Some(Expression::Variable(span_string(text, sp))),
            None => None,
        },
    }
}

fn unparsed_expression(text: &str) -> (e: FilterExpression)
    ensures
        e@ == unparsed(text@),
{
    let filters: Vec<Filter> = Vec::new();
    let e = FilterExpression { var: Expression::Unparsed(owned(text)), filters };
    assert(e.filters.deep_view() =~= Seq::empty());
    e
}

/// Builds the filter expression of `text` from the terms found in it.
pub fn parse_filter_expression(text: &str, ms: &Vec<Groups>) -> (e: FilterExpression)
    requires
        matches_ok(text@, groups_view(ms@)),
    ensures
        e@ == parse_spec(text@, groups_view(ms@)),
{
    let ghost gv = groups_view(ms@);
    if ms.len() == 0 {
        return unparsed_expression(text);
    }
    assert(gv[0] == ms@[0]@);
    if start(&ms[0]) != 0 {
        return unparsed_expression(text);
    }
    assert forall|k: int| 0 <= k < ms@[0]@.len() implies (#[trigger] ms@[0]@[k] matches Some(sp)
        ==> span_ok(text@, sp.0 as int, sp.1 as int)) by {
        assert(gv[0][k] == ms@[0]@[k]);
    }
    let var: Expression = match term(text, &ms[0], 1, 2) {
        Some(e) => e,
        None => {
            return unparsed_expression(text);
        },
    };
    let mut filters: Vec<Filter> = Vec::new();
    let mut upto: usize = end(&ms[0]);
    let mut i: usize = 1;
    while i < ms.len()
        invariant
            1 <= i <= ms.len(),
            gv == groups_view(ms@),
            matches_ok(text@, gv),
            start_of(gv[0]) == 0,
            leading_term(text@, gv[0]) == Some(var@),
            forall|j: int| 0 <= j < i - 1 ==> end_of(#[trigger] gv[j]) == start_of(gv[j + 1]),
            upto == end_of(gv[i - 1]),
            forall|j: int| 1 <= j < i ==> filter_at(text@, #[trigger] gv[j]) is Some,
            filters.deep_view() == Seq::new(
                (i - 1) as nat,
                |j: int| filter_at(text@, gv[j + 1])->0,
            ),
        decreases ms.len() - i,
    {
        let m: &Groups = &ms[i];
        assert(gv[i as int] == m@);
        assert forall|k: int| 0 <= k < m@.len() implies (#[trigger] m@[k] matches Some(sp)
            ==> span_ok(text@, sp.0 as int, sp.1 as int)) by {
            assert(gv[i as int][k] == m@[k]);
        }
        if start(m) != upto {
            assert(end_of(gv[i - 1]) != start_of(gv[i - 1 + 1]));
            return unparsed_expression(text);
        }
        let name: String = match group(m, 3) {
            Some(sp) => {
                assert(m@[3] == Some(sp));
                span_string(text, sp)
            },
            None => {
                assert(filter_at(text@, gv[i as int]) is None);
                return unparsed_expression(text);
            },
        };
        let arg = term(text, m, 4, 5);
        let filter = Filter { name, arg };
        assert(Some(filter@) == filter_at(text@, gv[i as int]));
        let ghost before = filters.deep_view();
        filters.push(filter);
        assert(filters.deep_view() =~= before.push(filter@));
        assert(filters.deep_view() =~= Seq::new(
            i as nat,
            |j: int| filter_at(text@, gv[j + 1])->0,
        ));
        upto = end(m);
        i += 1;
    }
    if upto != text.as_bytes().len() {
        assert(end_of(gv[gv.len() - 1]) != byte_len(text@));
        return unparsed_expression(text);
    }
    assert(well_formed(text@, gv));
    FilterExpression { var, filters }
}

/// Parses the interior of a variable tag.
pub fn lex_filter_expression(expr: &str) -> (e: FilterExpression)
    ensures
        e@ == lex_filter_expression_spec(expr@),
{
    let ms = find_captures(TERM_PATTERN, expr);
    parse_filter_expression(expr, &ms)
}

} // verus!
