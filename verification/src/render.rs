//! Rendering tokens back to text, with canonical spacing inside tags.

use crate::token::{
    Expression, Filter, FilterExpression, FilterExpressionView, FilterView, Token, TokenView,
};
use vstd::prelude::*;

verus! {

/// A filter as text: `|name`, or `|name:argument`.
pub open spec fn render_filter(f: FilterView) -> Seq<char> {
    "|"@ + f.name + match f.arg {
        Some(arg) => ":"@ + arg.value(),
        None => Seq::empty(),
    }
}

/// The filters as text, one after the other.
pub open spec fn render_filters(filters: Seq<FilterView>) -> Seq<char>
    decreases filters.len(),
{
    if filters.len() == 0 {
        Seq::empty()
    } else {
        render_filters(filters.drop_last()) + render_filter(filters.last())
    }
}

/// A filter expression as text: the base, then the filters, with no space
/// anywhere.
pub open spec fn format_variable_spec(e: FilterExpressionView) -> Seq<char> {
    e.var.value() + render_filters(e.filters)
}

/// The bits with one space between each two.
pub open spec fn join_bits(bits: Seq<Seq<char>>) -> Seq<char>
    decreases bits.len(),
{
    if bits.len() == 0 {
        Seq::empty()
    } else if bits.len() == 1 {
        bits[0]
    } else {
        join_bits(bits.drop_last()) + " "@ + bits.last()
    }
}

/// A token as text: text as it is, a tag with one space inside each
/// delimiter.
pub open spec fn render_token(t: TokenView) -> Seq<char> {
    match t {
        TokenView::Text { contents, .. } => contents,
        TokenView::Variable { filter_expression, .. } => "{{ "@ + format_variable_spec(
            filter_expression,
        ) + " }}"@,
        TokenView::Block { bits, .. } => "{% "@ + join_bits(bits) + " %}"@,
        TokenView::Comment { contents, .. } => "{# "@ + contents + " #}"@,
    }
}

/// The tokens as text, one after the other.
pub open spec fn render_spec(tokens: Seq<TokenView>) -> Seq<char>
    decreases tokens.len(),
{
    if tokens.len() == 0 {
        Seq::empty()
    } else {
        render_spec(tokens.drop_last()) + render_token(tokens.last())
    }
}

fn expression_text(e: &Expression) -> (s: &String)
    ensures
        s@ == e@.value(),
{
    match e {
        Expression::Constant(value) => value,
        Expression::Variable(value) => value,
        Expression::Unparsed(value) => value,
    }
}

/// Appends a filter expression to `result`.
pub fn format_variable(filter_expression: &FilterExpression, result: &mut String)
    ensures
        final(result)@ == old(result)@ + format_variable_spec(filter_expression@),
{
    let ghost start = result@;
    let ghost filters = filter_expression.filters.deep_view();
    result.append(expression_text(&filter_expression.var).as_str());
    let ghost based = result@;
    let mut i: usize = 0;
    proof {
        assert(filters.take(0) =~= Seq::empty());
        assert(based + Seq::<char>::empty() =~= based);
    }
    while i < filter_expression.filters.len()
        invariant
            i <= filter_expression.filters.len(),
            filters == filter_expression.filters.deep_view(),
            result@ == based + render_filters(filters.take(i as int)),
        decreases filter_expression.filters.len() - i,
    {
        let filter: &Filter = &filter_expression.filters[i];
        proof {
            assert(filters.take(i + 1).drop_last() =~= filters.take(i as int));
            assert(filters.take(i + 1).last() == filter@);
        }
        let ghost prior = result@;
        result.append("|");
        result.append(filter.name.as_str());
        match &filter.arg {
            Some(arg) => {
                result.append(":");
                result.append(expression_text(arg).as_str());
                assert(result@ =~= prior + render_filter(filter@));
            },
            None => {
                assert(result@ =~= prior + render_filter(filter@));
            },
        }
        assert(result@ =~= based + render_filters(filters.take(i + 1)));
        i += 1;
    }
    assert(filters.take(filters.len() as int) =~= filters);
    assert(result@ =~= start + format_variable_spec(filter_expression@));
}

/// Appends the bits, with one space between each two, to `result`.
pub fn join_into(bits: &Vec<String>, result: &mut String)
    ensures
        final(result)@ == old(result)@ + join_bits(bits.deep_view()),
{
    let ghost start = result@;
    let ghost all = bits.deep_view();
    let mut i: usize = 0;
    proof {
        assert(all.take(0) =~= Seq::empty());
        assert(start + Seq::<char>::empty() =~= start);
    }
    while i < bits.len()
        invariant
            i <= bits.len(),
            all == bits.deep_view(),
            result@ == start + join_bits(all.take(i as int)),
        decreases bits.len() - i,
    {
        proof {
            assert(all.take(i + 1).drop_last() =~= all.take(i as int));
            assert(all.take(i + 1).last() == bits@[i as int]@);
        }
        if i > 0 {
            result.append(" ");
        }
        result.append(bits[i].as_str());
        assert(result@ =~= start + join_bits(all.take(i + 1)));
        i += 1;
    }
    assert(all.take(bits.len() as int) =~= all);
}

/// Appends one token to `result`.
pub fn render_token_into(token: &Token, result: &mut String)
    ensures
        final(result)@ == old(result)@ + render_token(token@),
{
    let ghost start = result@;
    match token {
        Token::Text { contents, .. } => {
            result.append(contents.as_str());
        },
        Token::Variable { filter_expression, .. } => {
            result.append("{{ ");
            format_variable(filter_expression, result);
            result.append(" }}");
            assert(result@ =~= start + render_token(token@));
        },
        Token::Block { bits, .. } => {
            result.append("{% ");
            join_into(bits, result);
            result.append(" %}");
            assert(result@ =~= start + render_token(token@));
        },
        Token::Comment { contents, .. } => {
            result.append("{# ");
            result.append(contents.as_str());
            result.append(" #}");
            assert(result@ =~= start + render_token(token@));
        },
    }
}

/// Renders the tokens to text.
pub fn render(tokens: &Vec<Token>) -> (result: String)
    ensures
        result@ == render_spec(tokens.deep_view()),
{
    let mut result = String::new();
    let ghost all = tokens.deep_view();
    let mut i: usize = 0;
    assert(all.take(0) =~= Seq::empty());
    while i < tokens.len()
        invariant
            i <= tokens.len(),
            all == tokens.deep_view(),
            result@ == render_spec(all.take(i as int)),
        decreases tokens.len() - i,
    {
        proof {
            assert(all.take(i + 1).drop_last() =~= all.take(i as int));
            assert(all.take(i + 1).last() == tokens@[i as int]@);
        }
        render_token_into(&tokens[i], &mut result);
        i += 1;
    }
    assert(all.take(tokens.len() as int) =~= all);
    result
}

} // verus!
