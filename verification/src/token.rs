//! The token stream: what the lexer produces, the passes rewrite and the
//! renderer consumes. Each type has a mathematical model, its view, in which
//! strings are `Seq<char>` and vectors are `Seq`.

use vstd::prelude::*;

verus! {

/// The base of a filter expression, or the argument of a filter.
#[derive(Debug, Clone, PartialEq, Eq)]
pub enum Expression {
    /// A quoted literal, possibly wrapped in a translation call.
    Constant(String),
    /// A dotted path or a number.
    Variable(String),
    /// Text that did not parse, kept as it was written.
    Unparsed(String),
}

/// One filter application: `|name` or `|name:arg`.
#[derive(Debug, Clone, PartialEq, Eq)]
pub struct Filter {
    pub name: String,
    pub arg: Option<Expression>,
}

/// The interior of a variable tag: a base and the filters applied to it.
#[derive(Debug, Clone, PartialEq, Eq)]
pub struct FilterExpression {
    pub var: Expression,
    pub filters: Vec<Filter>,
}

/// One piece of a template.
#[derive(Debug, Clone, PartialEq, Eq)]
pub enum Token {
    /// Literal text.
    Text { contents: String, lineno: usize },
    /// A `{{ ... }}` tag.
    Variable { filter_expression: FilterExpression, lineno: usize },
    /// A `{% ... %}` tag; `bits[0]` is the tag's name.
    Block { bits: Vec<String>, lineno: usize },
    /// A `{# ... #}` tag.
    Comment { contents: String, lineno: usize },
}

/// The model of an [`Expression`].
pub enum ExpressionView {
    Constant(Seq<char>),
    Variable(Seq<char>),
    Unparsed(Seq<char>),
}

/// The model of a [`Filter`].
pub struct FilterView {
    pub name: Seq<char>,
    pub arg: Option<ExpressionView>,
}

/// The model of a [`FilterExpression`].
pub struct FilterExpressionView {
    pub var: ExpressionView,
    pub filters: Seq<FilterView>,
}

/// The model of a [`Token`].
pub enum TokenView {
    Text { contents: Seq<char>, lineno: nat },
    Variable { filter_expression: FilterExpressionView, lineno: nat },
    Block { bits: Seq<Seq<char>>, lineno: nat },
    Comment { contents: Seq<char>, lineno: nat },
}

impl ExpressionView {
    /// The text of the expression, whatever its kind.
    pub open spec fn value(self) -> Seq<char> {
        match self {
            ExpressionView::Constant(s) => s,
            ExpressionView::Variable(s) => s,
            ExpressionView::Unparsed(s) => s,
        }
    }
}

impl TokenView {
    /// The line on which the token starts.
    pub open spec fn line(self) -> nat {
        match self {
            TokenView::Text { lineno, .. } => lineno,
            TokenView::Variable { lineno, .. } => lineno,
            TokenView::Block { lineno, .. } => lineno,
            TokenView::Comment { lineno, .. } => lineno,
        }
    }

    /// Whether the token is a block tag named `name`.
    pub open spec fn is_tag(self, name: Seq<char>) -> bool {
        self matches TokenView::Block { bits, .. } && bits.len() > 0 && bits[0] == name
    }

    /// Whether the token is text made of whitespace only.
    pub open spec fn is_blank_text(self) -> bool {
        self matches TokenView::Text { contents, .. } && crate::text::is_blank(contents)
    }
}

impl View for Expression {
    type V = ExpressionView;

    open spec fn view(&self) -> ExpressionView {
        match self {
            Expression::Constant(s) => ExpressionView::Constant(s@),
            Expression::Variable(s) => ExpressionView::Variable(s@),
            Expression::Unparsed(s) => ExpressionView::Unparsed(s@),
        }
    }
}

impl DeepView for Expression {
    type V = ExpressionView;

    open spec fn deep_view(&self) -> ExpressionView {
        self@
    }
}

impl View for Filter {
    type V = FilterView;

    open spec fn view(&self) -> FilterView {
        FilterView {
            name: self.name@,
            arg: match self.arg {
                Some(e) => Some(e@),
                None => None,
            },
        }
    }
}

impl DeepView for Filter {
    type V = FilterView;

    open spec fn deep_view(&self) -> FilterView {
        self@
    }
}

impl View for FilterExpression {
    type V = FilterExpressionView;

    open spec fn view(&self) -> FilterExpressionView {
        FilterExpressionView { var: self.var@, filters: self.filters.deep_view() }
    }
}

impl DeepView for FilterExpression {
    type V = FilterExpressionView;

    open spec fn deep_view(&self) -> FilterExpressionView {
        self@
    }
}

impl View for Token {
    type V = TokenView;

    open spec fn view(&self) -> TokenView {
        match self {
            Token::Text { contents, lineno } => TokenView::Text {
                contents: contents@,
                lineno: *lineno as nat,
            },
            Token::Variable { filter_expression, lineno } => TokenView::Variable {
                filter_expression: filter_expression@,
                lineno: *lineno as nat,
            },
            Token::Block { bits, lineno } => TokenView::Block {
                bits: bits.deep_view(),
                lineno: *lineno as nat,
            },
            Token::Comment { contents, lineno } => TokenView::Comment {
                contents: contents@,
                lineno: *lineno as nat,
            },
        }
    }
}

impl DeepView for Token {
    type V = TokenView;

    open spec fn deep_view(&self) -> TokenView {
        self@
    }
}

impl TokenView {
    /// The bits of a block tag; no bits for any other token.
    pub open spec fn bits(self) -> Seq<Seq<char>> {
        match self {
            TokenView::Block { bits, .. } => bits,
            _ => Seq::empty(),
        }
    }
}

impl Token {
    /// The line on which the token starts.
    pub fn lineno(&self) -> (line: usize)
        ensures
            line == self@.line(),
    {
        match self {
            Token::Text { lineno, .. } => *lineno,
            Token::Variable { lineno, .. } => *lineno,
            Token::Block { lineno, .. } => *lineno,
            Token::Comment { lineno, .. } => *lineno,
        }
    }

    /// Whether the token is a block tag named `name`.
    pub fn is_tag(&self, name: &str) -> (r: bool)
        ensures
            r == self@.is_tag(name@),
    {
        match self {
            Token::Block { bits, .. } => bits.len() > 0 && crate::text::str_eq(
                bits[0].as_str(),
                name,
            ),
            _ => false,
        }
    }

    /// The number of bits of a block tag; 0 for any other token.
    pub fn bit_count(&self) -> (n: usize)
        ensures
            n == self@.bits().len(),
    {
        match self {
            Token::Block { bits, .. } => bits.len(),
            _ => 0,
        }
    }

    /// A copy of bit `i` of a block tag.
    pub fn bit(&self, i: usize) -> (b: String)
        requires
            i < self@.bits().len(),
        ensures
            b@ == self@.bits()[i as int],
    {
        match self {
            Token::Block { bits, .. } => bits[i].clone(),
            _ => String::new(),
        }
    }

    /// Whether the token is text made of whitespace only.
    pub fn is_blank_text(&self) -> (r: bool)
        ensures
            r == self@.is_blank_text(),
    {
        match self {
            Token::Text { contents, .. } => crate::text::blank(
                &crate::text::chars_of(contents.as_str()),
            ),
            _ => false,
        }
    }
}

/// Gives the block tag at `i` new bits.
pub fn set_bits(tokens: &mut Vec<Token>, i: usize, bits: Vec<String>)
    requires
        i < old(tokens).len(),
        old(tokens)[i as int] is Block,
    ensures
        final(tokens).deep_view() == old(tokens).deep_view().update(
            i as int,
            TokenView::Block { bits: bits.deep_view(), lineno: old(tokens)[i as int]@.line() },
        ),
        final(tokens).len() == old(tokens).len(),
{
    let ghost before = tokens.deep_view();
    let ghost line = tokens[i as int]@.line();
    match &mut tokens[i] {
        Token::Block { bits: held, .. } => {
            *held = bits;
        },
        _ => {},
    }
    assert(tokens.deep_view() =~= before.update(
        i as int,
        TokenView::Block { bits: bits.deep_view(), lineno: line },
    ));
}

/// Gives the text token at `i` new contents.
pub fn set_contents(tokens: &mut Vec<Token>, i: usize, contents: String)
    requires
        i < old(tokens).len(),
        old(tokens)[i as int] is Text,
    ensures
        final(tokens).deep_view() == old(tokens).deep_view().update(
            i as int,
            TokenView::Text { contents: contents@, lineno: old(tokens)[i as int]@.line() },
        ),
        final(tokens).len() == old(tokens).len(),
{
    let ghost before = tokens.deep_view();
    let ghost line = tokens[i as int]@.line();
    match &mut tokens[i] {
        Token::Text { contents: held, .. } => {
            *held = contents;
        },
        _ => {},
    }
    assert(tokens.deep_view() =~= before.update(
        i as int,
        TokenView::Text { contents: contents@, lineno: line },
    ));
}

} // verus!
