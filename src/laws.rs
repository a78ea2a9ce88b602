//! General properties of the expression language, proved over the contracts
//! of its functions.
use vstd::prelude::*;

use crate::context::Context;
use crate::error::{outcome, Error, ErrorModel};
use crate::expression::{eval, eval_items, Expression};
use crate::grammar::{
    expression_at, lemma_climb_end, lemma_group_end, lemma_group_unclosed, lemma_list_unclosed, op_at, parse_error, primary,
};
use crate::op::{binary_result, Op};
use crate::token::{Token, TokenModel};
use crate::term::Term;
use crate::value::{Value, ValueModel};

verus! {

/// Evaluation is a function of the expression and the context: two
/// evaluations of one unchanged expression against one unchanged context give
/// the same result.
pub proof fn evaluation_is_deterministic(
    e: Expression,
    context: Context,
    first: Result<Value, Error>,
    second: Result<Value, Error>,
)
    requires
        outcome(first) == eval(e, context),
        outcome(second) == eval(e, context),
    ensures
        outcome(first) == outcome(second),
{
}

/// A variable that the context does not bind evaluates to an
/// `UndefinedVariable` error naming it, never to a default value.
pub proof fn unbound_variable_fails(name: String, context: Context)
    requires
        context.binding(name@) is None,
    ensures
        eval(Expression::Term { term: Term::Variable(name) }, context) == Err::<
            ValueModel,
            ErrorModel,
        >(ErrorModel::UndefinedVariable(name@)),
{
}

/// The expression refers, anywhere in its tree, to a variable that the
/// context does not bind.
pub open spec fn mentions_unbound(e: Expression, context: Context) -> bool
    decreases e, 1nat,
{
    match e {
        Expression::Term { term } => match term {
            Term::Variable(name) => context.binding(name@) is None,
            Term::Constant(_) => false,
        },
        Expression::Binary { left, op: _, right } => mentions_unbound(*left, context)
            || mentions_unbound(*right, context),
        Expression::Unary { op: _, operand } => mentions_unbound(*operand, context),
        Expression::List { terms } => mentions_unbound_in(terms, terms@.len(), context),
    }
}

/// One of the first `n` elements of a list literal refers to an unbound
/// variable.
pub open spec fn mentions_unbound_in(terms: Vec<Expression>, n: nat, context: Context) -> bool
    decreases terms, n,
{
    if n == 0 || n > terms@.len() {
        false
    } else {
        mentions_unbound_in(terms, (n - 1) as nat, context) || mentions_unbound(
            terms@[n - 1],
            context,
        )
    }
}

/// An expression that refers to an unbound variable anywhere fails to
/// evaluate: no default value stands in for the variable.
pub proof fn unbound_variable_anywhere_fails(e: Expression, context: Context)
    requires
        mentions_unbound(e, context),
    ensures
        eval(e, context) is Err,
    decreases e, 1nat,
{
    match e {
        Expression::Binary { left, op: _, right } => {
            if mentions_unbound(*left, context) {
                unbound_variable_anywhere_fails(*left, context);
            } else {
                unbound_variable_anywhere_fails(*right, context);
            }
        },
        Expression::Unary { op: _, operand } => {
            unbound_variable_anywhere_fails(*operand, context);
        },
        Expression::List { terms } => {
            unbound_element_fails(terms, terms@.len(), context);
        },
        _ => {},
    }
}

/// A list literal one of whose first `n` elements refers to an unbound
/// variable fails to evaluate by those elements.
pub proof fn unbound_element_fails(terms: Vec<Expression>, n: nat, context: Context)
    requires
        mentions_unbound_in(terms, n, context),
    ensures
        eval_items(terms, n, context) is Err,
    decreases terms, n,
{
    if mentions_unbound_in(terms, (n - 1) as nat, context) {
        unbound_element_fails(terms, (n - 1) as nat, context);
    } else {
        assert(decreases_to!(terms => terms@[n - 1]));
        unbound_variable_anywhere_fails(terms@[n - 1], context);
    }
}

/// On any two values, `==` and `!=` both succeed and exactly one of them
/// yields `true`.
pub proof fn equality_operators_complement(left: Value, right: Value)
    ensures
        binary_result(Op::Equals, left@, right@) matches Ok(ValueModel::Boolean(eq)) && binary_result(
            Op::NotEquals,
            left@,
            right@,
        ) matches Ok(ValueModel::Boolean(ne)) && eq != ne,
{
}

/// Parsing fails only with `Eof` or a syntax error, wherever it starts.
pub proof fn parse_errors_are_syntax_or_eof(ls: Seq<(TokenModel, usize)>, pos: int)
    ensures
        expression_at(ls, pos) matches Err(x) ==> parse_error(x),
{
    lemma_climb_end(ls, pos, 1);
}

/// The tokens of a block end with an operator that has no right operand:
/// either the stream ends on an operator, or its only block end marker comes
/// right after one.
pub open spec fn ends_with_operator(ls: Seq<(TokenModel, usize)>) -> bool {
    let n = ls.len();
    ||| {
        &&& n >= 1
        &&& op_at(ls, n - 1) is Some
        &&& forall|k: int| 0 <= k < n ==> ls[k].0 != TokenModel::Symbol(Token::BlockEnd)
    }
    ||| {
        &&& n >= 2
        &&& ls[n - 1].0 == TokenModel::Symbol(Token::BlockEnd)
        &&& op_at(ls, n - 2) is Some
        &&& forall|k: int| 0 <= k < n - 1 ==> ls[k].0 != TokenModel::Symbol(Token::BlockEnd)
    }
}

/// An expression whose last operator has no right operand fails with `Eof` or
/// a syntax error, wherever in the tokens parsing starts.
pub proof fn trailing_operator_fails(ls: Seq<(TokenModel, usize)>, pos: int)
    requires
        ends_with_operator(ls),
    ensures
        expression_at(ls, pos) matches Err(x) && parse_error(x),
{
    lemma_climb_end(ls, pos, 1);
}

/// A list literal with no closing bracket after its opening one fails with
/// `Eof` or a syntax error, as an operand and as a whole expression.
pub proof fn unterminated_list_fails(ls: Seq<(TokenModel, usize)>, open: int)
    requires
        0 <= open < ls.len(),
        ls[open].0 == TokenModel::Symbol(Token::SquareBracketStart),
        forall|k: int| open < k < ls.len() ==> ls[k].0 != TokenModel::Symbol(Token::SquareBracketEnd),
    ensures
        primary(ls, open) matches Err(x) && parse_error(x),
        expression_at(ls, open) matches Err(x) && parse_error(x),
{
    lemma_list_unclosed(ls, open + 1, Seq::empty());
    lemma_climb_end(ls, open, 1);
}

/// A parenthesis with no closing one after it fails with `Eof` or a syntax
/// error, as an operand and as a whole expression.
pub proof fn unclosed_parenthesis_fails(ls: Seq<(TokenModel, usize)>, open: int)
    requires
        0 <= open < ls.len(),
        ls[open].0 == TokenModel::Symbol(Token::RoundBracketStart),
        forall|k: int| open < k < ls.len() ==> ls[k].0 != TokenModel::Symbol(Token::RoundBracketEnd),
    ensures
        primary(ls, open) matches Err(x) && parse_error(x),
        expression_at(ls, open) matches Err(x) && parse_error(x),
{
    lemma_group_unclosed(ls, open + 1, 1);
    lemma_group_end(ls, open + 1, 1);
    lemma_climb_end(ls, open, 1);
}

} // verus!
