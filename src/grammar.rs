//! The grammar of expressions, as spec functions over token sequences.
//!
//! ```text
//! expr    := primary (binop expr)*      grouped by precedence climbing
//! primary := ('!' | '-' | '+') primary | literal | variable
//!          | '[' (literal | variable | ',')* ']' | '(' expr ')'
//! ```
use vstd::prelude::*;

use crate::expression::Expression;
use crate::op::{op_of, precedence, Op};
use crate::term::Term;
use crate::error::ErrorModel;
use crate::token::{Token, TokenModel};
use crate::value::ValueModel;

verus! {

/// The mathematical content of an [`Expression`].
pub enum ExprModel {
    Binary(Box<ExprModel>, Op, Box<ExprModel>),
    Unary(Op, Box<ExprModel>),
    Constant(ValueModel),
    Variable(Seq<char>),
    List(Seq<ExprModel>),
}

/// The model of an expression, node by node.
pub open spec fn emodel(e: Expression) -> ExprModel
    decreases e,
{
    match e {
        Expression::Binary { left, op, right } => ExprModel::Binary(
            Box::new(emodel(*left)),
            op,
            Box::new(emodel(*right)),
        ),
        Expression::Unary { op, operand } => ExprModel::Unary(op, Box::new(emodel(*operand))),
        Expression::Term { term } => match term {
            Term::Constant(v) => ExprModel::Constant(v@),
            Term::Variable(name) => ExprModel::Variable(name@),
        },
        Expression::List { terms } => ExprModel::List(
            Seq::new(
                terms@.len(),
                |i: int|
                    if 0 <= i < terms@.len() {
                        emodel(terms@[i])
                    } else {
                        ExprModel::Variable(Seq::empty())
                    },
            ),
        ),
    }
}

/// The models of a sequence of expressions.
pub open spec fn emodels(s: Seq<Expression>) -> Seq<ExprModel> {
    Seq::new(s.len(), |i: int| emodel(s[i]))
}

/// A sequence of tokens as the grammar reads them: each token's model with its
/// position in the source text.
pub open spec fn symbol(ls: Seq<(TokenModel, usize)>, i: int) -> Option<Token> {
    match ls[i].0 {
        TokenModel::Symbol(t) => Some(t),
        _ => None,
    }
}

/// The operator that the token at `i` stands for, if any.
pub open spec fn op_at(ls: Seq<(TokenModel, usize)>, i: int) -> Option<Op> {
    match symbol(ls, i) {
        Some(t) => op_of(t),
        None => None,
    }
}

/// The syntax error that names the token at `i`.
pub open spec fn syntax_at(ls: Seq<(TokenModel, usize)>, i: int) -> ErrorModel {
    ErrorModel::Syntax(ls[i].0, ls[i].1)
}

/// The prefix operator a token stands for, if any.
pub open spec fn prefix_op(token: Token) -> Option<Op> {
    match token {
        Token::Not => Some(Op::Not),
        Token::Minus => Some(Op::Sub),
        Token::Plus => Some(Op::Add),
        _ => None,
    }
}

/// The token at `p` continues an expression whose operators bind at least as
/// tightly as `min`.
pub open spec fn continues(ls: Seq<(TokenModel, usize)>, p: int, min: u8) -> bool {
    &&& 0 <= p < ls.len()
    &&& op_at(ls, p) is Some
    &&& op_at(ls, p)->Some_0 != Op::Not
    &&& precedence(op_at(ls, p)->Some_0) >= min
}

/// The binding strength required of the operators to the right of one of
/// strength `p`: strictly more, so that equal strengths group to the left.
pub open spec fn stronger(p: u8) -> u8 {
    if p < 6 {
        (p + 1) as u8
    } else {
        6
    }
}

/// The primary expression starting at `pos` and the position after it. The
/// tokens running out is `Eof`; a token that cannot stand there is a syntax
/// error naming it; an error inside a prefix operand is passed on. A group is
/// the tokens up to its matching `)`, parsed on their own as a whole
/// expression (see [`group_end`], [`expression_at`]); its error is passed on.
pub open spec fn primary(ls: Seq<(TokenModel, usize)>, pos: int) -> Result<(ExprModel, int), ErrorModel>
    decreases ls.len() - pos, 0int,
{
    if pos < 0 || pos >= ls.len() {
        Err(ErrorModel::Eof)
    } else {
        match ls[pos].0 {
            TokenModel::Name(name) => Ok((ExprModel::Variable(name), pos + 1)),
            TokenModel::Literal(v) => Ok((ExprModel::Constant(v), pos + 1)),
            TokenModel::Symbol(t) => match t {
                Token::Not | Token::Minus | Token::Plus => match primary(ls, pos + 1) {
                    Ok((e, q)) => Ok((ExprModel::Unary(prefix_op(t)->Some_0, Box::new(e)), q)),
                    Err(x) => Err(x),
                },
                Token::SquareBracketStart => list_items(ls, pos + 1, Seq::empty()),
                Token::RoundBracketStart => match group_end(ls, pos + 1, 1) {
                    Ok(close) => if pos < close < ls.len() {
                        match expression_at(ls.subrange(pos + 1, close), 0) {
                            Ok((e, _)) => Ok((e, close + 1)),
                            Err(x) => Err(x),
                        }
                    } else {
                        Err(ErrorModel::Eof)
                    },
                    Err(x) => Err(x),
                },
                _ => Err(syntax_at(ls, pos)),
            },
        }
    }
}

/// The index of the `)` that closes a group, scanning from `q` with `depth`
/// groups open: brackets nest; a block end before it is a syntax error naming
/// the block end, and running out of tokens is `Eof`.
pub open spec fn group_end(ls: Seq<(TokenModel, usize)>, q: int, depth: nat) -> Result<int, ErrorModel>
    decreases ls.len() - q,
{
    if q < 0 || q >= ls.len() {
        Err(ErrorModel::Eof)
    } else if symbol(ls, q) == Some(Token::RoundBracketStart) {
        group_end(ls, q + 1, depth + 1)
    } else if symbol(ls, q) == Some(Token::RoundBracketEnd) {
        if depth <= 1 {
            Ok(q)
        } else {
            group_end(ls, q + 1, (depth - 1) as nat)
        }
    } else if symbol(ls, q) == Some(Token::BlockEnd) {
        Err(syntax_at(ls, q))
    } else {
        group_end(ls, q + 1, depth)
    }
}

/// The rest of a list literal from `q`, with the elements `items` read so far:
/// literals and variables separated by commas, up to `]`.
pub open spec fn list_items(ls: Seq<(TokenModel, usize)>, q: int, items: Seq<ExprModel>) -> Result<
    (ExprModel, int),
    ErrorModel,
>
    decreases ls.len() - q, 3int,
{
    if q < 0 || q >= ls.len() {
        Err(ErrorModel::Eof)
    } else {
        match ls[q].0 {
            TokenModel::Literal(v) => list_items(ls, q + 1, items.push(ExprModel::Constant(v))),
            TokenModel::Name(name) => list_items(ls, q + 1, items.push(ExprModel::Variable(name))),
            TokenModel::Symbol(Token::SquareBracketEnd) => Ok((ExprModel::List(items), q + 1)),
            TokenModel::Symbol(Token::Comma) => list_items(ls, q + 1, items),
            _ => Err(syntax_at(ls, q)),
        }
    }
}

/// The expression starting at `pos` whose operators bind at least as tightly
/// as `min`, and the position after it.
pub open spec fn climb(ls: Seq<(TokenModel, usize)>, pos: int, min: u8) -> Result<(ExprModel, int), ErrorModel>
    decreases ls.len() - pos, 1int,
{
    match primary(ls, pos) {
        Ok((left, p)) => if pos < p <= ls.len() {
            climb_rest(ls, left, p, min)
        } else {
            Err(ErrorModel::Eof)
        },
        Err(x) => Err(x),
    }
}

/// Extends `left`, which ends at `p`, with the operators that follow it and
/// bind at least as tightly as `min`.
pub open spec fn climb_rest(ls: Seq<(TokenModel, usize)>, left: ExprModel, p: int, min: u8) -> Result<
    (ExprModel, int),
    ErrorModel,
>
    decreases ls.len() - p, 2int,
{
    if !continues(ls, p, min) {
        Ok((left, p))
    } else {
        let op = op_at(ls, p)->Some_0;
        match climb(ls, p + 1, stronger(precedence(op))) {
            Ok((right, q)) => if p < q <= ls.len() {
                climb_rest(ls, ExprModel::Binary(Box::new(left), op, Box::new(right)), q, min)
            } else {
                Err(ErrorModel::Eof)
            },
            Err(x) => Err(x),
        }
    }
}

/// A whole expression starting at `pos`: it must be followed by the end of the
/// block or of the tokens; any other token there is a syntax error naming it.
pub open spec fn expression_at(ls: Seq<(TokenModel, usize)>, pos: int) -> Result<(ExprModel, int), ErrorModel>
    decreases ls.len() - pos, 4int,
{
    match climb(ls, pos, 1) {
        Ok((e, q)) => if q == ls.len() || symbol(ls, q) == Some(Token::BlockEnd) {
            Ok((e, q))
        } else {
            Err(syntax_at(ls, q))
        },
        Err(x) => Err(x),
    }
}

/// An error that parsing gives: the tokens ran out, or a syntax error.
pub open spec fn parse_error(x: ErrorModel) -> bool {
    x is Eof || x is Syntax
}

/// A token that can end an operand: a literal, a variable or a closing bracket.
pub open spec fn closes(t: TokenModel) -> bool {
    t is Literal || t is Name || t == TokenModel::Symbol(Token::SquareBracketEnd) || t
        == TokenModel::Symbol(Token::RoundBracketEnd)
}

/// A primary expression ends with a token that closes an operand.
pub proof fn lemma_primary_end(ls: Seq<(TokenModel, usize)>, pos: int)
    ensures
        primary(ls, pos) matches Ok((_, q)) ==> pos < q <= ls.len() && closes(ls[q - 1].0),
        primary(ls, pos) matches Err(x) ==> parse_error(x),
    decreases ls.len() - pos, 0int,
{
    if 0 <= pos < ls.len() {
        match ls[pos].0 {
            TokenModel::Symbol(t) => match t {
                Token::Not | Token::Minus | Token::Plus => lemma_primary_end(ls, pos + 1),
                Token::SquareBracketStart => lemma_list_end(ls, pos + 1, Seq::empty()),
                Token::RoundBracketStart => {
                    lemma_group_end(ls, pos + 1, 1);
                    if let Ok(close) = group_end(ls, pos + 1, 1) {
                        if pos < close < ls.len() {
                            lemma_whole_errors(ls.subrange(pos + 1, close), 0);
                        }
                    }
                },
                _ => {},
            },
            _ => {},
        }
    }
}

/// The rest of a list literal ends with its closing bracket.
pub proof fn lemma_list_end(ls: Seq<(TokenModel, usize)>, q: int, items: Seq<ExprModel>)
    ensures
        list_items(ls, q, items) matches Ok((_, r)) ==> q < r <= ls.len() && closes(ls[r - 1].0),
        list_items(ls, q, items) matches Err(x) ==> parse_error(x),
    decreases ls.len() - q, 3int,
{
    if 0 <= q < ls.len() {
        match ls[q].0 {
            TokenModel::Literal(v) => lemma_list_end(ls, q + 1, items.push(ExprModel::Constant(v))),
            TokenModel::Name(name) => lemma_list_end(ls, q + 1, items.push(ExprModel::Variable(name))),
            TokenModel::Symbol(Token::Comma) => lemma_list_end(ls, q + 1, items),
            _ => {},
        }
    }
}

/// An expression ends with a token that closes an operand.
pub proof fn lemma_climb_end(ls: Seq<(TokenModel, usize)>, pos: int, min: u8)
    ensures
        climb(ls, pos, min) matches Ok((_, q)) ==> pos < q <= ls.len() && closes(ls[q - 1].0),
        climb(ls, pos, min) matches Err(x) ==> parse_error(x),
    decreases ls.len() - pos, 1int,
{
    lemma_primary_end(ls, pos);
    if let Ok((left, p)) = primary(ls, pos) {
        if pos < p <= ls.len() {
            lemma_climb_rest_end(ls, left, p, min);
        }
    }
}

/// Extending an operand that ends with a closing token ends with one too.
pub proof fn lemma_climb_rest_end(ls: Seq<(TokenModel, usize)>, left: ExprModel, p: int, min: u8)
    requires
        0 < p <= ls.len(),
        closes(ls[p - 1].0),
    ensures
        climb_rest(ls, left, p, min) matches Ok((_, q)) ==> p <= q <= ls.len() && closes(ls[q - 1].0),
        climb_rest(ls, left, p, min) matches Err(x) ==> parse_error(x),
    decreases ls.len() - p, 2int,
{
    if continues(ls, p, min) {
        let op = op_at(ls, p)->Some_0;
        lemma_climb_end(ls, p + 1, stronger(precedence(op)));
        if let Ok((right, q)) = climb(ls, p + 1, stronger(precedence(op))) {
            if p < q <= ls.len() {
                lemma_climb_rest_end(ls, ExprModel::Binary(Box::new(left), op, Box::new(right)), q, min);
            }
        }
    }
}

/// A group ends at a `)`; scanning for it fails only with `Eof` or a syntax
/// error.
pub proof fn lemma_group_end(ls: Seq<(TokenModel, usize)>, q: int, depth: nat)
    ensures
        group_end(ls, q, depth) matches Ok(c) ==> q <= c < ls.len() && ls[c].0
            == TokenModel::Symbol(Token::RoundBracketEnd),
        group_end(ls, q, depth) matches Err(x) ==> parse_error(x),
    decreases ls.len() - q,
{
    if 0 <= q < ls.len() {
        if symbol(ls, q) == Some(Token::RoundBracketStart) {
            lemma_group_end(ls, q + 1, depth + 1);
        } else if symbol(ls, q) == Some(Token::RoundBracketEnd) {
            if depth > 1 {
                lemma_group_end(ls, q + 1, (depth - 1) as nat);
            }
        } else if symbol(ls, q) != Some(Token::BlockEnd) {
            lemma_group_end(ls, q + 1, depth);
        }
    }
}

/// A group with no `)` after its opening one fails with `Eof` or a syntax error.
pub proof fn lemma_group_unclosed(ls: Seq<(TokenModel, usize)>, q: int, depth: nat)
    requires
        forall|k: int| q <= k < ls.len() ==> ls[k].0 != TokenModel::Symbol(Token::RoundBracketEnd),
    ensures
        group_end(ls, q, depth) is Err,
    decreases ls.len() - q,
{
    if 0 <= q < ls.len() {
        if symbol(ls, q) == Some(Token::RoundBracketStart) {
            lemma_group_unclosed(ls, q + 1, depth + 1);
        } else if symbol(ls, q) != Some(Token::BlockEnd) {
            lemma_group_unclosed(ls, q + 1, depth);
        }
    }
}

/// A whole expression fails only with `Eof` or a syntax error.
pub proof fn lemma_whole_errors(ls: Seq<(TokenModel, usize)>, pos: int)
    ensures
        expression_at(ls, pos) matches Err(x) ==> parse_error(x),
    decreases ls.len() - pos, 4int,
{
    lemma_climb_end(ls, pos, 1);
}

/// A list literal whose closing bracket never comes does not parse.
pub proof fn lemma_list_unclosed(ls: Seq<(TokenModel, usize)>, q: int, items: Seq<ExprModel>)
    requires
        forall|k: int| q <= k < ls.len() ==> ls[k].0 != TokenModel::Symbol(Token::SquareBracketEnd),
    ensures
        list_items(ls, q, items) is Err,
    decreases ls.len() - q, 3int,
{
    if 0 <= q < ls.len() {
        match ls[q].0 {
            TokenModel::Literal(v) => lemma_list_unclosed(ls, q + 1, items.push(ExprModel::Constant(v))),
            TokenModel::Name(name) => lemma_list_unclosed(ls, q + 1, items.push(ExprModel::Variable(name))),
            TokenModel::Symbol(Token::Comma) => lemma_list_unclosed(ls, q + 1, items),
            _ => {},
        }
    }
}

} // verus!
