use vstd::prelude::*;

use crate::context::Context;
use crate::error::{outcome, Error, ErrorModel};
use crate::grammar::{climb, climb_rest, emodel, emodels, expression_at, group_end, list_items, primary};
use crate::op::{binary_result, unary_result, Op};
use crate::lexer::lex;
use crate::token::{lexemes, Token, TokenModel, TokenStream, TokenWithContext};
use crate::term::{term_result, Term};
use crate::value::{model, Value, ValueModel};

verus! {

/// An expression tree, like `5 == 6` or `(a + 1) * 2`.
#[derive(Debug, PartialEq)]
pub enum Expression {
    /// `left op right`.
    Binary { left: Box<Expression>, op: Op, right: Box<Expression> },
    /// A prefix operator applied to an operand.
    Unary { op: Op, operand: Box<Expression> },
    /// A constant or a variable.
    Term { term: Term },
    /// A list literal, like `[1, 2, variable, "hello"]`.
    List { terms: Vec<Expression> },
}

/// The value of an expression in a context: both operands of a binary node are
/// evaluated, left first, and the first error met is the result.
pub open spec fn eval(e: Expression, context: Context) -> Result<ValueModel, ErrorModel>
    decreases e, 1nat,
{
    match e {
        Expression::Term { term } => term_result(term, context),
        Expression::Binary { left, op, right } => match eval(*left, context) {
            Err(x) => Err(x),
            Ok(l) => match eval(*right, context) {
                Err(x) => Err(x),
                Ok(r) => binary_result(op, l, r),
            },
        },
        Expression::Unary { op, operand } => match eval(*operand, context) {
            Err(x) => Err(x),
            Ok(v) => unary_result(op, v),
        },
        Expression::List { terms } => match eval_items(terms, terms@.len(), context) {
            Err(x) => Err(x),
            Ok(items) => Ok(ValueModel::List(items)),
        },
    }
}

/// The values of the first `n` elements of a list literal, in order, or the
/// first error among them.
pub open spec fn eval_items(terms: Vec<Expression>, n: nat, context: Context) -> Result<
    Seq<ValueModel>,
    ErrorModel,
>
    decreases terms, n,
{
    if n == 0 || n > terms@.len() {
        Ok(Seq::empty())
    } else {
        match eval_items(terms, (n - 1) as nat, context) {
            Err(x) => Err(x),
            Ok(items) => match eval(terms@[n - 1], context) {
                Err(x) => Err(x),
                Ok(v) => Ok(items.push(v)),
            },
        }
    }
}

/// The shapes the parser builds: prefix nodes carry `!`, `-` or `+`, binary
/// nodes any operator but `!`, and list literals hold only terms.
pub open spec fn well_formed(e: Expression) -> bool
    decreases e,
{
    match e {
        Expression::Term { .. } => true,
        Expression::Unary { op, operand } => (op == Op::Not || op == Op::Sub || op == Op::Add)
            && well_formed(*operand),
        Expression::Binary { left, op, right } => op != Op::Not && well_formed(*left)
            && well_formed(*right),
        Expression::List { terms } => forall|i: int|
            0 <= i < terms@.len() ==> (#[trigger] terms@[i]) is Term,
    }
}

/// The model of a parser result: the tree's model and the position after it,
/// or the error's model.
pub open spec fn parsed(r: Result<(Expression, usize), Error>) -> Result<(crate::grammar::ExprModel, int), ErrorModel> {
    match r {
        Ok((e, q)) => Ok((emodel(e), q as int)),
        Err(x) => Err(x@),
    }
}

/// Parses one primary expression starting at `pos`: a prefix operator and its
/// operand, a literal, a variable, a list literal or a parenthesised expression.
fn parse_primary(tokens: &Vec<TokenWithContext>, pos: usize) -> (r: Result<(Expression, usize), Error>)
    requires
        pos <= tokens@.len(),
    ensures
        parsed(r) == primary(lexemes(tokens@), pos as int),
        r matches Ok((e, q)) ==> pos < q <= tokens@.len() && well_formed(e),
    decreases tokens@.len() - pos, 0int,
{
    if pos >= tokens.len() {
        return Err(Error::Eof);
    }
    match &tokens[pos].token {
        Token::Not | Token::Minus | Token::Plus => {
            let op = match &tokens[pos].token {
                Token::Not => Op::Not,
                Token::Minus => Op::Sub,
                _ => Op::Add,
            };
            match parse_primary(tokens, pos + 1) {
                Ok((operand, q)) => Ok((Expression::Unary { op, operand: Box::new(operand) }, q)),
                Err(x) => Err(x),
            }
        },
        Token::Variable(name) => Ok((Expression::variable(name.clone()), pos + 1)),
        Token::Value(value) => Ok((Expression::constant(value.duplicate()), pos + 1)),
        Token::SquareBracketStart => {
            let mut terms: Vec<Expression> = Vec::new();
            let mut q: usize = pos + 1;
            assert(emodels(terms@) =~= Seq::empty());
            while q < tokens.len()
                invariant
                    pos < q <= tokens@.len(),
                    tokens@[pos as int].token == Token::SquareBracketStart,
                    forall|i: int| 0 <= i < terms@.len() ==> (#[trigger] terms@[i]) is Term,
                    primary(lexemes(tokens@), pos as int) == list_items(
                        lexemes(tokens@),
                        q as int,
                        emodels(terms@),
                    ),
                decreases tokens@.len() - q,
            {
                match &tokens[q].token {
                    Token::SquareBracketEnd => {
                        proof {
                            lemma_list_emodel(terms);
                        }
                        return Ok((Expression::List { terms }, q + 1));
                    },
                    Token::Comma => {},
                    Token::Value(value) => {
                        let ghost before = terms@;
                        terms.push(Expression::constant(value.duplicate()));
                        assert(emodels(terms@) =~= emodels(before).push(crate::grammar::ExprModel::Constant(value@)));
                    },
                    Token::Variable(name) => {
                        let ghost before = terms@;
                        terms.push(Expression::variable(name.clone()));
                        assert(emodels(terms@) =~= emodels(before).push(crate::grammar::ExprModel::Variable(name@)));
                    },
                    _ => {
                        return Err(Error::ExpressionSyntax(tokens[q].duplicate()));
                    },
                }
                q = q + 1;
            }
            Err(Error::Eof)
        },
        Token::RoundBracketStart => {
            let ghost ls = lexemes(tokens@);
            let mut depth: usize = 1;
            let mut q: usize = pos + 1;
            while q < tokens.len()
                invariant
                    pos < q <= tokens@.len(),
                    ls == lexemes(tokens@),
                    tokens@[pos as int].token == Token::RoundBracketStart,
                    1 <= depth <= q - pos,
                    group_end(ls, pos + 1, 1) == group_end(ls, q as int, depth as nat),
                ensures
                    pos < q <= tokens@.len(),
                    ls == lexemes(tokens@),
                    q < tokens@.len() ==> group_end(ls, pos + 1, 1) == Ok::<int, ErrorModel>(
                        q as int,
                    ),
                decreases tokens@.len() - q,
            {
                match &tokens[q].token {
                    Token::RoundBracketStart => {
                        depth = depth + 1;
                    },
                    Token::RoundBracketEnd => {
                        if depth == 1 {
                            break;
                        }
                        depth = depth - 1;
                    },
                    Token::BlockEnd => {
                        return Err(Error::ExpressionSyntax(tokens[q].duplicate()));
                    },
                    _ => {},
                }
                q = q + 1;
            }
            if q >= tokens.len() {
                return Err(Error::Eof);
            }
            assert(group_end(ls, pos + 1, 1) == Ok::<int, ErrorModel>(q as int));
            let mut inner: Vec<TokenWithContext> = Vec::new();
            let mut k: usize = pos + 1;
            while k < q
                invariant
                    pos < k <= q < tokens@.len(),
                    ls == lexemes(tokens@),
                    lexemes(inner@) =~= ls.subrange(pos + 1, k as int),
                decreases q - k,
            {
                let ghost before = inner@;
                inner.push(tokens[k].duplicate());
                assert(lexemes(inner@) =~= lexemes(before).push(ls[k as int]));
                assert(ls.subrange(pos + 1, k + 1) =~= ls.subrange(pos + 1, k as int).push(ls[k as int]));
                k = k + 1;
            }
            match parse_whole(&inner, 0) {
                Ok((e, _)) => Ok((e, q + 1)),
                Err(x) => Err(x),
            }
        },
        _ => Err(Error::ExpressionSyntax(tokens[pos].duplicate())),
    }
}

/// Parses a whole expression starting at `pos`, which must be followed by
/// the end of the block or of the tokens (see [`expression_at`]).
fn parse_whole(tokens: &Vec<TokenWithContext>, pos: usize) -> (r: Result<(Expression, usize), Error>)
    requires
        pos <= tokens@.len(),
    ensures
        parsed(r) == expression_at(lexemes(tokens@), pos as int),
        r matches Ok((e, q)) ==> pos < q <= tokens@.len() && well_formed(e),
    decreases tokens@.len() - pos, 4int,
{
    let (e, q) = match parse_binary(tokens, pos, 1) {
        Ok(parsed) => parsed,
        Err(x) => {
            return Err(x);
        },
    };
    if q < tokens.len() {
        match &tokens[q].token {
            Token::BlockEnd => {},
            _ => {
                return Err(Error::ExpressionSyntax(tokens[q].duplicate()));
            },
        }
    }
    Ok((e, q))
}

/// Parses an expression starting at `pos` whose operators all bind at least as
/// tightly as `min`, by precedence climbing: operators of equal strength group
/// to the left, a stronger operator takes its operands first.
fn parse_binary(tokens: &Vec<TokenWithContext>, pos: usize, min: u8) -> (r: Result<
    (Expression, usize),
    Error,
>)
    requires
        pos <= tokens@.len(),
        1 <= min <= 6,
    ensures
        parsed(r) == climb(lexemes(tokens@), pos as int, min),
        r matches Ok((e, q)) ==> pos < q <= tokens@.len() && well_formed(e),
    decreases tokens@.len() - pos, 1int,
{
    let (mut left, mut p) = match parse_primary(tokens, pos) {
        Ok(parsed) => parsed,
        Err(x) => {
            return Err(x);
        },
    };
    while p < tokens.len()
        invariant
            pos < p <= tokens@.len(),
            1 <= min <= 6,
            well_formed(left),
            climb(lexemes(tokens@), pos as int, min) == climb_rest(
                lexemes(tokens@),
                emodel(left),
                p as int,
                min,
            ),
        decreases tokens@.len() - p,
    {
        let op = match Op::from_token(&tokens[p].token) {
            Some(op) => op,
            None => {
                return Ok((left, p));
            },
        };
        let strength = op.precedence();
        if op == Op::Not || strength < min {
            return Ok((left, p));
        }
        let next_min: u8 = if strength < 6 {
            strength + 1
        } else {
            6
        };
        let (right, q) = match parse_binary(tokens, p + 1, next_min) {
            Ok(parsed) => parsed,
            Err(x) => {
                return Err(x);
            },
        };
        left = Expression::Binary { left: Box::new(left), op, right: Box::new(right) };
        p = q;
    }
    Ok((left, p))
}

/// The model of a list literal is the list of its elements' models.
proof fn lemma_list_emodel(terms: Vec<Expression>)
    ensures
        emodel(Expression::List { terms }) == crate::grammar::ExprModel::List(emodels(terms@)),
{
    assert(emodel(Expression::List { terms })->List_0 =~= emodels(terms@));
}

/// Once an element fails, every longer prefix of the list fails with that error.
proof fn lemma_items_fail(terms: Vec<Expression>, k: nat, n: nat, context: Context)
    requires
        0 < k <= n <= terms@.len(),
        eval_items(terms, k, context) is Err,
    ensures
        eval_items(terms, n, context) == eval_items(terms, k, context),
    decreases n - k,
{
    if n > k {
        lemma_items_fail(terms, k, (n - 1) as nat, context);
    }
}

impl Expression {
    /// A constant expression.
    pub fn constant(value: Value) -> (r: Expression)
        ensures
            r == (Expression::Term { term: Term::Constant(value) }),
    {
        Expression::Term { term: Term::constant(value) }
    }

    /// A variable expression.
    pub fn variable(variable: String) -> (r: Expression)
        ensures
            r == (Expression::Term { term: Term::Variable(variable) }),
    {
        Expression::Term { term: Term::variable(variable) }
    }

    /// Parses one expression from the stream, up to the end of the block (see
    /// [`crate::grammar`]).
    ///
    /// On success the stream stands after the expression, at the block's end
    /// marker (which is left unread) or at the end of the stream. On failure the
    /// stream is left where it was, and no part of a tree is returned.
    pub fn parse(iter: &mut TokenStream) -> (r: Result<Expression, Error>)
        requires
            old(iter).wf(),
        ensures
            final(iter).wf(),
            final(iter).tokens() == old(iter).tokens(),
            match expression_at(lexemes(old(iter).tokens()), old(iter).position() as int) {
                Ok((m, q)) => r matches Ok(e) && emodel(e) == m && well_formed(e)
                    && final(iter).position() == q,
                Err(x) => r matches Err(y) && y@ == x && final(iter).position() == old(
                    iter,
                ).position(),
            },
    {
        let (tokens, pos) = iter.parts();
        let (e, q) = match parse_whole(tokens, pos) {
            Ok(parsed) => parsed,
            Err(x) => {
                return Err(x);
            },
        };
        iter.advance_to(q);
        Ok(e)
    }

    /// Evaluates the expression against `context` (see [`eval`]).
    pub fn evaluate(&self, context: &Context) -> (r: Result<Value, Error>)
        ensures
            outcome(r) == eval(*self, *context),
        decreases self,
    {
        match self {
            Expression::Term { term } => term.evaluate(context),
            Expression::Binary { left, op, right } => {
                let l = match left.evaluate(context) {
                    Ok(v) => v,
                    Err(x) => {
                        return Err(x);
                    },
                };
                let r = match right.evaluate(context) {
                    Ok(v) => v,
                    Err(x) => {
                        return Err(x);
                    },
                };
                op.evaluate_binary(&l, &r)
            },
            Expression::Unary { op, operand } => {
                let v = match operand.evaluate(context) {
                    Ok(v) => v,
                    Err(x) => {
                        return Err(x);
                    },
                };
                op.evaluate_unary(&v)
            },
            Expression::List { terms } => {
                let mut list: Vec<Value> = Vec::new();
                let mut i: usize = 0;
                while i < terms.len()
                    invariant
                        *self == (Expression::List { terms: *terms }),
                        decreases_to!(*self => *terms),
                        i <= terms@.len(),
                        list@.len() == i,
                        eval_items(*terms, i as nat, *context) is Ok,
                        forall|j: int|
                            0 <= j < i ==> (#[trigger] list@[j])@ == eval_items(
                                *terms,
                                i as nat,
                                *context,
                            )->Ok_0[j],
                        eval_items(*terms, i as nat, *context)->Ok_0.len() == i,
                    decreases terms@.len() - i,
                {
                    proof {
                        assert(decreases_to!(*terms => terms[i as int]));
                    }
                    let v = match terms[i].evaluate(context) {
                        Ok(v) => v,
                        Err(x) => {
                            proof {
                                lemma_items_fail(*terms, (i + 1) as nat, terms@.len(), *context);
                            }
                            return Err(x);
                        },
                    };
                    list.push(v);
                    i = i + 1;
                }
                proof {
                    let items = eval_items(*terms, i as nat, *context)->Ok_0;
                    assert(model(Value::List(list))->List_0 =~= items);
                }
                Ok(Value::List(list))
            },
        }
    }
}

/// Evaluation depends on an expression only through its model.
pub proof fn lemma_eval_by_model(a: Expression, b: Expression, context: Context)
    requires
        emodel(a) == emodel(b),
    ensures
        eval(a, context) == eval(b, context),
    decreases a, 1nat,
{
    match (a, b) {
        (Expression::Binary { left: l1, op: _, right: r1 }, Expression::Binary { left: l2, op: _, right: r2 }) => {
            lemma_eval_by_model(*l1, *l2, context);
            lemma_eval_by_model(*r1, *r2, context);
        },
        (Expression::Unary { op: _, operand: o1 }, Expression::Unary { op: _, operand: o2 }) => {
            lemma_eval_by_model(*o1, *o2, context);
        },
        (Expression::List { terms: t1 }, Expression::List { terms: t2 }) => {
            assert(emodel(a)->List_0.len() == t1@.len());
            assert(emodel(b)->List_0.len() == t2@.len());
            assert forall|i: int| 0 <= i < t1@.len() implies emodel(t1@[i]) == emodel(t2@[i]) by {
                assert(emodel(a)->List_0[i] == emodel(t1@[i]));
                assert(emodel(b)->List_0[i] == emodel(t2@[i]));
            }
            lemma_items_by_model(t1, t2, t1@.len(), context);
        },
        (Expression::Term { term: x }, Expression::Term { term: y }) => {
            match (x, y) {
                (Term::Constant(_), Term::Constant(_)) => {},
                (Term::Variable(_), Term::Variable(_)) => {},
                _ => {},
            }
        },
        _ => {},
    }
}

/// Element by element, lists of expressions with equal models evaluate alike.
proof fn lemma_items_by_model(a: Vec<Expression>, b: Vec<Expression>, n: nat, context: Context)
    requires
        a@.len() == b@.len(),
        forall|i: int| 0 <= i < a@.len() ==> emodel(#[trigger] a@[i]) == emodel(b@[i]),
    ensures
        eval_items(a, n, context) == eval_items(b, n, context),
    decreases a, n,
{
    if n > 0 && n <= a@.len() {
        lemma_items_by_model(a, b, (n - 1) as nat, context);
        assert(decreases_to!(a => a@[n - 1]));
        lemma_eval_by_model(a@[n - 1], b@[n - 1], context);
    }
}

/// What evaluating a block whose tokens are `ls` gives: the first token (the
/// block's opening marker) is skipped; no token at all is `Eof`; otherwise the
/// parse error, or the value of the expression the remaining tokens form.
pub open spec fn block_result(ls: Seq<(TokenModel, usize)>, context: Context, r: Result<ValueModel, ErrorModel>) -> bool {
    if ls.len() == 0 {
        r == Err::<ValueModel, ErrorModel>(ErrorModel::Eof)
    } else {
        match expression_at(ls, 1) {
            Ok((m, _)) => forall|e: Expression| emodel(e) == m ==> #[trigger] eval(e, context) == r,
            Err(x) => r == Err::<ValueModel, ErrorModel>(x),
        }
    }
}

/// Parses and evaluates one expression block given as tokens (see
/// [`block_result`]).
pub fn evaluate_tokens(tokens: Vec<TokenWithContext>, context: &Context) -> (r: Result<Value, Error>)
    ensures
        block_result(lexemes(tokens@), *context, outcome(r)),
{
    let ghost ls = lexemes(tokens@);
    let mut stream = TokenStream::new(tokens);
    if stream.next().is_none() {
        return Err(Error::Eof);
    }
    let e = match Expression::parse(&mut stream) {
        Ok(e) => e,
        Err(x) => {
            return Err(x);
        },
    };
    let r = e.evaluate(context);
    proof {
        assert forall|f: Expression| emodel(f) == emodel(e) implies #[trigger] eval(f, *context) == outcome(r) by {
            lemma_eval_by_model(f, e, *context);
        }
    }
    r
}

/// Tokenizes, parses and evaluates one expression block of template source,
/// such as `<% 1 + 2 %>` (see [`lex`] and [`block_result`]).
pub fn evaluate(source: &str, context: &Context) -> (r: Result<Value, Error>)
    ensures
        match lex(source@, 0) {
            Ok(ls) => block_result(ls, *context, outcome(r)),
            Err(x) => outcome(r) == Err::<ValueModel, ErrorModel>(x),
        },
{
    let tokens = match crate::lexer::tokenize(source) {
        Ok(tokens) => tokens,
        Err(x) => {
            return Err(x);
        },
    };
    evaluate_tokens(tokens, context)
}

/// [`evaluate`] against a context with no variables.
pub fn evaluate_default(source: &str) -> (r: Result<Value, Error>)
    ensures
        exists|c: Context|
            #![trigger c.is_empty()]
            c.is_empty() && match lex(source@, 0) {
                Ok(ls) => block_result(ls, c, outcome(r)),
                Err(x) => outcome(r) == Err::<ValueModel, ErrorModel>(x),
            },
{
    let context = Context::new();
    let r = evaluate(source, &context);
    assert(context.is_empty());
    r
}

} // verus!
