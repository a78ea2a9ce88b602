//! Brackets in what the parser accepts: every parsed expression holds as many
//! opening as closing brackets of each kind and no block end marker.
use vstd::prelude::*;

use crate::grammar::{
    climb, climb_rest, continues, expression_at, group_end, lemma_climb_end, lemma_list_end,
    lemma_primary_end, lemma_whole_errors, list_items, op_at, parse_error, primary, stronger,
    symbol, ExprModel,
};
use crate::op::precedence;
use crate::token::{Token, TokenModel};

verus! {

/// Opening and closing tokens of one kind of bracket.
pub open spec fn bracket_pair(open: Token, close: Token) -> bool {
    ||| open == Token::RoundBracketStart && close == Token::RoundBracketEnd
    ||| open == Token::SquareBracketStart && close == Token::SquareBracketEnd
}

/// What one token adds to the bracket count: 1 for `open`, -1 for `close`.
pub open spec fn weight(t: TokenModel, open: Token, close: Token) -> int {
    if t == TokenModel::Symbol(open) {
        1
    } else if t == TokenModel::Symbol(close) {
        -1
    } else {
        0
    }
}

/// The number of `open` minus the number of `close` tokens in `ls[a..b]`.
pub open spec fn net(ls: Seq<(TokenModel, usize)>, open: Token, close: Token, a: int, b: int) -> int
    decreases b - a,
{
    if a < 0 || b <= a || b > ls.len() {
        0
    } else {
        net(ls, open, close, a, b - 1) + weight(ls[b - 1].0, open, close)
    }
}

/// No block end marker stands in `ls[a..b]`.
pub open spec fn no_block_end(ls: Seq<(TokenModel, usize)>, a: int, b: int) -> bool {
    forall|k: int| a <= k < b ==> ls[k].0 != TokenModel::Symbol(Token::BlockEnd)
}

/// Counts over adjacent ranges add up.
pub proof fn lemma_net_split(ls: Seq<(TokenModel, usize)>, open: Token, close: Token, a: int, b: int, c: int)
    requires
        0 <= a <= b <= c <= ls.len(),
    ensures
        net(ls, open, close, a, c) == net(ls, open, close, a, b) + net(ls, open, close, b, c),
    decreases c - b,
{
    if c > b {
        lemma_net_split(ls, open, close, a, b, c - 1);
    }
}

/// Counting in a slice is counting in the same range of the whole.
pub proof fn lemma_net_slice(ls: Seq<(TokenModel, usize)>, open: Token, close: Token, lo: int, hi: int, n: int)
    requires
        0 <= lo <= hi <= ls.len(),
        0 <= n <= hi - lo,
    ensures
        net(ls.subrange(lo, hi), open, close, 0, n) == net(ls, open, close, lo, lo + n),
    decreases n,
{
    if n > 0 {
        lemma_net_slice(ls, open, close, lo, hi, n - 1);
    }
}

/// The scan for a group's `)` meets no block end, and closes as many round
/// brackets as were open; square brackets do not count in it.
pub proof fn lemma_group_balance(ls: Seq<(TokenModel, usize)>, open: Token, close: Token, q: int, depth: nat)
    requires
        bracket_pair(open, close),
        0 <= q,
        depth >= 1,
    ensures
        group_end(ls, q, depth) matches Ok(c) ==> q <= c < ls.len() && no_block_end(ls, q, c + 1)
            && (open == Token::RoundBracketStart ==> net(ls, open, close, q, c + 1) == -(
            depth as int)),
    decreases ls.len() - q,
{
    if q < ls.len() {
        assert(net(ls, open, close, q, q) == 0);
        assert(net(ls, open, close, q, q + 1) == weight(ls[q].0, open, close));
        if let Ok(c) = group_end(ls, q, depth) {
            if symbol(ls, q) == Some(Token::RoundBracketStart) {
                lemma_group_balance(ls, open, close, q + 1, depth + 1);
                lemma_net_split(ls, open, close, q, q + 1, c + 1);
            } else if symbol(ls, q) == Some(Token::RoundBracketEnd) {
                if depth > 1 {
                    lemma_group_balance(ls, open, close, q + 1, (depth - 1) as nat);
                    lemma_net_split(ls, open, close, q, q + 1, c + 1);
                }
            } else {
                lemma_group_balance(ls, open, close, q + 1, depth);
                lemma_net_split(ls, open, close, q, q + 1, c + 1);
            }
        }
    }
}

/// A parsed primary holds balanced brackets and no block end.
pub proof fn lemma_primary_balance(ls: Seq<(TokenModel, usize)>, open: Token, close: Token, pos: int)
    requires
        bracket_pair(open, close),
    ensures
        primary(ls, pos) matches Ok((_, q)) ==> no_block_end(ls, pos, q) && net(ls, open, close, pos, q)
            == 0,
    decreases ls.len() - pos, 0int,
{
    lemma_primary_end(ls, pos);
    if 0 <= pos < ls.len() {
        assert(net(ls, open, close, pos, pos) == 0);
        assert(net(ls, open, close, pos, pos + 1) == weight(ls[pos].0, open, close));
        match ls[pos].0 {
            TokenModel::Symbol(t) => match t {
                Token::Not | Token::Minus | Token::Plus => {
                    lemma_primary_balance(ls, open, close, pos + 1);
                    if let Ok((_, q)) = primary(ls, pos + 1) {
                        lemma_primary_end(ls, pos + 1);
                        lemma_net_split(ls, open, close, pos, pos + 1, q);
                    }
                },
                Token::SquareBracketStart => {
                    lemma_list_balance(ls, open, close, pos + 1, Seq::empty());
                    lemma_list_end(ls, pos + 1, Seq::empty());
                    if let Ok((_, q)) = list_items(ls, pos + 1, Seq::empty()) {
                        lemma_net_split(ls, open, close, pos, pos + 1, q);
                    }
                },
                Token::RoundBracketStart => {
                    lemma_group_balance(ls, open, close, pos + 1, 1);
                    crate::grammar::lemma_group_end(ls, pos + 1, 1);
                    if let Ok(c) = group_end(ls, pos + 1, 1) {
                        if pos < c < ls.len() {
                            let sub = ls.subrange(pos + 1, c);
                            lemma_whole_balance(sub, open, close, 0);
                            lemma_climb_end(sub, 0, 1);
                            if let Ok((_, q2)) = expression_at(sub, 0) {
                                assert(q2 == sub.len()) by {
                                    if q2 < sub.len() {
                                        assert(sub[q2].0 == ls[pos + 1 + q2].0);
                                    }
                                }
                                lemma_net_slice(ls, open, close, pos + 1, c, sub.len() as int);
                                lemma_net_split(ls, open, close, pos, pos + 1, c + 1);
                                lemma_net_split(ls, open, close, pos + 1, c, c + 1);
                                assert(net(ls, open, close, c, c) == 0);
                                assert(net(ls, open, close, c, c + 1) == weight(ls[c].0, open, close));
                                assert(no_block_end(ls, pos, c + 1));
                                if open == Token::RoundBracketStart {
                                    assert(net(ls, open, close, pos, c + 1) == 0);
                                } else {
                                    assert(net(ls, open, close, pos + 1, c) == 0);
                                    assert(net(ls, open, close, pos, c + 1) == 0);
                                }
                            }
                        }
                    }
                },
                _ => {},
            },
            _ => {},
        }
    }
}

/// The rest of a parsed list literal holds no block end and closes the list's
/// square bracket.
pub proof fn lemma_list_balance(
    ls: Seq<(TokenModel, usize)>,
    open: Token,
    close: Token,
    q: int,
    items: Seq<ExprModel>,
)
    requires
        bracket_pair(open, close),
    ensures
        list_items(ls, q, items) matches Ok((_, r)) ==> no_block_end(ls, q, r) && net(
            ls,
            open,
            close,
            q,
            r,
        ) == (if open == Token::SquareBracketStart {
            -1int
        } else {
            0int
        }),
    decreases ls.len() - q, 3int,
{
    if 0 <= q < ls.len() {
        assert(net(ls, open, close, q, q) == 0);
        assert(net(ls, open, close, q, q + 1) == weight(ls[q].0, open, close));
        match ls[q].0 {
            TokenModel::Literal(v) => {
                lemma_list_balance(ls, open, close, q + 1, items.push(ExprModel::Constant(v)));
                lemma_list_end(ls, q + 1, items.push(ExprModel::Constant(v)));
                if let Ok((_, r)) = list_items(ls, q + 1, items.push(ExprModel::Constant(v))) {
                    lemma_net_split(ls, open, close, q, q + 1, r);
                }
            },
            TokenModel::Name(name) => {
                lemma_list_balance(ls, open, close, q + 1, items.push(ExprModel::Variable(name)));
                lemma_list_end(ls, q + 1, items.push(ExprModel::Variable(name)));
                if let Ok((_, r)) = list_items(ls, q + 1, items.push(ExprModel::Variable(name))) {
                    lemma_net_split(ls, open, close, q, q + 1, r);
                }
            },
            TokenModel::Symbol(Token::Comma) => {
                lemma_list_balance(ls, open, close, q + 1, items);
                lemma_list_end(ls, q + 1, items);
                if let Ok((_, r)) = list_items(ls, q + 1, items) {
                    lemma_net_split(ls, open, close, q, q + 1, r);
                }
            },
            _ => {},
        }
    }
}

/// A parsed expression holds balanced brackets and no block end.
pub proof fn lemma_climb_balance(ls: Seq<(TokenModel, usize)>, open: Token, close: Token, pos: int, min: u8)
    requires
        bracket_pair(open, close),
    ensures
        climb(ls, pos, min) matches Ok((_, q)) ==> no_block_end(ls, pos, q) && net(ls, open, close, pos, q)
            == 0,
    decreases ls.len() - pos, 1int,
{
    lemma_primary_balance(ls, open, close, pos);
    lemma_primary_end(ls, pos);
    if let Ok((left, p)) = primary(ls, pos) {
        if pos < p <= ls.len() {
            lemma_climb_rest_balance(ls, open, close, left, p, min);
            lemma_climb_end(ls, pos, min);
            if let Ok((_, q)) = climb_rest(ls, left, p, min) {
                crate::grammar::lemma_climb_rest_end(ls, left, p, min);
                lemma_net_split(ls, open, close, pos, p, q);
            }
        }
    }
}

/// Extending a parsed operand keeps the brackets balanced.
pub proof fn lemma_climb_rest_balance(
    ls: Seq<(TokenModel, usize)>,
    open: Token,
    close: Token,
    left: ExprModel,
    p: int,
    min: u8,
)
    requires
        bracket_pair(open, close),
        0 < p <= ls.len(),
    ensures
        climb_rest(ls, left, p, min) matches Ok((_, q)) ==> no_block_end(ls, p, q) && net(
            ls,
            open,
            close,
            p,
            q,
        ) == 0,
    decreases ls.len() - p, 2int,
{
    if continues(ls, p, min) {
        let op = op_at(ls, p)->Some_0;
        assert(net(ls, open, close, p, p) == 0);
        assert(net(ls, open, close, p, p + 1) == weight(ls[p].0, open, close));
        lemma_climb_balance(ls, open, close, p + 1, stronger(precedence(op)));
        lemma_climb_end(ls, p + 1, stronger(precedence(op)));
        if let Ok((right, q1)) = climb(ls, p + 1, stronger(precedence(op))) {
            if p < q1 <= ls.len() {
                let joined = ExprModel::Binary(Box::new(left), op, Box::new(right));
                lemma_climb_rest_balance(ls, open, close, joined, q1, min);
                crate::grammar::lemma_climb_rest_end(ls, joined, q1, min);
                if let Ok((_, q)) = climb_rest(ls, joined, q1, min) {
                    lemma_net_split(ls, open, close, p, p + 1, q1);
                    lemma_net_split(ls, open, close, p, q1, q);
                }
            }
        }
    } else {
        assert(net(ls, open, close, p, p) == 0);
    }
}

/// A parsed whole expression holds balanced brackets and no block end.
pub proof fn lemma_whole_balance(ls: Seq<(TokenModel, usize)>, open: Token, close: Token, pos: int)
    requires
        bracket_pair(open, close),
    ensures
        expression_at(ls, pos) matches Ok((_, q)) ==> no_block_end(ls, pos, q) && net(
            ls,
            open,
            close,
            pos,
            q,
        ) == 0,
    decreases ls.len() - pos, 4int,
{
    lemma_climb_balance(ls, open, close, pos, 1);
}

/// Tokens whose brackets do not balance before the block end (or the end of
/// the tokens) fail to parse, with `Eof` or a syntax error: an unclosed `(` or
/// `[` anywhere, as in `(1 + 2`, `1 == (2` or `[1, 2`, never yields a tree.
pub proof fn unbalanced_brackets_fail(
    ls: Seq<(TokenModel, usize)>,
    pos: int,
    end: int,
    open: Token,
    close: Token,
)
    requires
        bracket_pair(open, close),
        0 <= pos <= end <= ls.len(),
        no_block_end(ls, pos, end),
        end == ls.len() || ls[end].0 == TokenModel::Symbol(Token::BlockEnd),
        net(ls, open, close, pos, end) != 0,
    ensures
        expression_at(ls, pos) matches Err(x) && parse_error(x),
{
    lemma_whole_errors(ls, pos);
    lemma_whole_balance(ls, open, close, pos);
    lemma_climb_end(ls, pos, 1);
    if let Ok((_, q)) = expression_at(ls, pos) {
        if q < end {
            assert(ls[q].0 == TokenModel::Symbol(Token::BlockEnd));
        } else if q > end {
            assert(ls[end].0 == TokenModel::Symbol(Token::BlockEnd));
        }
    }
}

} // verus!
