use vstd::prelude::*;

use crate::error::{Error, ErrorModel};
use crate::op::fits;
use crate::token::{lexemes, tmodel, Token, TokenModel, TokenWithContext};
use crate::value::{Decimal, Value, ValueModel};

verus! {

/// A decimal digit.
pub open spec fn is_digit(c: char) -> bool {
    '0' as u32 <= c as u32 <= '9' as u32
}

/// A character that may start a variable name: an ASCII letter or `_`.
pub open spec fn is_name_start(c: char) -> bool {
    ||| 'a' as u32 <= c as u32 <= 'z' as u32
    ||| 'A' as u32 <= c as u32 <= 'Z' as u32
    ||| c == '_'
}

/// Whitespace between tokens.
pub open spec fn is_blank(c: char) -> bool {
    c == ' ' || c == '\t' || c == '\n' || c == '\r'
}

/// The token of a two-character operator or delimiter.
pub open spec fn pair_of(c: char, d: char) -> Option<Token> {
    if c == '<' && d == '%' {
        Some(Token::BlockStart)
    } else if c == '%' && d == '>' {
        Some(Token::BlockEnd)
    } else if c == '=' && d == '=' {
        Some(Token::Equals)
    } else if c == '!' && d == '=' {
        Some(Token::NotEquals)
    } else if c == '&' && d == '&' {
        Some(Token::And)
    } else if c == '|' && d == '|' {
        Some(Token::Or)
    } else if c == '>' && d == '=' {
        Some(Token::GreaterEqualThan)
    } else if c == '<' && d == '=' {
        Some(Token::LessEqualThan)
    } else {
        None
    }
}

/// The token of a one-character operator or delimiter.
pub open spec fn single_of(c: char) -> Option<Token> {
    if c == '!' {
        Some(Token::Not)
    } else if c == '+' {
        Some(Token::Plus)
    } else if c == '-' {
        Some(Token::Minus)
    } else if c == '*' {
        Some(Token::Mult)
    } else if c == '/' {
        Some(Token::Div)
    } else if c == '%' {
        Some(Token::Mod)
    } else if c == '>' {
        Some(Token::GreaterThan)
    } else if c == '<' {
        Some(Token::LessThan)
    } else if c == '(' {
        Some(Token::RoundBracketStart)
    } else if c == ')' {
        Some(Token::RoundBracketEnd)
    } else if c == '[' {
        Some(Token::SquareBracketStart)
    } else if c == ']' {
        Some(Token::SquareBracketEnd)
    } else if c == ',' {
        Some(Token::Comma)
    } else {
        None
    }
}

/// The value of a decimal digit.
pub open spec fn digit_value(c: char) -> int {
    c as u32 as int - '0' as u32 as int
}

/// The index of the first character at or after `j` that is not a digit.
pub open spec fn digits_end(s: Seq<char>, j: int) -> int
    decreases s.len() - j,
{
    if j < 0 || j >= s.len() || !is_digit(s[j]) {
        j
    } else {
        digits_end(s, j + 1)
    }
}

/// `v` followed by the digits `s[a..b]`, read as one decimal number.
pub open spec fn fold_digits(v: int, s: Seq<char>, a: int, b: int) -> int
    decreases b - a,
{
    if a < 0 || a >= b || a >= s.len() {
        v
    } else {
        fold_digits(v * 10 + digit_value(s[a]), s, a + 1, b)
    }
}

/// The index of the first `"` at or after `j`, or the length of `s`.
pub open spec fn quote_end(s: Seq<char>, j: int) -> int
    decreases s.len() - j,
{
    if j < 0 || j >= s.len() || s[j] == '"' {
        j
    } else {
        quote_end(s, j + 1)
    }
}

/// The index of the first character at or after `j` that cannot continue a name.
pub open spec fn name_end(s: Seq<char>, j: int) -> int
    decreases s.len() - j,
{
    if j < 0 || j >= s.len() || !(is_name_start(s[j]) || is_digit(s[j])) {
        j
    } else {
        name_end(s, j + 1)
    }
}

/// The number starting at `i` (digits, then optionally a point and more
/// digits) and the index after it. Digits that do not fit in 64 bits are a
/// lexical error at `i`.
pub open spec fn number_at(s: Seq<char>, i: int) -> Result<(TokenModel, int), ErrorModel> {
    let e1 = digits_end(s, i);
    let whole = fold_digits(0, s, i, e1);
    if e1 + 1 < s.len() && s[e1] == '.' && is_digit(s[e1 + 1]) {
        let e2 = digits_end(s, e1 + 1);
        let digits = fold_digits(whole, s, e1 + 1, e2);
        let scale = e2 - e1 - 1;
        if fits(whole) && fits(digits) && scale <= u32::MAX {
            Ok(
                (
                    TokenModel::Literal(
                        ValueModel::Float(Decimal { digits: digits as i64, scale: scale as u32 }),
                    ),
                    e2,
                ),
            )
        } else {
            Err(ErrorModel::Lexical(i as usize))
        }
    } else if fits(whole) {
        Ok((TokenModel::Literal(ValueModel::Integer(whole as i64)), e1))
    } else {
        Err(ErrorModel::Lexical(i as usize))
    }
}

/// What the text at `i` starts with: a token (or `None` for whitespace) and
/// the index after it, or a lexical error at `i`.
pub open spec fn step(s: Seq<char>, i: int) -> Result<(Option<TokenModel>, int), ErrorModel> {
    let c = s[i];
    if is_blank(c) {
        Ok((None, i + 1))
    } else if i + 1 < s.len() && pair_of(c, s[i + 1]) is Some {
        Ok((Some(TokenModel::Symbol(pair_of(c, s[i + 1])->Some_0)), i + 2))
    } else if single_of(c) is Some {
        Ok((Some(TokenModel::Symbol(single_of(c)->Some_0)), i + 1))
    } else if is_digit(c) {
        match number_at(s, i) {
            Ok((t, j)) => Ok((Some(t), j)),
            Err(x) => Err(x),
        }
    } else if c == '"' {
        let j = quote_end(s, i + 1);
        if j >= s.len() {
            Err(ErrorModel::Lexical(i as usize))
        } else {
            Ok((Some(TokenModel::Literal(ValueModel::Text(s.subrange(i + 1, j)))), j + 1))
        }
    } else if is_name_start(c) {
        let j = name_end(s, i + 1);
        let word = s.subrange(i, j);
        if word == "true"@ {
            Ok((Some(TokenModel::Literal(ValueModel::Boolean(true))), j))
        } else if word == "false"@ {
            Ok((Some(TokenModel::Literal(ValueModel::Boolean(false))), j))
        } else {
            Ok((Some(TokenModel::Name(word)), j))
        }
    } else {
        Err(ErrorModel::Lexical(i as usize))
    }
}

/// The tokens of `s` from index `i` on, each with the index where it starts,
/// or the first lexical error.
pub open spec fn lex(s: Seq<char>, i: int) -> Result<Seq<(TokenModel, usize)>, ErrorModel>
    decreases s.len() - i,
{
    if i < 0 || i >= s.len() {
        Ok(Seq::empty())
    } else {
        match step(s, i) {
            Err(x) => Err(x),
            Ok((t, j)) => if j <= i || j > s.len() {
                Err(ErrorModel::Lexical(i as usize))
            } else {
                match lex(s, j) {
                    Err(x) => Err(x),
                    Ok(rest) => Ok(
                        match t {
                            Some(tok) => seq![(tok, i as usize)] + rest,
                            None => rest,
                        },
                    ),
                }
            },
        }
    }
}

/// The model of a tokenizer result.
pub open spec fn lexed(r: Result<Vec<TokenWithContext>, Error>) -> Result<Seq<(TokenModel, usize)>, ErrorModel> {
    match r {
        Ok(v) => Ok(lexemes(v@)),
        Err(x) => Err(x@),
    }
}

fn digit_of(c: char) -> (r: bool)
    ensures
        r == is_digit(c),
{
    '0' as u32 <= c as u32 && c as u32 <= '9' as u32
}

fn name_start(c: char) -> (r: bool)
    ensures
        r == is_name_start(c),
{
    ('a' as u32 <= c as u32 && c as u32 <= 'z' as u32) || ('A' as u32 <= c as u32 && c as u32
        <= 'Z' as u32) || c == '_'
}

/// The token of a two-character operator or delimiter.
fn pair_token(c: char, d: char) -> (r: Option<Token>)
    ensures
        r == pair_of(c, d),
{
    if c == '<' && d == '%' {
        Some(Token::BlockStart)
    } else if c == '%' && d == '>' {
        Some(Token::BlockEnd)
    } else if c == '=' && d == '=' {
        Some(Token::Equals)
    } else if c == '!' && d == '=' {
        Some(Token::NotEquals)
    } else if c == '&' && d == '&' {
        Some(Token::And)
    } else if c == '|' && d == '|' {
        Some(Token::Or)
    } else if c == '>' && d == '=' {
        Some(Token::GreaterEqualThan)
    } else if c == '<' && d == '=' {
        Some(Token::LessEqualThan)
    } else {
        None
    }
}

/// The token of a one-character operator or delimiter.
fn single_token(c: char) -> (r: Option<Token>)
    ensures
        r == single_of(c),
{
    if c == '!' {
        Some(Token::Not)
    } else if c == '+' {
        Some(Token::Plus)
    } else if c == '-' {
        Some(Token::Minus)
    } else if c == '*' {
        Some(Token::Mult)
    } else if c == '/' {
        Some(Token::Div)
    } else if c == '%' {
        Some(Token::Mod)
    } else if c == '>' {
        Some(Token::GreaterThan)
    } else if c == '<' {
        Some(Token::LessThan)
    } else if c == '(' {
        Some(Token::RoundBracketStart)
    } else if c == ')' {
        Some(Token::RoundBracketEnd)
    } else if c == '[' {
        Some(Token::SquareBracketStart)
    } else if c == ']' {
        Some(Token::SquareBracketEnd)
    } else if c == ',' {
        Some(Token::Comma)
    } else {
        None
    }
}

/// Reading more digits never makes a number smaller.
proof fn lemma_fold_grows(v: int, s: Seq<char>, a: int, b: int)
    requires
        v >= 0,
        forall|k: int| a <= k < b && 0 <= k < s.len() ==> is_digit(#[trigger] s[k]),
    ensures
        fold_digits(v, s, a, b) >= v,
    decreases b - a,
{
    if !(a < 0 || a >= b || a >= s.len()) {
        lemma_fold_grows(v * 10 + digit_value(s[a]), s, a + 1, b);
    }
}

/// The characters from `j` up to `digits_end(s, j)` are digits, and the one
/// there, if any, is not.
proof fn lemma_digits_end(s: Seq<char>, j: int)
    requires
        0 <= j <= s.len(),
    ensures
        j <= digits_end(s, j) <= s.len(),
        forall|k: int| j <= k < digits_end(s, j) ==> is_digit(#[trigger] s[k]),
        digits_end(s, j) < s.len() ==> !is_digit(s[digits_end(s, j)]),
    decreases s.len() - j,
{
    if j < s.len() && is_digit(s[j]) {
        lemma_digits_end(s, j + 1);
    }
}

/// `quote_end` and `name_end` stay within the text and do not go back.
proof fn lemma_scan_ends(s: Seq<char>, j: int)
    requires
        0 <= j <= s.len(),
    ensures
        j <= quote_end(s, j) <= s.len(),
        j <= name_end(s, j) <= s.len(),
    decreases s.len() - j,
{
    if j < s.len() {
        lemma_scan_ends(s, j + 1);
    }
}

/// Each step of the tokenizer moves forward and stays within the text.
proof fn lemma_step_advances(s: Seq<char>, i: int)
    requires
        0 <= i < s.len(),
    ensures
        step(s, i) matches Ok((_, j)) ==> i < j <= s.len(),
{
    lemma_scan_ends(s, i + 1);
    lemma_digits_end(s, i);
    let e1 = digits_end(s, i);
    if e1 + 1 < s.len() && is_digit(s[i]) {
        lemma_digits_end(s, e1 + 1);
    }
}

/// Reads the number that starts at `start` (see [`number_at`]).
fn read_number(source: &str, n: usize, start: usize) -> (r: Result<(Value, usize), Error>)
    requires
        n == source@.len(),
        start < n,
        is_digit(source@[start as int]),
    ensures
        match number_at(source@, start as int) {
            Ok((t, e)) => r matches Ok((v, end)) && tmodel(Token::Value(v)) == t && end == e,
            Err(x) => r matches Err(y) && y@ == x,
        },
{
    let ghost s = source@;
    let ghost e1 = digits_end(s, start as int);
    let first = source.get_char(start);
    let mut digits: i64 = (first as u32 - '0' as u32) as i64;
    let mut j: usize = start + 1;
    proof {
        lemma_digits_end(s, start as int);
        lemma_digits_end(s, start + 1);
    }
    while j < n
        invariant
            start < j <= n == s.len(),
            s == source@,
            digits >= 0,
            e1 == digits_end(s, start as int),
            e1 == digits_end(s, j as int),
            j <= e1 <= n,
            forall|k: int| j <= k < e1 ==> is_digit(#[trigger] s[k]),
            fold_digits(0, s, start as int, e1) == fold_digits(digits as int, s, j as int, e1),
        ensures
            j as int == e1,
            start < j <= n == s.len(),
            s == source@,
            digits >= 0,
            fold_digits(0, s, start as int, e1) == fold_digits(digits as int, s, j as int, e1),
        decreases n - j,
    {
        let c = source.get_char(j);
        if !digit_of(c) {
            break;
        }
        proof {
            lemma_digits_end(s, j + 1);
        }
        let d = (c as u32 - '0' as u32) as i64;
        let next = match digits.checked_mul(10) {
            Some(m) => m.checked_add(d),
            None => None,
        };
        assert(j + 1 <= e1);
        assert(digit_value(s[j as int]) == d as int);
        assert(fold_digits(digits as int, s, j as int, e1) == fold_digits(
            digits * 10 + d,
            s,
            j + 1,
            e1,
        ));
        match next {
            Some(v) => {
                digits = v;
            },
            None => {
                proof {
                    lemma_fold_grows(digits * 10 + d, s, j + 1, e1);
                }
                return Err(Error::Lexical(start));
            },
        }
        j = j + 1;
    }
    assert(j as int == e1);
    assert(fold_digits(digits as int, s, j as int, e1) == digits as int);
    let ghost whole = digits as int;
    if j < n && n - j > 1 && source.get_char(j) == '.' && digit_of(source.get_char(j + 1)) {
        let ghost e2 = digits_end(s, j + 1);
        let mut scale: u32 = 0;
        j = j + 1;
        proof {
            lemma_digits_end(s, j as int);
        }
        while j < n
            invariant
                e1 + 1 <= j <= n == s.len(),
                e1 + 1 < s.len(),
                s[e1] == '.',
                is_digit(s[e1 + 1]),
                e1 == digits_end(s, start as int),
                whole == fold_digits(0, s, start as int, e1),
                s == source@,
                digits >= 0,
                whole >= 0,
                fits(whole),
                scale == j - e1 - 1,
                e2 == digits_end(s, e1 + 1),
                e2 == digits_end(s, j as int),
                j <= e2 <= n,
                forall|k: int| j <= k < e2 ==> is_digit(#[trigger] s[k]),
                fold_digits(whole, s, e1 + 1, e2) == fold_digits(digits as int, s, j as int, e2),
            ensures
                j as int == e2,
                scale == j - e1 - 1,
                s == source@,
                fits(whole),
                fold_digits(whole, s, e1 + 1, e2) == fold_digits(digits as int, s, j as int, e2),
            decreases n - j,
        {
            let c = source.get_char(j);
            if !digit_of(c) {
                break;
            }
            proof {
                lemma_digits_end(s, j + 1);
            }
            let d = (c as u32 - '0' as u32) as i64;
            let next = match digits.checked_mul(10) {
                Some(m) => m.checked_add(d),
                None => None,
            };
            assert(j + 1 <= e2);
            assert(digit_value(s[j as int]) == d as int);
            assert(fold_digits(digits as int, s, j as int, e2) == fold_digits(
                digits * 10 + d,
                s,
                j + 1,
                e2,
            ));
            match next {
                Some(v) => {
                    digits = v;
                },
                None => {
                    proof {
                        lemma_fold_grows(digits * 10 + d, s, j + 1, e2);
                    }
                    return Err(Error::Lexical(start));
                },
            }
            if scale == u32::MAX {
                return Err(Error::Lexical(start));
            }
            scale = scale + 1;
            j = j + 1;
        }
        assert(j as int == e2);
        assert(fold_digits(digits as int, s, j as int, e2) == digits as int);
        Ok((Value::Float(Decimal { digits, scale }), j))
    } else {
        Ok((Value::Integer(digits), j))
    }
}

/// Reads what the text at `i` starts with (see [`step`]): a token, or `None`
/// for whitespace, and the index after it.
#[verifier::rlimit(50)]
fn next_token(source: &str, n: usize, i: usize) -> (r: Result<(Option<Token>, usize), Error>)
    requires
        n == source@.len(),
        i < n,
    ensures
        match step(source@, i as int) {
            Ok((t, j)) => r matches Ok((tok, k)) && k == j && match tok {
                Some(x) => t == Some(tmodel(x)),
                None => t is None,
            },
            Err(x) => r matches Err(y) && y@ == x,
        },
{
    let ghost s = source@;
    let c = source.get_char(i);
    if c == ' ' || c == '\t' || c == '\n' || c == '\r' {
        return Ok((None, i + 1));
    }
    let pair = if i + 1 < n {
        pair_token(c, source.get_char(i + 1))
    } else {
        None
    };
    if let Some(t) = pair {
        return Ok((Some(t), i + 2));
    }
    if let Some(t) = single_token(c) {
        return Ok((Some(t), i + 1));
    }
    if digit_of(c) {
        return match read_number(source, n, i) {
            Ok((v, end)) => Ok((Some(Token::Value(v)), end)),
            Err(x) => Err(x),
        };
    }
    if c == '"' {
        let mut j: usize = i + 1;
        while j < n && source.get_char(j) != '"'
            invariant
                i < j <= n == s.len(),
                s == source@,
                quote_end(s, i + 1) == quote_end(s, j as int),
            decreases n - j,
        {
            j = j + 1;
        }
        if j >= n {
            return Err(Error::Lexical(i));
        }
        let text = String::from_str(source.substring_char(i + 1, j));
        return Ok((Some(Token::Value(Value::String(text))), j + 1));
    }
    if name_start(c) {
        let mut j: usize = i + 1;
        while j < n && (name_start(source.get_char(j)) || digit_of(source.get_char(j)))
            invariant
                i < j <= n == s.len(),
                s == source@,
                name_end(s, i + 1) == name_end(s, j as int),
            decreases n - j,
        {
            j = j + 1;
        }
        let word = String::from_str(source.substring_char(i, j));
        let token = if word == String::from_str("true") {
            Token::Value(Value::Boolean(true))
        } else if word == String::from_str("false") {
            Token::Value(Value::Boolean(false))
        } else {
            Token::Variable(word)
        };
        return Ok((Some(token), j));
    }
    Err(Error::Lexical(i))
}

/// Splits template source into tokens (see [`lex`]): `<%` and `%>`,
/// operators, brackets, commas, numbers, double-quoted strings, `true`,
/// `false` and variable names. Whitespace separates tokens. Each token records
/// the index of its first character; an unreadable or unterminated token is
/// an error at its index.
pub fn tokenize(source: &str) -> (r: Result<Vec<TokenWithContext>, Error>)
    ensures
        lexed(r) == lex(source@, 0),
{
    let ghost s = source@;
    let n = source.unicode_len();
    let mut out: Vec<TokenWithContext> = Vec::new();
    let mut i: usize = 0;
    assert(lexemes(out@) =~= Seq::<(TokenModel, usize)>::empty());
    proof {
        if let Ok(rest) = lex(s, 0) {
            assert(lexemes(out@) + rest =~= rest);
        }
    }
    while i < n
        invariant
            i <= n == s.len(),
            s == source@,
            lex(s, 0) == match lex(s, i as int) {
                Ok(rest) => Ok(lexemes(out@) + rest),
                Err(x) => Err(x),
            },
        decreases n - i,
    {
        let start = i;
        proof {
            lemma_step_advances(s, i as int);
        }
        match next_token(source, n, i) {
            Err(x) => {
                return Err(x);
            },
            Ok((None, next)) => {
                i = next;
            },
            Ok((Some(token), next)) => {
                let ghost before = out@;
                out.push(TokenWithContext::new(token, start));
                proof {
                    assert(lexemes(out@) =~= lexemes(before) + seq![(tmodel(token), start)]);
                    if let Ok(rest) = lex(s, next as int) {
                        assert(lexemes(out@) + rest =~= lexemes(before) + (seq![(tmodel(token), start)] + rest));
                    }
                }
                i = next;
            },
        }
    }
    assert(lexemes(out@) + Seq::<(TokenModel, usize)>::empty() =~= lexemes(out@));
    Ok(out)
}

} // verus!
