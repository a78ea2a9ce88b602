use vstd::prelude::*;

use crate::error::{Error, ErrorModel};
use crate::token::Token;
use crate::value::{truthy, Decimal, Value, ValueModel};

verus! {

/// The operators of the expression language.
#[derive(Debug, Clone, Copy, PartialEq, Eq, Structural)]
pub enum Op {
    Not,
    And,
    Or,
    Add,
    Sub,
    Mult,
    Div,
    Mod,
    Equals,
    NotEquals,
    GreaterThan,
    GreaterEqualThan,
    LessThan,
    LessEqualThan,
}

/// Binding strength, loosest first: `||`, `&&`, the comparisons, `+ -`,
/// `* / %`; `!` is prefix only and binds tightest.
pub open spec fn precedence(op: Op) -> u8 {
    match op {
        Op::Or => 1,
        Op::And => 2,
        Op::Equals | Op::NotEquals | Op::GreaterThan | Op::GreaterEqualThan | Op::LessThan
        | Op::LessEqualThan => 3,
        Op::Add | Op::Sub => 4,
        Op::Mult | Op::Div | Op::Mod => 5,
        Op::Not => 6,
    }
}

/// The operator a token stands for, if any.
pub open spec fn op_of(token: Token) -> Option<Op> {
    match token {
        Token::Not => Some(Op::Not),
        Token::And => Some(Op::And),
        Token::Or => Some(Op::Or),
        Token::Plus => Some(Op::Add),
        Token::Minus => Some(Op::Sub),
        Token::Mult => Some(Op::Mult),
        Token::Div => Some(Op::Div),
        Token::Mod => Some(Op::Mod),
        Token::Equals => Some(Op::Equals),
        Token::NotEquals => Some(Op::NotEquals),
        Token::GreaterThan => Some(Op::GreaterThan),
        Token::GreaterEqualThan => Some(Op::GreaterEqualThan),
        Token::LessThan => Some(Op::LessThan),
        Token::LessEqualThan => Some(Op::LessEqualThan),
        _ => None,
    }
}

/// Lexicographic order of texts: negative, zero or positive as `a` comes
/// before, equals or comes after `b`.
pub open spec fn text_order(a: Seq<char>, b: Seq<char>) -> int
    decreases a.len(),
{
    if a.len() == 0 && b.len() == 0 {
        0
    } else if a.len() == 0 {
        -1
    } else if b.len() == 0 {
        1
    } else if a[0] != b[0] {
        if (a[0] as u32) < (b[0] as u32) {
            -1
        } else {
            1
        }
    } else {
        text_order(a.drop_first(), b.drop_first())
    }
}

/// Ten to the power `k`.
pub open spec fn pow10(k: nat) -> int
    decreases k,
{
    if k == 0 {
        1
    } else {
        10 * pow10((k - 1) as nat)
    }
}

/// An integer that fits in 64 bits.
pub open spec fn fits(n: int) -> bool {
    i64::MIN <= n <= i64::MAX
}

/// The larger of two scales.
pub open spec fn max_scale(a: nat, b: nat) -> nat {
    if a >= b {
        a
    } else {
        b
    }
}

/// -1, 0 or 1 as `n` is negative, zero or positive.
pub open spec fn sign(n: int) -> int {
    if n < 0 {
        -1
    } else if n == 0 {
        0
    } else {
        1
    }
}

/// A number as its digits and decimal scale: an integer has scale zero.
pub open spec fn numeric(v: ValueModel) -> Option<(int, nat)> {
    match v {
        ValueModel::Integer(n) => Some((n as int, 0)),
        ValueModel::Float(d) => Some((d.digits as int, d.scale as nat)),
        _ => None,
    }
}

/// An integer result read as the digits of a decimal of scale `s`.
pub open spec fn rescaled(r: Result<ValueModel, ErrorModel>, s: nat) -> Result<ValueModel, ErrorModel> {
    match r {
        Ok(ValueModel::Integer(n)) => Ok(ValueModel::Float(Decimal { digits: n, scale: s as u32 })),
        _ => r,
    }
}

/// Arithmetic where at least one operand is a decimal, exact where the result
/// fits: both operands are brought to the larger scale (the digits of an
/// integer have scale zero) and the integer operation is applied to their
/// digits. A product's scale is the sum of the scales; a quotient keeps the
/// larger scale and rounds toward zero. Digits that do not fit in 64 bits on
/// the way are an overflow.
pub open spec fn decimal_arithmetic(op: Op, da: int, sa: nat, db: int, sb: nat) -> Result<
    ValueModel,
    ErrorModel,
> {
    let s = max_scale(sa, sb);
    let x = da * pow10((s - sa) as nat);
    let y = db * pow10((s - sb) as nat);
    match op {
        Op::Mult => if sa + sb > u32::MAX {
            Err(ErrorModel::Overflow)
        } else {
            rescaled(arithmetic(Op::Mult, da, db), sa + sb)
        },
        Op::Div => if db == 0 {
            Err(ErrorModel::DivisionByZero)
        } else if !fits(da * pow10((s + sb - sa) as nat)) {
            Err(ErrorModel::Overflow)
        } else {
            rescaled(arithmetic(Op::Div, da * pow10((s + sb - sa) as nat), db), s)
        },
        _ => if !fits(x) || !fits(y) {
            Err(ErrorModel::Overflow)
        } else {
            rescaled(arithmetic(op, x, y), s)
        },
    }
}

/// How two values order: numbers by value (an integer and a decimal too),
/// booleans with `false` first, texts lexicographically. Any other pair has
/// no order.
pub open spec fn order(l: ValueModel, r: ValueModel) -> Option<int> {
    match (numeric(l), numeric(r)) {
        (Some((da, sa)), Some((db, sb))) => {
            let s = max_scale(sa, sb);
            Some(sign(da * pow10((s - sa) as nat) - db * pow10((s - sb) as nat)))
        },
        _ => order_other(l, r),
    }
}

/// Equality of values: numbers by value (an integer and a decimal too, and
/// `2.5` equals `2.50`), lists element by element, anything else when equal;
/// values of different kinds are never equal.
pub open spec fn same_value(l: ValueModel, r: ValueModel) -> bool
    decreases l, 0nat,
{
    if numeric(l) is Some && numeric(r) is Some {
        order(l, r) == Some(0int)
    } else {
        match (l, r) {
            (ValueModel::List(a), ValueModel::List(b)) => a.len() == b.len() && same_prefix(
                a,
                b,
                a.len(),
            ),
            _ => l == r,
        }
    }
}

/// The first `n` elements of two lists are pairwise equal values.
pub open spec fn same_prefix(a: Seq<ValueModel>, b: Seq<ValueModel>, n: nat) -> bool
    decreases a, n,
{
    if n == 0 || n > a.len() || n > b.len() {
        n == 0
    } else {
        same_prefix(a, b, (n - 1) as nat) && same_value(a[n - 1], b[n - 1])
    }
}

/// How two values that are not both numbers order.
pub open spec fn order_other(l: ValueModel, r: ValueModel) -> Option<int> {
    match (l, r) {
        (ValueModel::Boolean(a), ValueModel::Boolean(b)) => Some(
            if a == b {
                0
            } else if !a {
                -1
            } else {
                1
            },
        ),
        (ValueModel::Text(a), ValueModel::Text(b)) => Some(text_order(a, b)),
        _ => None,
    }
}

/// Integer division rounding toward zero, as Rust's `/` does.
pub open spec fn div_toward_zero(a: int, b: int) -> int {
    if a >= 0 && b > 0 {
        a / b
    } else if a < 0 && b < 0 {
        (-a) / (-b)
    } else if a < 0 {
        -((-a) / b)
    } else {
        -(a / (-b))
    }
}

/// An integer result that must fit in 64 bits.
pub open spec fn checked(n: int) -> Result<ValueModel, ErrorModel> {
    if i64::MIN <= n <= i64::MAX {
        Ok(ValueModel::Integer(n as i64))
    } else {
        Err(ErrorModel::Overflow)
    }
}

/// Integer arithmetic: exact, with overflow and division by zero as errors;
/// `/` rounds toward zero and `%` takes the sign of the dividend.
pub open spec fn arithmetic(op: Op, a: int, b: int) -> Result<ValueModel, ErrorModel> {
    match op {
        Op::Add => checked(a + b),
        Op::Sub => checked(a - b),
        Op::Mult => checked(a * b),
        Op::Div => if b == 0 {
            Err(ErrorModel::DivisionByZero)
        } else {
            checked(div_toward_zero(a, b))
        },
        _ => if b == 0 {
            Err(ErrorModel::DivisionByZero)
        } else {
            checked(a - b * div_toward_zero(a, b))
        },
    }
}

/// What a binary operator gives on two values.
pub open spec fn binary_result(op: Op, l: ValueModel, r: ValueModel) -> Result<
    ValueModel,
    ErrorModel,
> {
    match op {
        Op::Equals => Ok(ValueModel::Boolean(same_value(l, r))),
        Op::NotEquals => Ok(ValueModel::Boolean(!same_value(l, r))),
        Op::And => Ok(ValueModel::Boolean(truthy(l) && truthy(r))),
        Op::Or => Ok(ValueModel::Boolean(truthy(l) || truthy(r))),
        Op::LessThan | Op::LessEqualThan | Op::GreaterThan | Op::GreaterEqualThan => match order(
            l,
            r,
        ) {
            None => Err(ErrorModel::TypeError),
            Some(c) => Ok(
                ValueModel::Boolean(
                    match op {
                        Op::LessThan => c < 0,
                        Op::LessEqualThan => c <= 0,
                        Op::GreaterThan => c > 0,
                        _ => c >= 0,
                    },
                ),
            ),
        },
        Op::Add | Op::Sub | Op::Mult | Op::Div | Op::Mod => match (l, r) {
            (ValueModel::Integer(a), ValueModel::Integer(b)) => arithmetic(op, a as int, b as int),
            _ => match (numeric(l), numeric(r)) {
                (Some((da, sa)), Some((db, sb))) => decimal_arithmetic(op, da, sa, db, sb),
                _ => Err(ErrorModel::TypeError),
            },
        },
        Op::Not => Err(ErrorModel::UnsupportedOperation),
    }
}

/// What a prefix operator gives on a value: `!` negates truthiness, `-`
/// negates a number, `+` keeps it.
pub open spec fn unary_result(op: Op, v: ValueModel) -> Result<ValueModel, ErrorModel> {
    match op {
        Op::Not => Ok(ValueModel::Boolean(!truthy(v))),
        Op::Sub => match v {
            ValueModel::Integer(n) => checked(-(n as int)),
            ValueModel::Float(d) => if d.digits == i64::MIN {
                Err(ErrorModel::Overflow)
            } else {
                Ok(ValueModel::Float(Decimal { digits: (-d.digits) as i64, scale: d.scale }))
            },
            _ => Err(ErrorModel::TypeError),
        },
        Op::Add => match v {
            ValueModel::Integer(_) | ValueModel::Float(_) => Ok(v),
            _ => Err(ErrorModel::TypeError),
        },
        _ => Err(ErrorModel::UnsupportedOperation),
    }
}

/// The product of the divisor and the quotient lies between zero and the dividend.
proof fn lemma_div_product(a: int, b: int)
    requires
        b != 0,
    ensures
        a >= 0 ==> 0 <= b * div_toward_zero(a, b) <= a,
        a < 0 ==> a <= b * div_toward_zero(a, b) <= 0,
{
    let q = div_toward_zero(a, b);
    if a >= 0 && b > 0 {
        assert(0 <= b * (a / b) <= a) by (nonlinear_arith)
            requires
                a >= 0,
                b > 0,
        ;
    } else if a < 0 && b < 0 {
        let (x, y) = (-a, -b);
        assert(0 <= y * (x / y) <= x) by (nonlinear_arith)
            requires
                x >= 0,
                y > 0,
        ;
        assert(b * q == -(y * (x / y))) by (nonlinear_arith)
            requires
                q == x / y,
                b == -y,
        ;
    } else if a < 0 {
        let x = -a;
        assert(0 <= b * (x / b) <= x) by (nonlinear_arith)
            requires
                x >= 0,
                b > 0,
        ;
        assert(b * q == -(b * (x / b))) by (nonlinear_arith)
            requires
                q == -(x / b),
        ;
    } else {
        let y = -b;
        assert(0 <= y * (a / y) <= a) by (nonlinear_arith)
            requires
                a >= 0,
                y > 0,
        ;
        assert(b * q == y * (a / y)) by (nonlinear_arith)
            requires
                q == -(a / y),
                b == -y,
        ;
    }
}

/// A quotient rounded toward zero fits in 64 bits unless the divisor is -1.
proof fn lemma_div_fits(a: int, b: int)
    requires
        b != 0,
        b != -1,
        i64::MIN <= a <= i64::MAX,
    ensures
        i64::MIN <= div_toward_zero(a, b) <= i64::MAX,
{
    let q = div_toward_zero(a, b);
    lemma_div_product(a, b);
    if b > 0 {
        if a >= 0 {
            assert(0 <= q <= a) by (nonlinear_arith)
                requires
                    0 <= b * q <= a,
                    b >= 1,
            ;
        } else {
            assert(a <= q <= 0) by (nonlinear_arith)
                requires
                    a <= b * q <= 0,
                    b >= 1,
            ;
        }
    } else {
        if a >= 0 {
            assert(-a <= q <= 0) by (nonlinear_arith)
                requires
                    0 <= b * q <= a,
                    b <= -2,
            ;
        } else {
            assert(0 <= q <= -a / 2) by (nonlinear_arith)
                requires
                    a <= b * q <= 0,
                    b <= -2,
            ;
        }
    }
}

/// Integer arithmetic on two 64-bit integers, checked.
fn integer_arithmetic(op: Op, a: i64, b: i64) -> (r: Result<Value, Error>)
    requires
        op == Op::Add || op == Op::Sub || op == Op::Mult || op == Op::Div || op == Op::Mod,
    ensures
        crate::error::outcome(r) == arithmetic(op, a as int, b as int),
{
    match op {
        Op::Add => match a.checked_add(b) {
            Some(n) => {
                assert(n == a + b);
                Ok(Value::Integer(n))
            },
            None => {
                assert(a + b > i64::MAX || a + b < i64::MIN);
                Err(Error::Overflow)
            },
        },
        Op::Sub => match a.checked_sub(b) {
            Some(n) => Ok(Value::Integer(n)),
            None => Err(Error::Overflow),
        },
        Op::Mult => match a.checked_mul(b) {
            Some(n) => Ok(Value::Integer(n)),
            None => Err(Error::Overflow),
        },
        Op::Div => {
            if b == 0 {
                return Err(Error::DivisionByZero);
            }
            match a.checked_div(b) {
                Some(n) => Ok(Value::Integer(n)),
                None => Err(Error::Overflow),
            }
        },
        _ => {
            if b == 0 {
                return Err(Error::DivisionByZero);
            }
            if b == -1 {
                let ghost q = div_toward_zero(a as int, b as int);
                assert((a as int) / 1 == a as int);
                assert((-(a as int)) / 1 == -(a as int));
                assert(q == -(a as int));
                assert(b as int * q == a as int) by (nonlinear_arith)
                    requires
                        b == -1,
                        q == -(a as int),
                ;
                assert(arithmetic(op, a as int, b as int) == checked(0));
                return Ok(Value::Integer(0));
            }
            match a.checked_div(b) {
                Some(q) => {
                    proof {
                        lemma_div_product(a as int, b as int);
                    }
                    assert(q as int == div_toward_zero(a as int, b as int));
                    let p = b * q;
                    Ok(Value::Integer(a - p))
                },
                None => {
                    proof {
                        lemma_div_fits(a as int, b as int);
                    }
                    Err(Error::Overflow)
                },
            }
        },
    }
}

/// Powers of ten are positive and grow with the exponent.
proof fn lemma_pow10_grows(a: nat, b: nat)
    requires
        a <= b,
    ensures
        1 <= pow10(a) <= pow10(b),
    decreases b,
{
    if b > a {
        lemma_pow10_grows(a, (b - 1) as nat);
    } else if a > 0 {
        lemma_pow10_grows((a - 1) as nat, (a - 1) as nat);
    }
}

/// `d * 10^k`, or `None` where it does not fit in 64 bits.
fn align(d: i64, k: u64) -> (r: Option<i64>)
    ensures
        match r {
            Some(x) => x == d * pow10(k as nat),
            None => !fits(d * pow10(k as nat)),
        },
{
    if d == 0 {
        assert(0 * pow10(k as nat) == 0);
        return Some(0);
    }
    let mut x: i64 = d;
    let mut j: u64 = 0;
    while j < k
        invariant
            j <= k,
            d != 0,
            x == d * pow10(j as nat),
        decreases k - j,
    {
        assert(d * pow10((j + 1) as nat) == 10 * x) by (nonlinear_arith)
            requires
                pow10((j + 1) as nat) == 10 * pow10(j as nat),
                x == d * pow10(j as nat),
        ;
        match x.checked_mul(10) {
            Some(y) => {
                x = y;
                j = j + 1;
            },
            None => {
                proof {
                    let p = pow10((j + 1) as nat);
                    let q = pow10(k as nat);
                    lemma_pow10_grows((j + 1) as nat, k as nat);
                    lemma_pow10_grows(0, j as nat);
                    if d > 0 {
                        assert(x > 0) by (nonlinear_arith)
                            requires
                                d > 0,
                                pow10(j as nat) >= 1,
                                x == d * pow10(j as nat),
                        ;
                        assert(d * p <= d * q) by (nonlinear_arith)
                            requires
                                d > 0,
                                p <= q,
                        ;
                    } else {
                        assert(x < 0) by (nonlinear_arith)
                            requires
                                d < 0,
                                pow10(j as nat) >= 1,
                                x == d * pow10(j as nat),
                        ;
                        assert(d * p >= d * q) by (nonlinear_arith)
                            requires
                                d < 0,
                                p <= q,
                        ;
                    }
                }
                return None;
            },
        }
    }
    Some(x)
}

/// Turns an integer result into a decimal of scale `s`.
fn with_scale(r: Result<Value, Error>, s: u32) -> (o: Result<Value, Error>)
    ensures
        crate::error::outcome(o) == rescaled(crate::error::outcome(r), s as nat),
{
    match r {
        Ok(Value::Integer(n)) => Ok(Value::Float(Decimal { digits: n, scale: s })),
        _ => r,
    }
}

/// Arithmetic where at least one operand is a decimal (see [`decimal_arithmetic`]).
fn decimal_arithmetic_of(op: Op, da: i64, sa: u32, db: i64, sb: u32) -> (r: Result<Value, Error>)
    requires
        op == Op::Add || op == Op::Sub || op == Op::Mult || op == Op::Div || op == Op::Mod,
    ensures
        crate::error::outcome(r) == decimal_arithmetic(op, da as int, sa as nat, db as int, sb as nat),
{
    let s: u32 = if sa >= sb {
        sa
    } else {
        sb
    };
    match op {
        Op::Mult => {
            if sa as u64 + sb as u64 > u32::MAX as u64 {
                return Err(Error::Overflow);
            }
            with_scale(integer_arithmetic(Op::Mult, da, db), sa + sb)
        },
        Op::Div => {
            if db == 0 {
                return Err(Error::DivisionByZero);
            }
            let k: u64 = s as u64 + sb as u64 - sa as u64;
            match align(da, k) {
                Some(n) => with_scale(integer_arithmetic(Op::Div, n, db), s),
                None => Err(Error::Overflow),
            }
        },
        _ => {
            match (align(da, (s - sa) as u64), align(db, (s - sb) as u64)) {
                (Some(x), Some(y)) => with_scale(integer_arithmetic(op, x, y), s),
                _ => Err(Error::Overflow),
            }
        },
    }
}

/// The order of two numbers given as digits and scales: -1, 0 or 1.
fn compare_numbers(da: i64, sa: u32, db: i64, sb: u32) -> (r: i8)
    ensures
        r as int == sign(
            da * pow10((max_scale(sa as nat, sb as nat) - sa) as nat) - db * pow10(
                (max_scale(sa as nat, sb as nat) - sb) as nat,
            ),
        ),
{
    let s: u32 = if sa >= sb {
        sa
    } else {
        sb
    };
    let ghost pa = pow10((s - sa) as nat);
    let ghost pb = pow10((s - sb) as nat);
    proof {
        lemma_pow10_grows(0, (s - sa) as nat);
        lemma_pow10_grows(0, (s - sb) as nat);
        assert(pow10(0) == 1);
    }
    match (align(da, (s - sa) as u64), align(db, (s - sb) as u64)) {
        (Some(x), Some(y)) => if x < y {
            -1
        } else if x == y {
            0
        } else {
            1
        },
        (None, _) => {
            proof {
                if s == sa {
                    assert(pa == pow10(0));
                    assert(da * pa == da) by (nonlinear_arith)
                        requires
                            pa == 1,
                    ;
                }
                assert(s == sb);
                assert(pb == pow10(0));
                assert(db * pb == db) by (nonlinear_arith)
                    requires
                        pb == 1,
                ;
                if da > 0 {
                    assert(da * pa > 0) by (nonlinear_arith)
                        requires
                            da > 0,
                            pa >= 1,
                    ;
                } else if da < 0 {
                    assert(da * pa < 0) by (nonlinear_arith)
                        requires
                            da < 0,
                            pa >= 1,
                    ;
                } else {
                    assert(da * pa == 0);
                }
            }
            if da > 0 {
                1
            } else {
                -1
            }
        },
        (Some(_), None) => {
            proof {
                if s == sb {
                    assert(pb == pow10(0));
                    assert(db * pb == db) by (nonlinear_arith)
                        requires
                            pb == 1,
                    ;
                }
                assert(s == sa);
                assert(pa == pow10(0));
                assert(da * pa == da) by (nonlinear_arith)
                    requires
                        pa == 1,
                ;
                if db > 0 {
                    assert(db * pb > 0) by (nonlinear_arith)
                        requires
                            db > 0,
                            pb >= 1,
                    ;
                } else if db < 0 {
                    assert(db * pb < 0) by (nonlinear_arith)
                        requires
                            db < 0,
                            pb >= 1,
                    ;
                } else {
                    assert(db * pb == 0);
                }
            }
            if db > 0 {
                -1
            } else {
                1
            }
        },
    }
}

/// A prefix of pairwise equal elements stays so when shortened.
proof fn lemma_same_prefix_shorter(a: Seq<ValueModel>, b: Seq<ValueModel>, k: nat, n: nat)
    requires
        k <= n,
        same_prefix(a, b, n),
    ensures
        same_prefix(a, b, k),
    decreases n - k,
{
    if k < n {
        lemma_same_prefix_shorter(a, b, k, (n - 1) as nat);
    }
}

/// Equality of values (see [`same_value`]).
fn values_equal(left: &Value, right: &Value) -> (r: bool)
    ensures
        r == same_value(left@, right@),
    decreases left,
{
    match (left, right) {
        (Value::Integer(a), Value::Integer(b)) => compare_numbers(*a, 0, *b, 0) == 0,
        (Value::Integer(a), Value::Float(b)) => compare_numbers(*a, 0, b.digits, b.scale) == 0,
        (Value::Float(a), Value::Integer(b)) => compare_numbers(a.digits, a.scale, *b, 0) == 0,
        (Value::Float(a), Value::Float(b)) => compare_numbers(a.digits, a.scale, b.digits, b.scale)
            == 0,
        (Value::List(x), Value::List(y)) => {
            if x.len() != y.len() {
                assert(left@->List_0.len() == x@.len());
                assert(right@->List_0.len() == y@.len());
                return false;
            }
            let mut i: usize = 0;
            assert(left@->List_0.len() == x@.len());
            assert(right@->List_0.len() == y@.len());
            while i < x.len()
                invariant
                    *left == Value::List(*x),
                    *right == Value::List(*y),
                    decreases_to!(*left => *x),
                    i <= x@.len(),
                    x@.len() == y@.len(),
                    left@->List_0.len() == x@.len(),
                    right@->List_0.len() == y@.len(),
                    same_prefix(left@->List_0, right@->List_0, i as nat),
                decreases x@.len() - i,
            {
                proof {
                    assert(decreases_to!(*x => x[i as int]));
                }
                if !values_equal(&x[i], &y[i]) {
                    proof {
                        assert(left@->List_0[i as int] == x@[i as int]@);
                        assert(right@->List_0[i as int] == y@[i as int]@);
                        assert(!same_prefix(left@->List_0, right@->List_0, (i + 1) as nat));
                        if same_prefix(left@->List_0, right@->List_0, x@.len() as nat) {
                            lemma_same_prefix_shorter(
                                left@->List_0,
                                right@->List_0,
                                (i + 1) as nat,
                                x@.len() as nat,
                            );
                        }
                    }
                    return false;
                }
                proof {
                    assert(left@->List_0[i as int] == x@[i as int]@);
                    assert(right@->List_0[i as int] == y@[i as int]@);
                }
                i = i + 1;
            }
            true
        },
        (Value::Boolean(a), Value::Boolean(b)) => *a == *b,
        (Value::String(a), Value::String(b)) => *a == *b,
        _ => false,
    }
}

/// Lexicographic comparison of two texts: -1, 0 or 1.
fn compare_text(a: &String, b: &String) -> (r: i8)
    ensures
        r as int == text_order(a@, b@),
{
    let sa = a.as_str();
    let sb = b.as_str();
    let n = sa.unicode_len();
    let m = sb.unicode_len();
    let mut i: usize = 0;
    assert(a@.skip(0) =~= a@);
    assert(b@.skip(0) =~= b@);
    while i < n && i < m
        invariant
            i <= n == a@.len(),
            i <= m == b@.len(),
            sa@ == a@,
            sb@ == b@,
            text_order(a@, b@) == text_order(a@.skip(i as int), b@.skip(i as int)),
        decreases n - i,
    {
        let ca = sa.get_char(i);
        let cb = sb.get_char(i);
        if ca != cb {
            return if (ca as u32) < (cb as u32) {
                -1
            } else {
                1
            };
        }
        assert(a@.skip(i as int).drop_first() =~= a@.skip(i + 1));
        assert(b@.skip(i as int).drop_first() =~= b@.skip(i + 1));
        i = i + 1;
    }
    if i == n && i == m {
        0
    } else if i == n {
        -1
    } else {
        1
    }
}

impl Op {
    /// The operator that a token stands for, or `None` for any other token.
    pub fn from_token(token: &Token) -> (r: Option<Op>)
        ensures
            r == op_of(*token),
    {
        match token {
            Token::Not => Some(Op::Not),
            Token::And => Some(Op::And),
            Token::Or => Some(Op::Or),
            Token::Plus => Some(Op::Add),
            Token::Minus => Some(Op::Sub),
            Token::Mult => Some(Op::Mult),
            Token::Div => Some(Op::Div),
            Token::Mod => Some(Op::Mod),
            Token::Equals => Some(Op::Equals),
            Token::NotEquals => Some(Op::NotEquals),
            Token::GreaterThan => Some(Op::GreaterThan),
            Token::GreaterEqualThan => Some(Op::GreaterEqualThan),
            Token::LessThan => Some(Op::LessThan),
            Token::LessEqualThan => Some(Op::LessEqualThan),
            _ => None,
        }
    }

    /// Whether the operator takes two operands: all but `!` do.
    pub fn binary(&self) -> (r: bool)
        ensures
            r == (*self != Op::Not),
    {
        match self {
            Op::Not => false,
            _ => true,
        }
    }

    /// Applies the operator to two evaluated operands (see [`binary_result`]).
    pub fn evaluate_binary(&self, left: &Value, right: &Value) -> (r: Result<Value, Error>)
        ensures
            crate::error::outcome(r) == binary_result(*self, left@, right@),
    {
        match self {
            Op::Equals => Ok(Value::Boolean(values_equal(left, right))),
            Op::NotEquals => Ok(Value::Boolean(!values_equal(left, right))),
            Op::And => Ok(Value::Boolean(left.truthy() && right.truthy())),
            Op::Or => Ok(Value::Boolean(left.truthy() || right.truthy())),
            Op::LessThan | Op::LessEqualThan | Op::GreaterThan | Op::GreaterEqualThan => {
                let c: i8 = match (left, right) {
                    (Value::Integer(a), Value::Integer(b)) => compare_numbers(*a, 0, *b, 0),
                    (Value::Integer(a), Value::Float(b)) => compare_numbers(
                        *a,
                        0,
                        b.digits,
                        b.scale,
                    ),
                    (Value::Float(a), Value::Integer(b)) => compare_numbers(
                        a.digits,
                        a.scale,
                        *b,
                        0,
                    ),
                    (Value::Float(a), Value::Float(b)) => compare_numbers(
                        a.digits,
                        a.scale,
                        b.digits,
                        b.scale,
                    ),
                    (Value::Boolean(a), Value::Boolean(b)) => if *a == *b {
                        0
                    } else if !*a {
                        -1
                    } else {
                        1
                    },
                    (Value::String(a), Value::String(b)) => compare_text(a, b),
                    _ => {
                        return Err(Error::TypeError);
                    },
                };
                let holds = match self {
                    Op::LessThan => c < 0,
                    Op::LessEqualThan => c <= 0,
                    Op::GreaterThan => c > 0,
                    _ => c >= 0,
                };
                Ok(Value::Boolean(holds))
            },
            Op::Add | Op::Sub | Op::Mult | Op::Div | Op::Mod => match (left, right) {
                (Value::Integer(a), Value::Integer(b)) => integer_arithmetic(*self, *a, *b),
                (Value::Integer(a), Value::Float(b)) => decimal_arithmetic_of(
                    *self,
                    *a,
                    0,
                    b.digits,
                    b.scale,
                ),
                (Value::Float(a), Value::Integer(b)) => decimal_arithmetic_of(
                    *self,
                    a.digits,
                    a.scale,
                    *b,
                    0,
                ),
                (Value::Float(a), Value::Float(b)) => decimal_arithmetic_of(
                    *self,
                    a.digits,
                    a.scale,
                    b.digits,
                    b.scale,
                ),
                _ => Err(Error::TypeError),
            },
            Op::Not => Err(Error::UnsupportedOperation),
        }
    }

    /// Applies the operator in prefix position to an evaluated operand (see
    /// [`unary_result`]).
    pub fn evaluate_unary(&self, operand: &Value) -> (r: Result<Value, Error>)
        ensures
            crate::error::outcome(r) == unary_result(*self, operand@),
    {
        match self {
            Op::Not => Ok(Value::Boolean(!operand.truthy())),
            Op::Sub => match operand {
                Value::Integer(n) => if *n == i64::MIN {
                    Err(Error::Overflow)
                } else {
                    Ok(Value::Integer(-*n))
                },
                Value::Float(d) => if d.digits == i64::MIN {
                    Err(Error::Overflow)
                } else {
                    Ok(Value::Float(Decimal { digits: -d.digits, scale: d.scale }))
                },
                _ => Err(Error::TypeError),
            },
            Op::Add => match operand {
                Value::Integer(n) => Ok(Value::Integer(*n)),
                Value::Float(d) => Ok(Value::Float(*d)),
                _ => Err(Error::TypeError),
            },
            _ => Err(Error::UnsupportedOperation),
        }
    }

    /// The operator's binding strength (see [`precedence`]).
    pub fn precedence(&self) -> (r: u8)
        ensures
            r == precedence(*self),
    {
        match self {
            Op::Or => 1,
            Op::And => 2,
            Op::Equals | Op::NotEquals | Op::GreaterThan | Op::GreaterEqualThan | Op::LessThan
            | Op::LessEqualThan => 3,
            Op::Add | Op::Sub => 4,
            Op::Mult | Op::Div | Op::Mod => 5,
            Op::Not => 6,
        }
    }
}

} // verus!
