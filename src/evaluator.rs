use vstd::prelude::*;

use crate::error::{Error, ErrorKind};
use crate::number::{operand_of, parse_number};
use crate::scanner::{scan, views};
use crate::token::{is_operator, TokenView, Type};

verus! {

/// Evaluates calculator lines.
pub struct Interpreter {}

/// Division rounded toward zero.
pub open spec fn trunc_div(a: int, b: int) -> int {
    let q = (if a < 0 { -a } else { a }) / (if b < 0 { -b } else { b });
    if (a < 0) != (b < 0) {
        -q
    } else {
        q
    }
}

/// The exact result of an operator on two integers.
pub open spec fn arith(op: Type, a: int, b: int) -> int {
    match op {
        Type::Plus => a + b,
        Type::Minus => a - b,
        Type::Mul => a * b,
        _ => trunc_div(a, b),
    }
}

/// An operator applied to the running value and the next operand.
pub open spec fn apply_op(op: Type, a: i64, b: i64) -> Result<i64, ErrorKind> {
    if op == Type::Div && b == 0 {
        Err(ErrorKind::DivisionByZero)
    } else if i64::MIN <= arith(op, a as int, b as int) <= i64::MAX {
        Ok(arith(op, a as int, b as int) as i64)
    } else {
        Err(ErrorKind::IntegerOverflow)
    }
}

/// Folds the operator/operand pairs of `toks` from index `i` on into `acc`, left to right.
/// The fold ends at an end-of-input token or at the end of `toks`.
pub open spec fn fold_from(acc: i64, toks: Seq<TokenView>, i: int) -> Result<Option<i64>, ErrorKind>
    decreases toks.len() - i,
{
    if i < 0 || i >= toks.len() || toks[i].0 == Type::Eof {
        Ok(Some(acc))
    } else if !is_operator(toks[i].0) {
        Err(ErrorKind::ExpectedOperator)
    } else if i + 1 >= toks.len() {
        Err(ErrorKind::UnexpectedEndOfInput)
    } else {
        match operand_of(toks[i + 1]) {
            Err(e) => Err(e),
            Ok(b) => match apply_op(toks[i].0, acc, b) {
                Err(e) => Err(e),
                Ok(v) => fold_from(v, toks, i + 2),
            },
        }
    }
}

/// The outcome of a token stream: no result when it is empty or starts with the end of
/// input, else the first operand folded with the pairs that follow it.
pub open spec fn eval_tokens(toks: Seq<TokenView>) -> Result<Option<i64>, ErrorKind> {
    if toks.len() == 0 || toks[0].0 == Type::Eof {
        Ok(None)
    } else if is_operator(toks[0].0) {
        Err(ErrorKind::UnexpectedOperator)
    } else {
        match operand_of(toks[0]) {
            Err(e) => Err(e),
            Ok(a) => fold_from(a, toks, 1),
        }
    }
}

/// The outcome of evaluating the line `s`.
pub open spec fn evaluation(s: Seq<char>) -> Result<Option<i64>, ErrorKind> {
    match scan(s) {
        None => Err(ErrorKind::InvalidCharacter),
        Some(toks) => eval_tokens(toks),
    }
}

/// Applies `op` to `a` and `b`, failing on a zero divisor and on overflow.
fn apply_operator(op: Type, a: i64, b: i64) -> (r: Result<i64, Error>)
    requires
        is_operator(op),
    ensures
        match apply_op(op, a, b) {
            Ok(v) => r == Ok::<i64, Error>(v),
            Err(e) => r is Err && r->Err_0@ == e,
        },
{
    let res = match op {
        Type::Plus => a.checked_add(b),
        Type::Minus => a.checked_sub(b),
        Type::Mul => a.checked_mul(b),
        _ => {
            if b == 0 {
                return Err(Error::new(ErrorKind::DivisionByZero));
            }
            proof {
                if a == 0 {
                    let d: int = if b < 0 { -b } else { b as int };
                    assert(0int / d == 0) by (nonlinear_arith)
                        requires
                            d > 0,
                    ;
                }
            }
            a.checked_div(b)
        },
    };
    match res {
        Some(v) => Ok(v),
        None => Err(Error::new(ErrorKind::IntegerOverflow)),
    }
}

impl Interpreter {
    /// Evaluates one line: the outcome is exactly `evaluation(text@)`, with `Ok(None)` for
    /// a line that holds no operand.
    pub fn evaluate(text: &str) -> (r: Result<Option<i64>, Error>)
        ensures
            match evaluation(text@) {
                Ok(v) => r == Ok::<Option<i64>, Error>(v),
                Err(e) => r is Err && r->Err_0@ == e,
            },
    {
        let stream = match Self::tokenize(text) {
            Ok(s) => s,
            Err(e) => {
                return Err(e);
            },
        };
        let ghost toks = views(stream@);
        if stream.len() == 0 {
            return Ok(None);
        }
        assert(toks[0] == stream@[0]@);
        let first = &stream[0];
        if first.is_eof() {
            return Ok(None);
        }
        if first.is_ops() {
            return Err(Error::new(ErrorKind::UnexpectedOperator));
        }
        let mut acc = match parse_number(first) {
            Ok(v) => v,
            Err(e) => {
                return Err(e);
            },
        };
        let mut i: usize = 1;
        while i < stream.len()
            invariant
                toks == views(stream@),
                1 <= i <= stream.len(),
                evaluation(text@) == fold_from(acc, toks, i as int),
            decreases stream.len() - i,
        {
            assert(toks[i as int] == stream@[i as int]@);
            let op = &stream[i];
            if op.is_eof() {
                return Ok(Some(acc));
            }
            if !op.is_ops() {
                return Err(Error::new(ErrorKind::ExpectedOperator));
            }
            if i + 1 >= stream.len() {
                return Err(Error::new(ErrorKind::UnexpectedEndOfInput));
            }
            assert(toks[i + 1] == stream@[i + 1]@);
            let b = match parse_number(&stream[i + 1]) {
                Ok(v) => v,
                Err(e) => {
                    return Err(e);
                },
            };
            acc = match apply_operator(op.kind, acc, b) {
                Ok(v) => v,
                Err(e) => {
                    return Err(e);
                },
            };
            i = i + 2;
        }
        Ok(Some(acc))
    }
}

} // verus!
