use vstd::prelude::*;

use crate::error::{Error, ErrorKind};
use crate::scanner::{all_digits, is_digit};
use crate::token::{chars_of, Token, TokenView, Type};

verus! {

pub open spec fn digit_value(c: char) -> int {
    c as int - '0' as int
}

/// The number that the decimal digits `s` write, most significant first.
pub open spec fn digits_value(s: Seq<char>) -> int
    decreases s.len(),
{
    if s.len() == 0 {
        0
    } else {
        digits_value(s.drop_last()) * 10 + digit_value(s.last())
    }
}

/// The operand that the text `s` writes: digits only, at least one, and small enough
/// for an `i64`.
pub open spec fn number_of(s: Seq<char>) -> Result<i64, ErrorKind> {
    if s.len() == 0 || !all_digits(s) {
        Err(ErrorKind::InvalidNumber)
    } else if digits_value(s) > i64::MAX {
        Err(ErrorKind::IntegerOverflow)
    } else {
        Ok(digits_value(s) as i64)
    }
}

/// The operand that a token stands for.
pub open spec fn operand_of(t: TokenView) -> Result<i64, ErrorKind> {
    if t.0 != Type::Integer {
        Err(ErrorKind::ExpectedOperand)
    } else {
        match t.1 {
            None => Err(ErrorKind::InvalidNumber),
            Some(s) => number_of(s),
        }
    }
}

pub proof fn lemma_digits_value_nonneg(s: Seq<char>)
    requires
        all_digits(s),
    ensures
        digits_value(s) >= 0,
    decreases s.len(),
{
    if s.len() > 0 {
        lemma_digits_value_nonneg(s.drop_last());
        assert(is_digit(s[s.len() - 1]));
    }
}

pub proof fn lemma_digits_value_grows(s: Seq<char>, n: int, m: int)
    requires
        all_digits(s),
        0 <= n <= m <= s.len(),
    ensures
        0 <= digits_value(s.take(n)) <= digits_value(s.take(m)),
    decreases m,
{
    if m > n {
        lemma_digits_value_grows(s, n, m - 1);
        assert(s.take(m).drop_last() =~= s.take(m - 1));
        assert(is_digit(s[m - 1]));
    } else {
        lemma_digits_value_nonneg(s.take(n));
    }
}

/// Reads the decimal digits `cs` as an `i64`.
fn parse_digits(cs: &Vec<char>) -> (r: Result<i64, Error>)
    ensures
        match number_of(cs@) {
            Ok(v) => r == Ok::<i64, Error>(v),
            Err(e) => r is Err && r->Err_0@ == e,
        },
{
    if cs.len() == 0 {
        return Err(Error::new(ErrorKind::InvalidNumber));
    }
    let mut k: usize = 0;
    while k < cs.len()
        invariant
            k <= cs.len(),
            forall|m: int| 0 <= m < k ==> is_digit(#[trigger] cs@[m]),
        decreases cs.len() - k,
    {
        if !('0' <= cs[k] && cs[k] <= '9') {
            return Err(Error::new(ErrorKind::InvalidNumber));
        }
        k = k + 1;
    }
    let mut acc: i64 = 0;
    let mut k: usize = 0;
    assert(cs@.take(0) =~= Seq::<char>::empty());
    while k < cs.len()
        invariant
            k <= cs.len(),
            all_digits(cs@),
            acc == digits_value(cs@.take(k as int)),
        decreases cs.len() - k,
    {
        assert(is_digit(cs@[k as int]));
        let d: i64 = (cs[k] as u32 - '0' as u32) as i64;
        assert(cs@.take(k + 1).drop_last() =~= cs@.take(k as int));
        assert(digits_value(cs@.take(k + 1)) == acc * 10 + d);
        let next = match acc.checked_mul(10) {
            Some(m) => m.checked_add(d),
            None => None,
        };
        match next {
            Some(v) => {
                acc = v;
            },
            None => {
                proof {
                    lemma_digits_value_grows(cs@, 0, k as int);
                    lemma_digits_value_grows(cs@, k + 1, cs@.len() as int);
                    assert(cs@.take(cs@.len() as int) =~= cs@);
                }
                return Err(Error::new(ErrorKind::IntegerOverflow));
            },
        }
        k = k + 1;
    }
    assert(cs@.take(cs@.len() as int) =~= cs@);
    Ok(acc)
}

/// The value of an `Integer` token.
pub fn parse_number(token: &Token) -> (r: Result<i64, Error>)
    ensures
        match operand_of(token@) {
            Ok(v) => r == Ok::<i64, Error>(v),
            Err(e) => r is Err && r->Err_0@ == e,
        },
{
    if token.kind != Type::Integer {
        return Err(Error::new(ErrorKind::ExpectedOperand));
    }
    match &token.value {
        None => Err(Error::new(ErrorKind::InvalidNumber)),
        Some(s) => {
            let cs = chars_of(s.as_str());
            parse_digits(&cs)
        },
    }
}

} // verus!
