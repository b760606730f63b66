use vstd::prelude::*;

use crate::error::ErrorKind;
use crate::evaluator::{apply_op, eval_tokens, evaluation, fold_from};
use crate::number::{number_of, operand_of};
use crate::scanner::{
    all_digits, is_digit, prepend, lemma_run_len_bounds, lemma_run_len_digits, lemma_run_len_is,
    lemma_scan_eof, lemma_scan_single, lemma_scan_space, run_len, scan,
};
use crate::token::{char_class, is_operator, TokenView, Type};

verus! {

/// The outcome of a line whose value is the result `r` of one operation.
pub open spec fn as_outcome(r: Result<i64, ErrorKind>) -> Result<Option<i64>, ErrorKind> {
    match r {
        Ok(v) => Ok(Some(v)),
        Err(e) => Err(e),
    }
}

/// A line `<a><op><b>`, with or without a line terminator after it, evaluates to the
/// operator applied to the two operands: their sum, difference, product, or quotient
/// rounded toward zero; an error on a zero divisor or where the result leaves `i64`.
pub proof fn law_single_operation(a: Seq<char>, op: char, b: Seq<char>)
    requires
        number_of(a) is Ok,
        number_of(b) is Ok,
        char_class(op) matches Some(t) && is_operator(t),
    ensures
        evaluation(a + seq![op] + b) == as_outcome(
            apply_op(char_class(op)->0, number_of(a)->Ok_0, number_of(b)->Ok_0),
        ),
        evaluation(a + seq![op] + b + seq!['\n']) == as_outcome(
            apply_op(char_class(op)->0, number_of(a)->Ok_0, number_of(b)->Ok_0),
        ),
{
    let t = char_class(op)->0;
    let ta: TokenView = (Type::Integer, Some(a));
    let tb: TokenView = (Type::Integer, Some(b));
    let to: TokenView = (t, Some(seq![op]));
    let te: TokenView = (Type::Eof, Some(seq!['\n']));
    let e = Seq::<char>::empty();
    let x = number_of(a)->Ok_0;
    let y = number_of(b)->Ok_0;

    // Without a terminator.
    law_digit_run_one_operand(b, e);
    assert(b + e =~= b);
    lemma_scan_single(op, b);
    law_digit_run_one_operand(a, seq![op] + b);
    assert(a + seq![op] + b =~= a + (seq![op] + b));
    let toks = seq![ta] + (seq![to] + (seq![tb] + Seq::<TokenView>::empty()));
    assert(scan(a + seq![op] + b) == Some(toks));
    assert(toks =~= seq![ta, to, tb]);
    assert(operand_of(toks[0]) == Ok::<i64, ErrorKind>(x));
    assert(operand_of(toks[2]) == Ok::<i64, ErrorKind>(y));
    if let Ok(v) = apply_op(t, x, y) {
        assert(fold_from(v, toks, 3) == Ok::<Option<i64>, ErrorKind>(Some(v)));
    }
    assert(eval_tokens(toks) == fold_from(x, toks, 1));

    // With a terminator.
    let nl = seq!['\n'];
    lemma_scan_eof(e);
    assert(nl + e =~= nl);
    law_digit_run_one_operand(b, nl);
    lemma_scan_single(op, b + nl);
    law_digit_run_one_operand(a, seq![op] + (b + nl));
    assert(a + seq![op] + b + nl =~= a + (seq![op] + (b + nl)));
    let toks2 = seq![ta] + (seq![to] + (seq![tb] + seq![te]));
    assert(scan(a + seq![op] + b + nl) == Some(toks2));
    assert(toks2 =~= seq![ta, to, tb, te]);
    assert(operand_of(toks2[0]) == Ok::<i64, ErrorKind>(x));
    assert(operand_of(toks2[2]) == Ok::<i64, ErrorKind>(y));
    if let Ok(v) = apply_op(t, x, y) {
        assert(fold_from(v, toks2, 3) == Ok::<Option<i64>, ErrorKind>(Some(v)));
    }
    assert(eval_tokens(toks2) == fold_from(x, toks2, 1));
}

/// Digits are read as whole runs: a run of digits `a` followed by anything that does not
/// start with a digit scans as one `Integer` token whose text is all of `a`, in front of
/// the tokens of the rest; alone on a line, the run evaluates to the number it writes.
pub proof fn law_digit_run_one_operand(a: Seq<char>, rest: Seq<char>)
    requires
        a.len() > 0,
        all_digits(a),
        rest.len() == 0 || !is_digit(rest[0]),
    ensures
        scan(a + rest) == prepend(seq![(Type::Integer, Some(a))], scan(rest)),
        evaluation(a) == as_outcome(number_of(a)),
    decreases rest.len(),
{
    let s = a + rest;
    assert(s[0] == a[0]);
    assert forall|k: int| 0 <= k < a.len() implies is_digit(#[trigger] s[k]) by {
        assert(s[k] == a[k]);
    }
    if rest.len() > 0 {
        assert(s[a.len() as int] == rest[0]);
    }
    lemma_run_len_is(s, a.len() as int);
    assert(s.take(a.len() as int) =~= a);
    assert(s.skip(a.len() as int) =~= rest);
    let e = Seq::<char>::empty();
    if rest.len() > 0 {
        law_digit_run_one_operand(a, e);
    } else {
        assert(a + e =~= a);
        let toks = seq![(Type::Integer, Some(a))] + Seq::<TokenView>::empty();
        assert(toks =~= seq![(Type::Integer, Some(a))]);
        assert(toks[0] == (Type::Integer, Some(a)));
        assert(eval_tokens(toks) == as_outcome(number_of(a)));
    }
}

/// Once a division by an operand of zero is reached, the fold fails, whatever follows.
proof fn lemma_fold_zero_divisor(acc: i64, toks: Seq<TokenView>, i: int, p: int)
    requires
        0 <= i <= p,
        (p - i) % 2 == 0,
        p + 1 < toks.len(),
        toks[p].0 == Type::Div,
        operand_of(toks[p + 1]) == Ok::<i64, ErrorKind>(0),
        forall|q: int| i <= q < p ==> #[trigger] toks[q].0 != Type::Eof,
    ensures
        fold_from(acc, toks, i) is Err,
    decreases p - i,
{
    if i < p {
        if let Ok(b) = operand_of(toks[i + 1]) {
            if let Ok(v) = apply_op(toks[i].0, acc, b) {
                lemma_fold_zero_divisor(v, toks, i + 2, p);
            }
        }
    }
}

/// A zero divisor anywhere in the chain of a line is an error, never a value: when the
/// tokens before the first end of input have `/` at an operator position `p` and an
/// operand of zero right after it, evaluation fails.
pub proof fn law_zero_divisor_fails(s: Seq<char>, p: int)
    requires
        scan(s) matches Some(toks) && {
            &&& 1 <= p
            &&& p % 2 == 1
            &&& p + 1 < toks.len()
            &&& toks[p].0 == Type::Div
            &&& operand_of(toks[p + 1]) == Ok::<i64, ErrorKind>(0)
            &&& forall|q: int| 0 <= q < p ==> #[trigger] toks[q].0 != Type::Eof
        },
    ensures
        evaluation(s) is Err,
{
    let toks = scan(s)->Some_0;
    assert(toks[0].0 != Type::Eof);
    if let Ok(a) = operand_of(toks[0]) {
        lemma_fold_zero_divisor(a, toks, 1, p);
    }
}

/// A space put between `a` and `b` leaves the tokens, and so the outcome, unchanged,
/// unless it splits a run of digits in two.
pub proof fn law_space_insertion(a: Seq<char>, b: Seq<char>)
    requires
        !(a.len() > 0 && b.len() > 0 && is_digit(a.last()) && is_digit(b[0])),
    ensures
        scan(a + seq![' '] + b) == scan(a + b),
        evaluation(a + seq![' '] + b) == evaluation(a + b),
    decreases a.len(),
{
    let s1 = a + seq![' '] + b;
    let s2 = a + b;
    if a.len() == 0 {
        assert(s1 =~= seq![' '] + b);
        assert(s2 =~= b);
        lemma_scan_space(b);
    } else {
        assert(s1[0] == a[0]);
        assert(s2[0] == a[0]);
        match char_class(a[0]) {
            None => {},
            Some(Type::Integer) => {
                lemma_run_len_bounds(a);
                lemma_run_len_digits(a);
                let n = run_len(a) as int;
                assert forall|k: int| 0 <= k < n implies is_digit(#[trigger] s1[k]) by {
                    assert(s1[k] == a[k]);
                }
                assert forall|k: int| 0 <= k < n implies is_digit(#[trigger] s2[k]) by {
                    assert(s2[k] == a[k]);
                }
                if n < a.len() {
                    assert(s1[n] == a[n]);
                    assert(s2[n] == a[n]);
                } else {
                    assert(s1[n] == ' ');
                    if b.len() > 0 {
                        assert(a.last() == a[n - 1]);
                        assert(s2[n] == b[0]);
                    }
                }
                lemma_run_len_is(s1, n);
                lemma_run_len_is(s2, n);
                assert(s1.take(n) =~= a.take(n));
                assert(s2.take(n) =~= a.take(n));
                let a2 = a.skip(n);
                assert(s1.skip(n) =~= a2 + seq![' '] + b);
                assert(s2.skip(n) =~= a2 + b);
                if a2.len() > 0 {
                    assert(a2.last() == a.last());
                }
                law_space_insertion(a2, b);
            },
            Some(_) => {
                let a2 = a.drop_first();
                assert(s1.drop_first() =~= a2 + seq![' '] + b);
                assert(s2.drop_first() =~= a2 + b);
                assert(s1.take(1) =~= s2.take(1));
                if a2.len() > 0 {
                    assert(a2.last() == a.last());
                }
                law_space_insertion(a2, b);
            },
        }
    }
}

/// The characters that `s` holds besides its spaces, in order.
pub open spec fn without_spaces(s: Seq<char>) -> Seq<char> {
    s.filter(not_space())
}

pub open spec fn not_space() -> spec_fn(char) -> bool {
    |c: char| c != ' '
}

/// The text of a token; none for a token without one.
pub open spec fn text_of(t: TokenView) -> Seq<char> {
    match t.1 {
        Some(x) => x,
        None => Seq::empty(),
    }
}

/// The texts of the tokens `toks`, one after another.
pub open spec fn joined_texts(toks: Seq<TokenView>) -> Seq<char>
    decreases toks.len(),
{
    if toks.len() == 0 {
        Seq::empty()
    } else {
        text_of(toks[0]) + joined_texts(toks.drop_first())
    }
}

proof fn lemma_filter_keeps(x: Seq<char>)
    requires
        forall|k: int| 0 <= k < x.len() ==> #[trigger] x[k] != ' ',
    ensures
        x.filter(not_space()) == x,
    decreases x.len(),
{
    reveal(Seq::filter);
    if x.len() > 0 {
        lemma_filter_keeps(x.drop_last());
        assert(x.drop_last().push(x.last()) =~= x);
    }
}

proof fn lemma_joined_front(t: TokenView, rest: Seq<TokenView>)
    ensures
        joined_texts(seq![t] + rest) == text_of(t) + joined_texts(rest),
{
    let u = seq![t] + rest;
    assert(u[0] == t);
    assert(u.drop_first() =~= rest);
}

/// Scanning loses nothing but spaces: the texts of the tokens of a line that scans and
/// holds no line terminator but as its last character, put back together in order, are
/// the line with its spaces removed.
pub proof fn law_scan_round_trip(s: Seq<char>)
    requires
        scan(s) is Some,
        forall|k: int| 0 <= k < s.len() - 1 ==> #[trigger] s[k] != '\n',
    ensures
        joined_texts(scan(s)->Some_0) == without_spaces(s),
    decreases s.len(),
{
    if s.len() == 0 {
        reveal(Seq::filter);
    } else {
        let c = s[0];
        match char_class(c) {
            None => {},
            Some(Type::Integer) => {
                lemma_run_len_bounds(s);
                lemma_run_len_digits(s);
                let n = run_len(s) as int;
                let rest = s.skip(n);
                law_scan_round_trip(rest);
                lemma_joined_front((Type::Integer, Some(s.take(n))), scan(rest)->Some_0);
                assert(s =~= s.take(n) + rest);
                Seq::filter_distributes_over_add(s.take(n), rest, not_space());
                lemma_filter_keeps(s.take(n));
            },
            Some(k) => {
                let rest = s.drop_first();
                if k == Type::Eof {
                    assert(rest.len() == 0);
                } else {
                    assert forall|m: int| 0 <= m < rest.len() - 1 implies #[trigger] rest[m] != '\n' by {
                        assert(rest[m] == s[m + 1]);
                    }
                }
                law_scan_round_trip(rest);
                assert(s =~= s.take(1) + rest);
                Seq::filter_distributes_over_add(s.take(1), rest, not_space());
                reveal_with_fuel(Seq::filter, 2);
                assert(s.take(1).drop_last() =~= Seq::<char>::empty());
                if k != Type::Whitespace {
                    lemma_joined_front((k, Some(s.take(1))), scan(rest)->Some_0);
                }
            },
        }
    }
}

/// Evaluation keeps no state between calls: the outcome is a function of the line
/// alone, so evaluating one line twice gives one outcome twice.
pub proof fn law_same_line_same_outcome(s: Seq<char>, t: Seq<char>)
    requires
        s == t,
    ensures
        evaluation(s) == evaluation(t),
{
}

} // verus!
