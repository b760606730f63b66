use vstd::prelude::*;

use crate::error::{Error, ErrorKind};
use crate::evaluator::Interpreter;
use crate::token::{char_class, chars_of, detect_char_type, is_operator, Token, TokenView, Type};

verus! {

pub open spec fn is_digit(c: char) -> bool {
    '0' <= c && c <= '9'
}

pub open spec fn all_digits(s: Seq<char>) -> bool {
    forall|k: int| 0 <= k < s.len() ==> is_digit(#[trigger] s[k])
}

/// The length of the run of digits that `s` starts with.
pub open spec fn run_len(s: Seq<char>) -> nat
    decreases s.len(),
{
    if s.len() > 0 && is_digit(s[0]) {
        1 + run_len(s.drop_first())
    } else {
        0
    }
}

pub proof fn lemma_run_len_bounds(s: Seq<char>)
    ensures
        run_len(s) <= s.len(),
        s.len() > 0 && is_digit(s[0]) ==> run_len(s) >= 1,
    decreases s.len(),
{
    if s.len() > 0 && is_digit(s[0]) {
        lemma_run_len_bounds(s.drop_first());
    }
}

/// The first `run_len(s)` characters are digits, and the next one, if any, is not.
pub proof fn lemma_run_len_digits(s: Seq<char>)
    ensures
        forall|k: int| 0 <= k < run_len(s) ==> is_digit(#[trigger] s[k]),
        run_len(s) < s.len() ==> !is_digit(s[run_len(s) as int]),
    decreases s.len(),
{
    lemma_run_len_bounds(s);
    if s.len() > 0 && is_digit(s[0]) {
        let t = s.drop_first();
        lemma_run_len_digits(t);
        assert forall|k: int| 0 <= k < run_len(s) implies is_digit(#[trigger] s[k]) by {
            if k > 0 {
                assert(s[k] == t[k - 1]);
            }
        }
    }
}

/// `run_len(s) == n` exactly when the first `n` characters are digits and the next one,
/// if any, is not.
pub proof fn lemma_run_len_is(s: Seq<char>, n: int)
    requires
        0 <= n <= s.len(),
        forall|k: int| 0 <= k < n ==> is_digit(#[trigger] s[k]),
        n == s.len() || !is_digit(s[n]),
    ensures
        run_len(s) == n,
    decreases n,
{
    if n > 0 {
        lemma_run_len_is(s.drop_first(), n - 1);
    }
}

/// `toks` in front of the tokens of `rest`, if `rest` scans.
pub open spec fn prepend(toks: Seq<TokenView>, rest: Option<Seq<TokenView>>) -> Option<
    Seq<TokenView>,
> {
    match rest {
        Some(r) => Some(toks + r),
        None => None,
    }
}

/// The tokens of `s`, or `None` when `s` holds a character outside the alphabet before
/// its first line terminator. Spaces are dropped, a run of digits is one `Integer` token,
/// and every operator is a token of its own. A line terminator gives one `Eof` token and
/// ends the scan: what follows it is not read.
pub open spec fn scan(s: Seq<char>) -> Option<Seq<TokenView>>
    decreases s.len(),
{
    if s.len() == 0 {
        Some(Seq::empty())
    } else {
        match char_class(s[0]) {
            None => None,
            Some(Type::Whitespace) => scan(s.drop_first()),
            Some(Type::Integer) => {
                proof {
                    lemma_run_len_bounds(s);
                }
                let n = run_len(s);
                prepend(seq![(Type::Integer, Some(s.take(n as int)))], scan(s.skip(n as int)))
            },
            Some(Type::Eof) => Some(seq![(Type::Eof, Some(s.take(1)))]),
            Some(k) => prepend(seq![(k, Some(s.take(1)))], scan(s.drop_first())),
        }
    }
}

/// The views of a sequence of tokens.
pub open spec fn views(toks: Seq<Token>) -> Seq<TokenView> {
    toks.map_values(|t: Token| t@)
}

pub proof fn lemma_prepend_assoc(a: Seq<TokenView>, b: Seq<TokenView>, o: Option<Seq<TokenView>>)
    ensures
        prepend(a, prepend(b, o)) == prepend(a + b, o),
{
    if let Some(r) = o {
        assert(a + (b + r) =~= (a + b) + r);
    }
}

/// A character outside the alphabet before the first line terminator makes the whole of
/// `s` fail to scan.
pub proof fn lemma_scan_invalid(s: Seq<char>, p: int)
    requires
        0 <= p < s.len(),
        char_class(s[p]) is None,
        forall|k: int| 0 <= k < p ==> #[trigger] s[k] != '\n',
    ensures
        scan(s) is None,
    decreases s.len(),
{
    match char_class(s[0]) {
        None => {},
        Some(Type::Integer) => {
            lemma_run_len_bounds(s);
            lemma_run_len_digits(s);
            let n = run_len(s) as int;
            assert(p >= n);
            lemma_scan_invalid(s.skip(n), p - n);
        },
        Some(_) => {
            lemma_scan_invalid(s.drop_first(), p - 1);
        },
    }
}

/// An operator scans as a token of its own.
pub proof fn lemma_scan_single(c: char, rest: Seq<char>)
    requires
        char_class(c) matches Some(t) && is_operator(t),
    ensures
        scan(seq![c] + rest) == prepend(seq![(char_class(c)->0, Some(seq![c]))], scan(rest)),
{
    let s = seq![c] + rest;
    assert(s[0] == c);
    assert(s.take(1) =~= seq![c]);
    assert(s.drop_first() =~= rest);
}

/// A line terminator gives one `Eof` token, and nothing after it is scanned.
pub proof fn lemma_scan_eof(rest: Seq<char>)
    ensures
        scan(seq!['\n'] + rest) == Some(seq![(Type::Eof, Some(seq!['\n']))]),
{
    let s = seq!['\n'] + rest;
    assert(s[0] == '\n');
    assert(s.take(1) =~= seq!['\n']);
}

/// A space in front is dropped.
pub proof fn lemma_scan_space(rest: Seq<char>)
    ensures
        scan(seq![' '] + rest) == scan(rest),
{
    let s = seq![' '] + rest;
    assert(s[0] == ' ');
    assert(s.drop_first() =~= rest);
}

impl Interpreter {
    /// Splits `text` into tokens, up to and including its first line terminator: the
    /// result is exactly `scan(text@)`, and the error `InvalidCharacter` stands for a
    /// character outside the alphabet before that terminator.
    pub fn tokenize(text: &str) -> (r: Result<Vec<Token>, Error>)
        ensures
            match scan(text@) {
                Some(toks) => r is Ok && views(r->Ok_0@) == toks,
                None => r is Err && r->Err_0@ == ErrorKind::InvalidCharacter,
            },
    {
        let cs = chars_of(text);
        // `e` is the length of the line: up to and including its first terminator.
        let mut k: usize = 0;
        while k < cs.len() && cs[k] != '\n'
            invariant
                k <= cs.len(),
                forall|m: int| 0 <= m < k ==> #[trigger] cs@[m] != '\n',
            decreases cs.len() - k,
        {
            k = k + 1;
        }
        let e: usize = if k < cs.len() {
            k + 1
        } else {
            k
        };
        let line = text.substring_char(0, e);
        if !line.is_ascii() {
            proof {
                let p = choose|p: int| 0 <= p < line@.len() && !('\0' <= #[trigger] line@[p] <= '\u{7f}');
                assert(line@[p] == cs@[p]);
                lemma_scan_invalid(text@, p);
            }
            return Err(Error::new(ErrorKind::InvalidCharacter));
        }
        let mut tokens: Vec<Token> = Vec::new();
        let mut i: usize = 0;
        assert(text@.skip(0) =~= text@);
        while i < cs.len()
            invariant
                cs@ == text@,
                line@ == text@.subrange(0, e as int),
                line.is_ascii(),
                e <= cs.len(),
                i <= e,
                e < cs.len() ==> cs@[e - 1] == '\n' && i < e,
                scan(text@) == prepend(views(tokens@), scan(text@.skip(i as int))),
            decreases cs.len() - i,
        {
            let ghost rest = text@.skip(i as int);
            let ghost before = views(tokens@);
            assert(rest[0] == cs@[i as int]);
            let c = cs[i];
            match detect_char_type(&c) {
                None => {
                    proof {
                        lemma_scan_invalid(rest, 0);
                    }
                    return Err(Error::new(ErrorKind::InvalidCharacter));
                },
                Some(Type::Eof) => {
                    let piece = line.substring_ascii(i, i + 1).to_owned();
                    let tok = Token { kind: Type::Eof, value: Some(piece) };
                    proof {
                        assert(line@.subrange(i as int, i + 1) =~= text@.subrange(i as int, i + 1));
                        assert(rest.take(1) =~= text@.subrange(i as int, i + 1));
                        assert(scan(rest) == Some(seq![tok@]));
                    }
                    tokens.push(tok);
                    assert(views(tokens@) =~= before + seq![tok@]);
                    return Ok(tokens);
                },
                Some(Type::Whitespace) => {
                    assert(rest.drop_first() =~= text@.skip(i + 1));
                    i = i + 1;
                },
                Some(Type::Integer) => {
                    let mut j: usize = i + 1;
                    while j < cs.len() && '0' <= cs[j] && cs[j] <= '9'
                        invariant
                            cs@ == text@,
                            i < j <= cs.len(),
                            forall|k: int| i <= k < j ==> is_digit(#[trigger] cs@[k]),
                        decreases cs.len() - j,
                    {
                        j = j + 1;
                    }
                    proof {
                        if e < cs.len() && j > e - 1 {
                            assert(is_digit(cs@[e - 1]));
                        }
                    }
                    let piece = line.substring_ascii(i, j).to_owned();
                    assert(line@.subrange(i as int, j as int) =~= text@.subrange(i as int, j as int));
                    let tok = Token { kind: Type::Integer, value: Some(piece) };
                    proof {
                        let n = (j - i) as int;
                        assert forall|k: int| 0 <= k < n implies is_digit(#[trigger] rest[k]) by {
                            assert(rest[k] == cs@[i + k]);
                        }
                        if j < cs.len() {
                            assert(rest[n] == cs@[j as int]);
                        }
                        lemma_run_len_is(rest, n);
                        assert(rest.take(n) =~= text@.subrange(i as int, j as int));
                        assert(rest.skip(n) =~= text@.skip(j as int));
                        lemma_prepend_assoc(before, seq![tok@], scan(text@.skip(j as int)));
                    }
                    tokens.push(tok);
                    assert(views(tokens@) =~= before + seq![tok@]);
                    i = j;
                },
                Some(k) => {
                    let piece = line.substring_ascii(i, i + 1).to_owned();
                    assert(line@.subrange(i as int, i + 1) =~= text@.subrange(i as int, i + 1));
                    let tok = Token { kind: k, value: Some(piece) };
                    proof {
                        assert(rest.take(1) =~= text@.subrange(i as int, i + 1));
                        assert(rest.drop_first() =~= text@.skip(i + 1));
                        lemma_prepend_assoc(before, seq![tok@], scan(text@.skip(i + 1)));
                    }
                    tokens.push(tok);
                    assert(views(tokens@) =~= before + seq![tok@]);
                    i = i + 1;
                },
            }
        }
        assert(text@.skip(i as int) =~= Seq::<char>::empty());
        assert(views(tokens@) + Seq::<TokenView>::empty() =~= views(tokens@));
        Ok(tokens)
    }
}

} // verus!
