//! The formula language: parsing and evaluation in one pass.
//!
//! Grammar, loosest-binding first: `||`, `&&`, comparison
//! (`== != > < >= <=`, non-associative), `+ -`, `* /`, `^`, unary `- !`,
//! then atoms: integer literals, identifiers (case-insensitive stat
//! names, or builtin calls `MIN MAX AVERAGE IF POW NOT AND OR`), and
//! parenthesised sub-expressions.  White space is removed up front.
//!
//! The whole semantics is given by the `p_*` spec functions below over
//! the stripped character sequence; `evaluate` returns exactly what
//! they denote.  Values are wrapping 64-bit integers; comparisons and
//! logic yield 1 or 0; a value is true when nonzero.

use vstd::prelude::*;
use crate::arith::{w_add, w_sub, w_mul, w_neg, div_t, pow_v, min2, max2, wrap64};
use crate::arith::{add_w, sub_w, mul_w, neg_w, div_w, pow_w, len_to_i64};
use crate::text::{is_space, is_digit, is_alpha, is_ident_char, eq_ic, digit_val};
use crate::text::{is_space_char, is_digit_char, is_alpha_char, is_ident_char_exec, str_chars,
    chars_eq_ic_str};
use crate::player::Player;
use crate::composition::PositionRequirements;

verus! {

/// Why a formula failed to evaluate.
#[derive(Clone, Copy, Debug, PartialEq, Eq, Structural)]
pub enum EvalError {
    /// Malformed input: unexpected character, unbalanced parentheses,
    /// trailing characters, or an empty expression.
    InvalidSyntax,
    /// An identifier that is not a call and matches no stat.
    UnknownStat,
    /// A called identifier that names no builtin function.
    UnknownFunction,
    /// Division (including `AVERAGE`) with a zero divisor.
    DivisionByZero,
    /// A builtin called with an unsupported number of arguments.
    MissingArguments,
}

/// Characters left to read at position `i`; drives termination of the
/// parsing functions.
pub open spec fn fuel(s: Seq<char>, i: int) -> nat {
    if i < s.len() {
        (s.len() - i) as nat
    } else {
        0
    }
}

/// The character `c` stands at position `i`.
pub open spec fn at1(s: Seq<char>, i: int, c: char) -> bool {
    0 <= i < s.len() && s[i] == c
}

/// The characters `c0 c1` stand at positions `i, i + 1`.
pub open spec fn at2(s: Seq<char>, i: int, c0: char, c1: char) -> bool {
    0 <= i && i + 1 < s.len() && s[i] == c0 && s[i + 1] == c1
}

/// 1 for true, 0 for false.
pub open spec fn b2v(b: bool) -> i64 {
    if b {
        1i64
    } else {
        0i64
    }
}

/// First stat entry at or after `k` whose code equals `name` up to
/// ASCII case, else `UnknownStat`.
pub open spec fn lookup_stat_from(st: Seq<(String, i32)>, name: Seq<char>, k: int) -> Result<
    i64,
    EvalError,
>
    decreases st.len() - k,
{
    if k < 0 || k >= st.len() {
        Err(EvalError::UnknownStat)
    } else if eq_ic(name, st[k].0@) {
        Ok(st[k].1 as i64)
    } else {
        lookup_stat_from(st, name, k + 1)
    }
}

/// Case-insensitive stat lookup: the first matching entry wins.
pub open spec fn lookup_stat(st: Seq<(String, i32)>, name: Seq<char>) -> Result<i64, EvalError> {
    lookup_stat_from(st, name, 0)
}

/// End of the identifier-character run starting at `i`.
pub open spec fn scan_ident(s: Seq<char>, i: int) -> int
    decreases fuel(s, i),
{
    if 0 <= i < s.len() && is_ident_char(s[i]) {
        scan_ident(s, i + 1)
    } else {
        i
    }
}

/// Value and end position of the digit run starting at `i`, folded
/// into `acc` in wrapping arithmetic.
pub open spec fn num_tail(s: Seq<char>, acc: i64, i: int) -> (i64, int)
    decreases fuel(s, i),
{
    if 0 <= i < s.len() && is_digit(s[i]) {
        num_tail(s, w_add(w_mul(acc, 10), digit_val(s[i])), i + 1)
    } else {
        (acc, i)
    }
}

/// Smallest of a non-empty argument list.
pub open spec fn min_fold(args: Seq<i64>) -> i64
    recommends
        args.len() > 0,
    decreases args.len(),
{
    if args.len() <= 1 {
        args[0]
    } else {
        min2(min_fold(args.drop_last()), args.last())
    }
}

/// Largest of a non-empty argument list.
pub open spec fn max_fold(args: Seq<i64>) -> i64
    recommends
        args.len() > 0,
    decreases args.len(),
{
    if args.len() <= 1 {
        args[0]
    } else {
        max2(max_fold(args.drop_last()), args.last())
    }
}

/// Wrapping sum of an argument list, left to right.
pub open spec fn sum_fold(args: Seq<i64>) -> i64
    decreases args.len(),
{
    if args.len() == 0 {
        0i64
    } else {
        w_add(sum_fold(args.drop_last()), args.last())
    }
}

/// The result of calling builtin `name` (matched up to ASCII case) on
/// already-evaluated arguments.
pub open spec fn apply_fn(name: Seq<char>, args: Seq<i64>) -> Result<i64, EvalError> {
    if eq_ic(name, "MIN"@) {
        if args.len() == 0 {
            Err(EvalError::MissingArguments)
        } else {
            Ok(min_fold(args))
        }
    } else if eq_ic(name, "MAX"@) {
        if args.len() == 0 {
            Err(EvalError::MissingArguments)
        } else {
            Ok(max_fold(args))
        }
    } else if eq_ic(name, "AVERAGE"@) {
        if args.len() == 0 {
            Err(EvalError::MissingArguments)
        } else if wrap64(args.len() as int) == 0 {
            Err(EvalError::DivisionByZero)
        } else {
            Ok(div_t(sum_fold(args), wrap64(args.len() as int)))
        }
    } else if eq_ic(name, "IF"@) {
        if args.len() != 3 {
            Err(EvalError::MissingArguments)
        } else {
            Ok(if args[0] != 0 {
                args[1]
            } else {
                args[2]
            })
        }
    } else if eq_ic(name, "POW"@) {
        if args.len() != 2 {
            Err(EvalError::MissingArguments)
        } else {
            Ok(pow_v(args[0], args[1]))
        }
    } else if eq_ic(name, "NOT"@) {
        if args.len() != 1 {
            Err(EvalError::MissingArguments)
        } else {
            Ok(b2v(args[0] == 0))
        }
    } else if eq_ic(name, "AND"@) {
        if args.len() != 2 {
            Err(EvalError::MissingArguments)
        } else {
            Ok(b2v(args[0] != 0 && args[1] != 0))
        }
    } else if eq_ic(name, "OR"@) {
        if args.len() != 2 {
            Err(EvalError::MissingArguments)
        } else {
            Ok(b2v(args[0] != 0 || args[1] != 0))
        }
    } else {
        Err(EvalError::UnknownFunction)
    }
}

/// A whole expression: the loosest-binding level.
#[verifier::opaque]
pub open spec fn p_expr(s: Seq<char>, st: Seq<(String, i32)>, i: int) -> Result<
    (i64, int),
    EvalError,
>
    decreases fuel(s, i), 15int,
{
    p_or(s, st, i)
}

#[verifier::opaque]
pub open spec fn p_or(s: Seq<char>, st: Seq<(String, i32)>, i: int) -> Result<(i64, int), EvalError>
    decreases fuel(s, i), 14int,
{
    match p_and(s, st, i) {
        Err(e) => Err(e),
        Ok((v, j)) => p_or_tail(
            s,
            st,
            v,
            if j >= i {
                j
            } else {
                i
            },
        ),
    }
}

#[verifier::opaque]
pub open spec fn p_or_tail(s: Seq<char>, st: Seq<(String, i32)>, acc: i64, i: int) -> Result<
    (i64, int),
    EvalError,
>
    decreases fuel(s, i), 13int,
{
    if at2(s, i, '|', '|') {
        match p_and(s, st, i + 2) {
            Err(e) => Err(e),
            Ok((v, j)) => p_or_tail(
                s,
                st,
                b2v(acc != 0 || v != 0),
                if j >= i + 2 {
                    j
                } else {
                    i + 2
                },
            ),
        }
    } else {
        Ok((acc, i))
    }
}

#[verifier::opaque]
pub open spec fn p_and(s: Seq<char>, st: Seq<(String, i32)>, i: int) -> Result<
    (i64, int),
    EvalError,
>
    decreases fuel(s, i), 12int,
{
    match p_cmp(s, st, i) {
        Err(e) => Err(e),
        Ok((v, j)) => p_and_tail(
            s,
            st,
            v,
            if j >= i {
                j
            } else {
                i
            },
        ),
    }
}

#[verifier::opaque]
pub open spec fn p_and_tail(s: Seq<char>, st: Seq<(String, i32)>, acc: i64, i: int) -> Result<
    (i64, int),
    EvalError,
>
    decreases fuel(s, i), 11int,
{
    if at2(s, i, '&', '&') {
        match p_cmp(s, st, i + 2) {
            Err(e) => Err(e),
            Ok((v, j)) => p_and_tail(
                s,
                st,
                b2v(acc != 0 && v != 0),
                if j >= i + 2 {
                    j
                } else {
                    i + 2
                },
            ),
        }
    } else {
        Ok((acc, i))
    }
}

/// One optional comparison; comparisons do not chain.
#[verifier::opaque]
pub open spec fn p_cmp(s: Seq<char>, st: Seq<(String, i32)>, i: int) -> Result<
    (i64, int),
    EvalError,
>
    decreases fuel(s, i), 10int,
{
    match p_add(s, st, i) {
        Err(e) => Err(e),
        Ok((l, j)) => {
            if at1(s, j, '>') || at1(s, j, '<') || at1(s, j, '=') || at1(s, j, '!') {
                let two = at1(s, j + 1, '=');
                let j2 = if two {
                    j + 2
                } else {
                    j + 1
                };
                match p_add(
                    s,
                    st,
                    if j2 >= i + 1 {
                        j2
                    } else {
                        i + 1
                    },
                ) {
                    Err(e) => Err(e),
                    Ok((r, j3)) => {
                        if s[j] == '>' {
                            Ok(
                                (
                                    b2v(
                                        if two {
                                            l >= r
                                        } else {
                                            l > r
                                        },
                                    ),
                                    j3,
                                ),
                            )
                        } else if s[j] == '<' {
                            Ok(
                                (
                                    b2v(
                                        if two {
                                            l <= r
                                        } else {
                                            l < r
                                        },
                                    ),
                                    j3,
                                ),
                            )
                        } else if s[j] == '=' && two {
                            Ok((b2v(l == r), j3))
                        } else if s[j] == '!' && two {
                            Ok((b2v(l != r), j3))
                        } else {
                            Err(EvalError::InvalidSyntax)
                        }
                    },
                }
            } else {
                Ok((l, j))
            }
        },
    }
}

#[verifier::opaque]
pub open spec fn p_add(s: Seq<char>, st: Seq<(String, i32)>, i: int) -> Result<
    (i64, int),
    EvalError,
>
    decreases fuel(s, i), 9int,
{
    match p_mul(s, st, i) {
        Err(e) => Err(e),
        Ok((v, j)) => p_add_tail(
            s,
            st,
            v,
            if j >= i {
                j
            } else {
                i
            },
        ),
    }
}

#[verifier::opaque]
pub open spec fn p_add_tail(s: Seq<char>, st: Seq<(String, i32)>, acc: i64, i: int) -> Result<
    (i64, int),
    EvalError,
>
    decreases fuel(s, i), 8int,
{
    if at1(s, i, '+') {
        match p_mul(s, st, i + 1) {
            Err(e) => Err(e),
            Ok((v, j)) => p_add_tail(
                s,
                st,
                w_add(acc, v),
                if j >= i + 1 {
                    j
                } else {
                    i + 1
                },
            ),
        }
    } else if at1(s, i, '-') {
        match p_mul(s, st, i + 1) {
            Err(e) => Err(e),
            Ok((v, j)) => p_add_tail(
                s,
                st,
                w_sub(acc, v),
                if j >= i + 1 {
                    j
                } else {
                    i + 1
                },
            ),
        }
    } else {
        Ok((acc, i))
    }
}

#[verifier::opaque]
pub open spec fn p_mul(s: Seq<char>, st: Seq<(String, i32)>, i: int) -> Result<
    (i64, int),
    EvalError,
>
    decreases fuel(s, i), 7int,
{
    match p_pow(s, st, i) {
        Err(e) => Err(e),
        Ok((v, j)) => p_mul_tail(
            s,
            st,
            v,
            if j >= i {
                j
            } else {
                i
            },
        ),
    }
}

#[verifier::opaque]
pub open spec fn p_mul_tail(s: Seq<char>, st: Seq<(String, i32)>, acc: i64, i: int) -> Result<
    (i64, int),
    EvalError,
>
    decreases fuel(s, i), 6int,
{
    if at1(s, i, '*') {
        match p_pow(s, st, i + 1) {
            Err(e) => Err(e),
            Ok((v, j)) => p_mul_tail(
                s,
                st,
                w_mul(acc, v),
                if j >= i + 1 {
                    j
                } else {
                    i + 1
                },
            ),
        }
    } else if at1(s, i, '/') {
        match p_pow(s, st, i + 1) {
            Err(e) => Err(e),
            Ok((v, j)) => {
                if v == 0 {
                    Err(EvalError::DivisionByZero)
                } else {
                    p_mul_tail(
                        s,
                        st,
                        div_t(acc, v),
                        if j >= i + 1 {
                            j
                        } else {
                            i + 1
                        },
                    )
                }
            },
        }
    } else {
        Ok((acc, i))
    }
}

/// Left-associative power chain.
#[verifier::opaque]
pub open spec fn p_pow(s: Seq<char>, st: Seq<(String, i32)>, i: int) -> Result<
    (i64, int),
    EvalError,
>
    decreases fuel(s, i), 5int,
{
    match p_atom(s, st, i) {
        Err(e) => Err(e),
        Ok((v, j)) => p_pow_tail(
            s,
            st,
            v,
            if j >= i {
                j
            } else {
                i
            },
        ),
    }
}

#[verifier::opaque]
pub open spec fn p_pow_tail(s: Seq<char>, st: Seq<(String, i32)>, acc: i64, i: int) -> Result<
    (i64, int),
    EvalError,
>
    decreases fuel(s, i), 4int,
{
    if at1(s, i, '^') {
        match p_atom(s, st, i + 1) {
            Err(e) => Err(e),
            Ok((v, j)) => p_pow_tail(
                s,
                st,
                pow_v(acc, v),
                if j >= i + 1 {
                    j
                } else {
                    i + 1
                },
            ),
        }
    } else {
        Ok((acc, i))
    }
}

#[verifier::opaque]
pub open spec fn p_atom(s: Seq<char>, st: Seq<(String, i32)>, i: int) -> Result<
    (i64, int),
    EvalError,
>
    decreases fuel(s, i), 3int,
{
    if at1(s, i, '-') {
        match p_atom(s, st, i + 1) {
            Err(e) => Err(e),
            Ok((v, j)) => Ok((w_neg(v), j)),
        }
    } else if at1(s, i, '!') {
        if at1(s, i + 1, '(') {
            match p_expr(s, st, i + 2) {
                Err(e) => Err(e),
                Ok((v, j)) => {
                    if at1(s, j, ')') {
                        Ok((b2v(v == 0), j + 1))
                    } else {
                        Err(EvalError::InvalidSyntax)
                    }
                },
            }
        } else {
            match p_atom(s, st, i + 1) {
                Err(e) => Err(e),
                Ok((v, j)) => Ok((b2v(v == 0), j)),
            }
        }
    } else if 0 <= i < s.len() && is_digit(s[i]) {
        Ok(num_tail(s, 0i64, i))
    } else if 0 <= i < s.len() && is_alpha(s[i]) {
        let j0 = scan_ident(s, i);
        let j = if j0 < i + 1 {
            i + 1
        } else if j0 > s.len() {
            s.len() as int
        } else {
            j0
        };
        let name = s.subrange(i, j);
        if at1(s, j, '(') {
            match p_args(s, st, Seq::empty(), j + 1) {
                Err(e) => Err(e),
                Ok((args, j2)) => match apply_fn(name, args) {
                    Err(e) => Err(e),
                    Ok(v) => Ok((v, j2)),
                },
            }
        } else {
            match lookup_stat(st, name) {
                Err(e) => Err(e),
                Ok(v) => Ok((v, j)),
            }
        }
    } else if at1(s, i, '(') {
        match p_expr(s, st, i + 1) {
            Err(e) => Err(e),
            Ok((v, j)) => {
                if at1(s, j, ')') {
                    Ok((v, j + 1))
                } else {
                    Err(EvalError::InvalidSyntax)
                }
            },
        }
    } else {
        Err(EvalError::InvalidSyntax)
    }
}

/// A `(`-terminated argument list, starting after the `(`; a trailing
/// comma before `)` is allowed, as is an empty list.
#[verifier::opaque]
pub open spec fn p_args(s: Seq<char>, st: Seq<(String, i32)>, acc: Seq<i64>, i: int) -> Result<
    (Seq<i64>, int),
    EvalError,
>
    decreases fuel(s, i), 16int,
{
    if i >= s.len() {
        Err(EvalError::InvalidSyntax)
    } else if at1(s, i, ')') {
        Ok((acc, i + 1))
    } else {
        match p_expr(s, st, i) {
            Err(e) => Err(e),
            Ok((v, j)) => {
                if at1(s, j, ',') {
                    p_args(
                        s,
                        st,
                        acc.push(v),
                        if j + 1 >= i + 1 {
                            j + 1
                        } else {
                            i + 1
                        },
                    )
                } else if at1(s, j, ')') {
                    Ok((acc.push(v), j + 1))
                } else {
                    Err(EvalError::InvalidSyntax)
                }
            },
        }
    }
}

/// The input with every white-space character removed.
pub open spec fn strip(s: Seq<char>) -> Seq<char>
    decreases s.len(),
{
    if s.len() == 0 {
        Seq::empty()
    } else {
        let r = strip(s.drop_last());
        if is_space(s.last()) {
            r
        } else {
            r.push(s.last())
        }
    }
}

/// What `evaluate` returns: the stripped input parsed as one whole
/// expression against the given stats.
pub open spec fn spec_evaluate(st: Seq<(String, i32)>, expr: Seq<char>) -> Result<i64, EvalError> {
    let t = strip(expr);
    match p_expr(t, st, 0) {
        Err(e) => Err(e),
        Ok((v, j)) => {
            if j == t.len() {
                Ok(v)
            } else {
                Err(EvalError::InvalidSyntax)
            }
        },
    }
}

proof fn lemma_scan_bounds(s: Seq<char>, i: int)
    requires
        0 <= i <= s.len(),
    ensures
        i <= scan_ident(s, i) <= s.len(),
    decreases fuel(s, i),
{
    if 0 <= i < s.len() && is_ident_char(s[i]) {
        lemma_scan_bounds(s, i + 1);
    }
}

fn collect_range(s: &Vec<char>, a: usize, b: usize) -> (r: Vec<char>)
    requires
        a <= b <= s.len(),
    ensures
        r@ == s@.subrange(a as int, b as int),
{
    let mut r: Vec<char> = Vec::new();
    let mut i: usize = a;
    while i < b
        invariant
            a <= i <= b <= s.len(),
            r@ == s@.subrange(a as int, i as int),
        decreases b - i,
    {
        r.push(s[i]);
        i = i + 1;
    }
    proof {
        assert(s@.subrange(a as int, i as int) =~= s@.subrange(a as int, b as int));
    }
    r
}

fn e_lookup_stat(player: &Player, name: &Vec<char>) -> (r: Result<i64, EvalError>)
    ensures
        r == lookup_stat(player.stats@, name@),
{
    let mut k: usize = 0;
    while k < player.stats.len()
        invariant
            k <= player.stats.len(),
            lookup_stat_from(player.stats@, name@, 0) == lookup_stat_from(
                player.stats@,
                name@,
                k as int,
            ),
        decreases player.stats.len() - k,
    {
        if chars_eq_ic_str(name, player.stats[k].0.as_str()) {
            proof {
                assert(lookup_stat_from(player.stats@, name@, k as int) == Ok::<i64, EvalError>(
                    player.stats@[k as int].1 as i64,
                ));
            }
            return Ok(player.stats[k].1 as i64);
        }
        k = k + 1;
    }
    Err(EvalError::UnknownStat)
}

fn e_apply(name: &Vec<char>, args: &Vec<i64>) -> (r: Result<i64, EvalError>)
    ensures
        r == apply_fn(name@, args@),
{
    let n = args.len();
    if chars_eq_ic_str(name, "MIN") {
        if n == 0 {
            return Err(EvalError::MissingArguments);
        }
        let mut acc: i64 = args[0];
        let mut k: usize = 1;
        while k < n
            invariant
                1 <= k <= n == args.len(),
                acc == min_fold(args@.take(k as int)),
            decreases n - k,
        {
            proof {
                assert(args@.take(k + 1).drop_last() =~= args@.take(k as int));
            }
            if args[k] < acc {
                acc = args[k];
            }
            k = k + 1;
        }
        proof {
            assert(args@.take(n as int) =~= args@);
        }
        Ok(acc)
    } else if chars_eq_ic_str(name, "MAX") {
        if n == 0 {
            return Err(EvalError::MissingArguments);
        }
        let mut acc: i64 = args[0];
        let mut k: usize = 1;
        while k < n
            invariant
                1 <= k <= n == args.len(),
                acc == max_fold(args@.take(k as int)),
            decreases n - k,
        {
            proof {
                assert(args@.take(k + 1).drop_last() =~= args@.take(k as int));
            }
            if args[k] > acc {
                acc = args[k];
            }
            k = k + 1;
        }
        proof {
            assert(args@.take(n as int) =~= args@);
        }
        Ok(acc)
    } else if chars_eq_ic_str(name, "AVERAGE") {
        if n == 0 {
            return Err(EvalError::MissingArguments);
        }
        let mut acc: i64 = 0;
        let mut k: usize = 0;
        while k < n
            invariant
                k <= n == args.len(),
                acc == sum_fold(args@.take(k as int)),
            decreases n - k,
        {
            proof {
                assert(args@.take(k + 1).drop_last() =~= args@.take(k as int));
            }
            acc = add_w(acc, args[k]);
            k = k + 1;
        }
        proof {
            assert(args@.take(n as int) =~= args@);
        }
        let d = len_to_i64(n);
        if d == 0 {
            Err(EvalError::DivisionByZero)
        } else {
            Ok(div_w(acc, d))
        }
    } else if chars_eq_ic_str(name, "IF") {
        if n != 3 {
            Err(EvalError::MissingArguments)
        } else {
            Ok(
                if args[0] != 0 {
                    args[1]
                } else {
                    args[2]
                },
            )
        }
    } else if chars_eq_ic_str(name, "POW") {
        if n != 2 {
            Err(EvalError::MissingArguments)
        } else {
            Ok(pow_w(args[0], args[1]))
        }
    } else if chars_eq_ic_str(name, "NOT") {
        if n != 1 {
            Err(EvalError::MissingArguments)
        } else {
            Ok(
                if args[0] == 0 {
                    1
                } else {
                    0
                },
            )
        }
    } else if chars_eq_ic_str(name, "AND") {
        if n != 2 {
            Err(EvalError::MissingArguments)
        } else {
            Ok(
                if args[0] != 0 && args[1] != 0 {
                    1
                } else {
                    0
                },
            )
        }
    } else if chars_eq_ic_str(name, "OR") {
        if n != 2 {
            Err(EvalError::MissingArguments)
        } else {
            Ok(
                if args[0] != 0 || args[1] != 0 {
                    1
                } else {
                    0
                },
            )
        }
    } else {
        Err(EvalError::UnknownFunction)
    }
}


proof fn lemma_p_or_unfold(s: Seq<char>, st: Seq<(String, i32)>, i: int)
    ensures
        p_or(s, st, i) == (match p_and(s, st, i) {
            Err(e) => Err::<(i64, int), EvalError>(e),
            Ok((v, j)) => p_or_tail(
                s,
                st,
                v,
                if j >= i {
                    j
                } else {
                    i
                },
            ),
        }),
{
    reveal_with_fuel(p_or, 1);
    reveal_with_fuel(p_and, 1);
    reveal_with_fuel(p_or_tail, 1);
}

proof fn lemma_p_and_unfold(s: Seq<char>, st: Seq<(String, i32)>, i: int)
    ensures
        p_and(s, st, i) == (match p_cmp(s, st, i) {
            Err(e) => Err::<(i64, int), EvalError>(e),
            Ok((v, j)) => p_and_tail(
                s,
                st,
                v,
                if j >= i {
                    j
                } else {
                    i
                },
            ),
        }),
{
    reveal_with_fuel(p_and, 1);
    reveal_with_fuel(p_cmp, 1);
    reveal_with_fuel(p_and_tail, 1);
}

proof fn lemma_p_add_unfold(s: Seq<char>, st: Seq<(String, i32)>, i: int)
    ensures
        p_add(s, st, i) == (match p_mul(s, st, i) {
            Err(e) => Err::<(i64, int), EvalError>(e),
            Ok((v, j)) => p_add_tail(
                s,
                st,
                v,
                if j >= i {
                    j
                } else {
                    i
                },
            ),
        }),
{
    reveal_with_fuel(p_add, 1);
    reveal_with_fuel(p_mul, 1);
    reveal_with_fuel(p_add_tail, 1);
}

proof fn lemma_p_mul_unfold(s: Seq<char>, st: Seq<(String, i32)>, i: int)
    ensures
        p_mul(s, st, i) == (match p_pow(s, st, i) {
            Err(e) => Err::<(i64, int), EvalError>(e),
            Ok((v, j)) => p_mul_tail(
                s,
                st,
                v,
                if j >= i {
                    j
                } else {
                    i
                },
            ),
        }),
{
    reveal_with_fuel(p_mul, 1);
    reveal_with_fuel(p_pow, 1);
    reveal_with_fuel(p_mul_tail, 1);
}

#[verifier::rlimit(60)]
fn e_expr(s: &Vec<char>, player: &Player, pos: usize) -> (r: Result<(i64, usize), EvalError>)
    requires
        pos <= s.len(),
    ensures
        (match r {
            Ok((v, j)) => pos <= j <= s.len() && p_expr(s@, player.stats@, pos as int) == Ok::<
                (i64, int),
                EvalError,
            >((v, j as int)),
            Err(e) => p_expr(s@, player.stats@, pos as int) == Err::<(i64, int), EvalError>(e),
        }),
    decreases fuel(s@, pos as int), 15int,
{
    proof {
        reveal_with_fuel(p_expr, 1);
        reveal_with_fuel(p_or, 1);
    }
    e_or(s, player, pos)
}

#[verifier::rlimit(100)]
fn e_or(s: &Vec<char>, player: &Player, pos: usize) -> (r: Result<(i64, usize), EvalError>)
    requires
        pos <= s.len(),
    ensures
        (match r {
            Ok((v, j)) => pos <= j <= s.len() && p_or(s@, player.stats@, pos as int) == Ok::<
                (i64, int),
                EvalError,
            >((v, j as int)),
            Err(e) => p_or(s@, player.stats@, pos as int) == Err::<(i64, int), EvalError>(e),
        }),
    decreases fuel(s@, pos as int), 14int,
{
    proof {
        lemma_p_or_unfold(s@, player.stats@, pos as int);
    }
    match e_and(s, player, pos) {
        Err(e) => Err(e),
        Ok((v, j)) => e_or_tail(s, player, v, j),
    }
}

#[verifier::rlimit(60)]
fn e_or_tail(s: &Vec<char>, player: &Player, acc: i64, pos: usize) -> (r: Result<
    (i64, usize),
    EvalError,
>)
    requires
        pos <= s.len(),
    ensures
        (match r {
            Ok((v, j)) => pos <= j <= s.len() && p_or_tail(s@, player.stats@, acc, pos as int)
                == Ok::<(i64, int), EvalError>((v, j as int)),
            Err(e) => p_or_tail(s@, player.stats@, acc, pos as int) == Err::<(i64, int), EvalError>(
                e,
            ),
        }),
    decreases fuel(s@, pos as int), 13int,
{
    proof {
        reveal_with_fuel(p_or_tail, 1);
        reveal_with_fuel(p_and, 1);
    }
    if pos < s.len() && s[pos] == '|' && pos + 1 < s.len() && s[pos + 1] == '|' {
        match e_and(s, player, pos + 2) {
            Err(e) => Err(e),
            Ok((v, j)) => {
                let b: i64 = if acc != 0 || v != 0 {
                    1
                } else {
                    0
                };
                e_or_tail(s, player, b, j)
            },
        }
    } else {
        Ok((acc, pos))
    }
}

#[verifier::rlimit(100)]
fn e_and(s: &Vec<char>, player: &Player, pos: usize) -> (r: Result<(i64, usize), EvalError>)
    requires
        pos <= s.len(),
    ensures
        (match r {
            Ok((v, j)) => pos <= j <= s.len() && p_and(s@, player.stats@, pos as int) == Ok::<
                (i64, int),
                EvalError,
            >((v, j as int)),
            Err(e) => p_and(s@, player.stats@, pos as int) == Err::<(i64, int), EvalError>(e),
        }),
    decreases fuel(s@, pos as int), 12int,
{
    proof {
        lemma_p_and_unfold(s@, player.stats@, pos as int);
    }
    match e_cmp(s, player, pos) {
        Err(e) => Err(e),
        Ok((v, j)) => e_and_tail(s, player, v, j),
    }
}

#[verifier::rlimit(60)]
fn e_and_tail(s: &Vec<char>, player: &Player, acc: i64, pos: usize) -> (r: Result<
    (i64, usize),
    EvalError,
>)
    requires
        pos <= s.len(),
    ensures
        (match r {
            Ok((v, j)) => pos <= j <= s.len() && p_and_tail(s@, player.stats@, acc, pos as int)
                == Ok::<(i64, int), EvalError>((v, j as int)),
            Err(e) => p_and_tail(s@, player.stats@, acc, pos as int) == Err::<
                (i64, int),
                EvalError,
            >(e),
        }),
    decreases fuel(s@, pos as int), 11int,
{
    proof {
        reveal_with_fuel(p_and_tail, 1);
        reveal_with_fuel(p_cmp, 1);
    }
    if pos < s.len() && s[pos] == '&' && pos + 1 < s.len() && s[pos + 1] == '&' {
        match e_cmp(s, player, pos + 2) {
            Err(e) => Err(e),
            Ok((v, j)) => {
                let b: i64 = if acc != 0 && v != 0 {
                    1
                } else {
                    0
                };
                e_and_tail(s, player, b, j)
            },
        }
    } else {
        Ok((acc, pos))
    }
}

#[verifier::rlimit(60)]
fn e_cmp(s: &Vec<char>, player: &Player, pos: usize) -> (r: Result<(i64, usize), EvalError>)
    requires
        pos <= s.len(),
    ensures
        (match r {
            Ok((v, j)) => pos <= j <= s.len() && p_cmp(s@, player.stats@, pos as int) == Ok::<
                (i64, int),
                EvalError,
            >((v, j as int)),
            Err(e) => p_cmp(s@, player.stats@, pos as int) == Err::<(i64, int), EvalError>(e),
        }),
    decreases fuel(s@, pos as int), 10int,
{
    proof {
        reveal_with_fuel(p_cmp, 1);
        reveal_with_fuel(p_add, 1);
    }
    match e_add(s, player, pos) {
        Err(e) => Err(e),
        Ok((l, j)) => {
            if j < s.len() && (s[j] == '>' || s[j] == '<' || s[j] == '=' || s[j] == '!') {
                let two = j + 1 < s.len() && s[j + 1] == '=';
                let j2 = if two {
                    j + 2
                } else {
                    j + 1
                };
                match e_add(s, player, j2) {
                    Err(e) => Err(e),
                    Ok((rv, j3)) => {
                        let c = s[j];
                        if c == '>' {
                            let b: i64 = if (two && l >= rv) || (!two && l > rv) {
                                1
                            } else {
                                0
                            };
                            Ok((b, j3))
                        } else if c == '<' {
                            let b: i64 = if (two && l <= rv) || (!two && l < rv) {
                                1
                            } else {
                                0
                            };
                            Ok((b, j3))
                        } else if c == '=' && two {
                            let b: i64 = if l == rv {
                                1
                            } else {
                                0
                            };
                            Ok((b, j3))
                        } else if c == '!' && two {
                            let b: i64 = if l != rv {
                                1
                            } else {
                                0
                            };
                            Ok((b, j3))
                        } else {
                            Err(EvalError::InvalidSyntax)
                        }
                    },
                }
            } else {
                Ok((l, j))
            }
        },
    }
}

#[verifier::rlimit(60)]
fn e_add(s: &Vec<char>, player: &Player, pos: usize) -> (r: Result<(i64, usize), EvalError>)
    requires
        pos <= s.len(),
    ensures
        (match r {
            Ok((v, j)) => pos <= j <= s.len() && p_add(s@, player.stats@, pos as int) == Ok::<
                (i64, int),
                EvalError,
            >((v, j as int)),
            Err(e) => p_add(s@, player.stats@, pos as int) == Err::<(i64, int), EvalError>(e),
        }),
    decreases fuel(s@, pos as int), 9int,
{
    proof {
        lemma_p_add_unfold(s@, player.stats@, pos as int);
    }
    match e_mul(s, player, pos) {
        Err(e) => Err(e),
        Ok((v, j)) => e_add_tail(s, player, v, j),
    }
}

#[verifier::rlimit(60)]
fn e_add_tail(s: &Vec<char>, player: &Player, acc: i64, pos: usize) -> (r: Result<
    (i64, usize),
    EvalError,
>)
    requires
        pos <= s.len(),
    ensures
        (match r {
            Ok((v, j)) => pos <= j <= s.len() && p_add_tail(s@, player.stats@, acc, pos as int)
                == Ok::<(i64, int), EvalError>((v, j as int)),
            Err(e) => p_add_tail(s@, player.stats@, acc, pos as int) == Err::<
                (i64, int),
                EvalError,
            >(e),
        }),
    decreases fuel(s@, pos as int), 8int,
{
    proof {
        reveal_with_fuel(p_add_tail, 1);
        reveal_with_fuel(p_mul, 1);
    }
    if pos < s.len() && s[pos] == '+' {
        match e_mul(s, player, pos + 1) {
            Err(e) => Err(e),
            Ok((v, j)) => e_add_tail(s, player, add_w(acc, v), j),
        }
    } else if pos < s.len() && s[pos] == '-' {
        match e_mul(s, player, pos + 1) {
            Err(e) => Err(e),
            Ok((v, j)) => e_add_tail(s, player, sub_w(acc, v), j),
        }
    } else {
        Ok((acc, pos))
    }
}

#[verifier::rlimit(60)]
fn e_mul(s: &Vec<char>, player: &Player, pos: usize) -> (r: Result<(i64, usize), EvalError>)
    requires
        pos <= s.len(),
    ensures
        (match r {
            Ok((v, j)) => pos <= j <= s.len() && p_mul(s@, player.stats@, pos as int) == Ok::<
                (i64, int),
                EvalError,
            >((v, j as int)),
            Err(e) => p_mul(s@, player.stats@, pos as int) == Err::<(i64, int), EvalError>(e),
        }),
    decreases fuel(s@, pos as int), 7int,
{
    proof {
        lemma_p_mul_unfold(s@, player.stats@, pos as int);
    }
    match e_pow(s, player, pos) {
        Err(e) => Err(e),
        Ok((v, j)) => e_mul_tail(s, player, v, j),
    }
}

#[verifier::rlimit(60)]
fn e_mul_tail(s: &Vec<char>, player: &Player, acc: i64, pos: usize) -> (r: Result<
    (i64, usize),
    EvalError,
>)
    requires
        pos <= s.len(),
    ensures
        (match r {
            Ok((v, j)) => pos <= j <= s.len() && p_mul_tail(s@, player.stats@, acc, pos as int)
                == Ok::<(i64, int), EvalError>((v, j as int)),
            Err(e) => p_mul_tail(s@, player.stats@, acc, pos as int) == Err::<
                (i64, int),
                EvalError,
            >(e),
        }),
    decreases fuel(s@, pos as int), 6int,
{
    proof {
        reveal_with_fuel(p_mul_tail, 1);
        reveal_with_fuel(p_pow, 1);
    }
    if pos < s.len() && s[pos] == '*' {
        match e_pow(s, player, pos + 1) {
            Err(e) => Err(e),
            Ok((v, j)) => e_mul_tail(s, player, mul_w(acc, v), j),
        }
    } else if pos < s.len() && s[pos] == '/' {
        match e_pow(s, player, pos + 1) {
            Err(e) => Err(e),
            Ok((v, j)) => {
                if v == 0 {
                    Err(EvalError::DivisionByZero)
                } else {
                    e_mul_tail(s, player, div_w(acc, v), j)
                }
            },
        }
    } else {
        Ok((acc, pos))
    }
}

#[verifier::rlimit(60)]
fn e_pow(s: &Vec<char>, player: &Player, pos: usize) -> (r: Result<(i64, usize), EvalError>)
    requires
        pos <= s.len(),
    ensures
        (match r {
            Ok((v, j)) => pos <= j <= s.len() && p_pow(s@, player.stats@, pos as int) == Ok::<
                (i64, int),
                EvalError,
            >((v, j as int)),
            Err(e) => p_pow(s@, player.stats@, pos as int) == Err::<(i64, int), EvalError>(e),
        }),
    decreases fuel(s@, pos as int), 5int,
{
    proof {
        reveal_with_fuel(p_pow, 1);
        reveal_with_fuel(p_atom, 1);
        reveal_with_fuel(p_pow_tail, 1);
    }
    match e_atom(s, player, pos) {
        Err(e) => Err(e),
        Ok((v, j)) => e_pow_tail(s, player, v, j),
    }
}

#[verifier::rlimit(60)]
fn e_pow_tail(s: &Vec<char>, player: &Player, acc: i64, pos: usize) -> (r: Result<
    (i64, usize),
    EvalError,
>)
    requires
        pos <= s.len(),
    ensures
        (match r {
            Ok((v, j)) => pos <= j <= s.len() && p_pow_tail(s@, player.stats@, acc, pos as int)
                == Ok::<(i64, int), EvalError>((v, j as int)),
            Err(e) => p_pow_tail(s@, player.stats@, acc, pos as int) == Err::<
                (i64, int),
                EvalError,
            >(e),
        }),
    decreases fuel(s@, pos as int), 4int,
{
    proof {
        reveal_with_fuel(p_pow_tail, 1);
        reveal_with_fuel(p_atom, 1);
    }
    if pos < s.len() && s[pos] == '^' {
        match e_atom(s, player, pos + 1) {
            Err(e) => Err(e),
            Ok((v, j)) => e_pow_tail(s, player, pow_w(acc, v), j),
        }
    } else {
        Ok((acc, pos))
    }
}

fn e_number(s: &Vec<char>, pos: usize) -> (r: (i64, usize))
    requires
        pos <= s.len(),
    ensures
        pos <= r.1 <= s.len(),
        num_tail(s@, 0i64, pos as int) == (r.0, r.1 as int),
{
    let mut acc: i64 = 0;
    let mut j: usize = pos;
    while j < s.len() && is_digit_char(s[j])
        invariant
            pos <= j <= s.len(),
            num_tail(s@, 0i64, pos as int) == num_tail(s@, acc, j as int),
        decreases s.len() - j,
    {
        let d: i64 = ((s[j] as u32) - 0x30) as i64;
        acc = add_w(mul_w(acc, 10), d);
        j = j + 1;
    }
    (acc, j)
}

#[verifier::rlimit(60)]
fn e_atom(s: &Vec<char>, player: &Player, pos: usize) -> (r: Result<(i64, usize), EvalError>)
    requires
        pos <= s.len(),
    ensures
        (match r {
            Ok((v, j)) => pos <= j <= s.len() && p_atom(s@, player.stats@, pos as int) == Ok::<
                (i64, int),
                EvalError,
            >((v, j as int)),
            Err(e) => p_atom(s@, player.stats@, pos as int) == Err::<(i64, int), EvalError>(e),
        }),
    decreases fuel(s@, pos as int), 3int,
{
    proof {
        reveal_with_fuel(p_atom, 1);
        reveal_with_fuel(p_expr, 1);
        reveal_with_fuel(p_args, 1);
    }
    if pos < s.len() && s[pos] == '-' {
        match e_atom(s, player, pos + 1) {
            Err(e) => Err(e),
            Ok((v, j)) => Ok((neg_w(v), j)),
        }
    } else if pos < s.len() && s[pos] == '!' {
        if pos + 1 < s.len() && s[pos + 1] == '(' {
            match e_expr(s, player, pos + 2) {
                Err(e) => Err(e),
                Ok((v, j)) => {
                    if j < s.len() && s[j] == ')' {
                        let b: i64 = if v == 0 {
                            1
                        } else {
                            0
                        };
                        Ok((b, j + 1))
                    } else {
                        Err(EvalError::InvalidSyntax)
                    }
                },
            }
        } else {
            match e_atom(s, player, pos + 1) {
                Err(e) => Err(e),
                Ok((v, j)) => {
                    let b: i64 = if v == 0 {
                        1
                    } else {
                        0
                    };
                    Ok((b, j))
                },
            }
        }
    } else if pos < s.len() && is_digit_char(s[pos]) {
        let (v, j) = e_number(s, pos);
        Ok((v, j))
    } else if pos < s.len() && is_alpha_char(s[pos]) {
        let mut j: usize = pos;
        while j < s.len() && is_ident_char_exec(s[j])
            invariant
                pos <= j <= s.len(),
                scan_ident(s@, pos as int) == scan_ident(s@, j as int),
            decreases s.len() - j,
        {
            j = j + 1;
        }
        proof {
            lemma_scan_bounds(s@, pos + 1);
        }
        let name = collect_range(s, pos, j);
        if j < s.len() && s[j] == '(' {
            let acc: Vec<i64> = Vec::new();
            match e_args(s, player, acc, j + 1) {
                Err(e) => Err(e),
                Ok((args, j2)) => {
                    match e_apply(&name, &args) {
                        Err(e) => Err(e),
                        Ok(v) => Ok((v, j2)),
                    }
                },
            }
        } else {
            match e_lookup_stat(player, &name) {
                Err(e) => Err(e),
                Ok(v) => Ok((v, j)),
            }
        }
    } else if pos < s.len() && s[pos] == '(' {
        match e_expr(s, player, pos + 1) {
            Err(e) => Err(e),
            Ok((v, j)) => {
                if j < s.len() && s[j] == ')' {
                    Ok((v, j + 1))
                } else {
                    Err(EvalError::InvalidSyntax)
                }
            },
        }
    } else {
        Err(EvalError::InvalidSyntax)
    }
}

#[verifier::rlimit(60)]
fn e_args(s: &Vec<char>, player: &Player, acc: Vec<i64>, pos: usize) -> (r: Result<
    (Vec<i64>, usize),
    EvalError,
>)
    requires
        pos <= s.len(),
    ensures
        (match r {
            Ok((args, j)) => pos <= j <= s.len() && p_args(s@, player.stats@, acc@, pos as int)
                == Ok::<(Seq<i64>, int), EvalError>((args@, j as int)),
            Err(e) => p_args(s@, player.stats@, acc@, pos as int) == Err::<
                (Seq<i64>, int),
                EvalError,
            >(e),
        }),
    decreases fuel(s@, pos as int), 16int,
{
    proof {
        reveal_with_fuel(p_args, 1);
        reveal_with_fuel(p_expr, 1);
    }
    if pos >= s.len() {
        Err(EvalError::InvalidSyntax)
    } else if s[pos] == ')' {
        Ok((acc, pos + 1))
    } else {
        match e_expr(s, player, pos) {
            Err(e) => Err(e),
            Ok((v, j)) => {
                if j < s.len() && s[j] == ',' {
                    let mut acc2 = acc;
                    acc2.push(v);
                    e_args(s, player, acc2, j + 1)
                } else if j < s.len() && s[j] == ')' {
                    let mut acc2 = acc;
                    acc2.push(v);
                    Ok((acc2, j + 1))
                } else {
                    Err(EvalError::InvalidSyntax)
                }
            },
        }
    }
}

/// Evaluates a formula against one player's stats.
///
/// The whole input must form one expression once white space is
/// removed; the result is exactly `spec_evaluate` applied to the
/// player's stat table and the input characters.
pub fn evaluate(player: &Player, expr: &str) -> (r: Result<i64, EvalError>)
    ensures
        r == spec_evaluate(player.stats@, expr@),
{
    let cs = str_chars(expr);
    let mut t: Vec<char> = Vec::new();
    let mut i: usize = 0;
    while i < cs.len()
        invariant
            i <= cs.len(),
            t@ == strip(cs@.subrange(0, i as int)),
        decreases cs.len() - i,
    {
        proof {
            assert(cs@.subrange(0, i + 1).drop_last() =~= cs@.subrange(0, i as int));
            assert(cs@.subrange(0, i + 1).last() == cs@[i as int]);
        }
        if !is_space_char(cs[i]) {
            t.push(cs[i]);
        }
        i = i + 1;
    }
    proof {
        assert(cs@.subrange(0, cs@.len() as int) =~= cs@);
    }
    let n = t.len();
    match e_expr(&t, player, 0) {
        Err(e) => Err(e),
        Ok((v, j)) => {
            if j == n {
                Ok(v)
            } else {
                Err(EvalError::InvalidSyntax)
            }
        },
    }
}

/// Scores a player for one position: evaluates the position's formula
/// (its mapping entry, else the position code itself).
pub fn evaluate_position(player: &Player, position: &str, reqs: &PositionRequirements) -> (r:
    Result<i64, EvalError>)
    ensures
        r == spec_evaluate(
            player.stats@,
            crate::composition::formula_of(reqs.position_to_calculation@, position@),
        ),
{
    let mut k: usize = 0;
    while k < reqs.position_to_calculation.len()
        invariant
            k <= reqs.position_to_calculation.len(),
            crate::composition::calc_lookup_from(reqs.position_to_calculation@, position@, 0)
                == crate::composition::calc_lookup_from(
                reqs.position_to_calculation@,
                position@,
                k as int,
            ),
        decreases reqs.position_to_calculation.len() - k,
    {
        if crate::text::str_eq(reqs.position_to_calculation[k].0.as_str(), position) {
            proof {
                assert(crate::composition::calc_lookup_from(
                    reqs.position_to_calculation@,
                    position@,
                    k as int,
                ) == Some(reqs.position_to_calculation@[k as int].1@));
            }
            return evaluate(player, reqs.position_to_calculation[k].1.as_str());
        }
        k = k + 1;
    }
    evaluate(player, position)
}

} // verus!
