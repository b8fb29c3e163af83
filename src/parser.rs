//! The grammar of the language, stated as a recursive-descent reading of
//! the input's bytes, and the parser that implements it.
//!
//! ```text
//! Program     := Operator WS OperandList
//! Expression  := Number | Operator WS "(" OperandList ")"
//! OperandList := Expression (WS Expression)*
//! Number      := digit+
//! Operator    := "+" | "-" | "*" | "/"
//! ```
//!
//! `WS` is one or more of space, tab, line feed and carriage return.  Spaces
//! may also lead the input, follow it, and stand just inside parentheses.
//! Groups nest at most `MAX_NESTING` deep.  A failed parse reports the first
//! fault met, reading left to right.
use vstd::prelude::*;
use vstd::string::StringSliceAdditionalSpecFns;
use crate::ast::{
    Expression, Operator, Term, lemma_terms_of, lemma_terms_of_push, lemma_view_operands,
    operator_of_byte, terms_of, well_formed,
};

verus! {

/// Why a parse failed.
#[derive(Debug, Clone, Copy, PartialEq, Eq, Structural)]
pub enum ParseError {
    /// An operator was expected and something else stood there.
    UnknownOperator,
    /// A numeral runs into a character that cannot end it, or is too large.
    MalformedNumber,
    /// A parenthesis is missing, unclosed, or closes nothing.
    UnbalancedParenthesis,
    /// An operator has no operands.
    EmptyOperandList,
    /// Input is left after a complete program.
    TrailingInput,
    /// Parenthesised groups are nested too deeply.
    NestingTooDeep,
}

/// The deepest nesting of parenthesised groups that the parser accepts.
pub const MAX_NESTING: usize = 128;

/// The byte of `(`.
pub const OPEN: u8 = 0x28;

/// The byte of `)`.
pub const CLOSE: u8 = 0x29;

/// Space, tab, line feed or carriage return.
pub open spec fn is_space(b: u8) -> bool {
    b == 0x20 || b == 0x09 || b == 0x0a || b == 0x0d
}

/// An ASCII decimal digit.
pub open spec fn is_digit(b: u8) -> bool {
    0x30 <= b <= 0x39
}

/// The first position at or after `pos` that holds no space.
pub open spec fn skip_spaces(s: Seq<u8>, pos: int) -> int
    decreases s.len() - pos,
{
    if 0 <= pos < s.len() && is_space(s[pos]) {
        skip_spaces(s, pos + 1)
    } else {
        pos
    }
}

/// Skipping spaces never moves backwards, nor past the end of the input.
pub proof fn lemma_skip_spaces_bounds(s: Seq<u8>, pos: int)
    ensures
        skip_spaces(s, pos) >= pos,
        pos <= s.len() ==> skip_spaces(s, pos) <= s.len(),
        0 <= skip_spaces(s, pos) < s.len() ==> !is_space(s[skip_spaces(s, pos)]),
    decreases s.len() - pos,
{
    if 0 <= pos < s.len() && is_space(s[pos]) {
        lemma_skip_spaces_bounds(s, pos + 1);
    }
}

/// The first position at or after `pos` that holds no digit.
pub open spec fn digits_end(s: Seq<u8>, pos: int) -> int
    decreases s.len() - pos,
{
    if 0 <= pos < s.len() && is_digit(s[pos]) {
        digits_end(s, pos + 1)
    } else {
        pos
    }
}

/// The number written in decimal by the digits `s[start..end]`.
pub open spec fn digits_value(s: Seq<u8>, start: int, end: int) -> nat
    decreases end - start,
{
    if end <= start {
        0
    } else {
        digits_value(s, start, end - 1) * 10 + (s[end - 1] - 0x30) as nat
    }
}

/// A token may end at `pos`: the input ends there, or a space or `)` follows.
pub open spec fn ends_token(s: Seq<u8>, pos: int) -> bool {
    pos >= s.len() || is_space(s[pos]) || s[pos] == CLOSE
}

/// The numeral that starts at `pos`, and the position after it.
pub open spec fn number_at(s: Seq<u8>, pos: int) -> Result<(Term, int), ParseError> {
    let end = digits_end(s, pos);
    if end == pos || !ends_token(s, end) || digits_value(s, pos, end) > usize::MAX {
        Err(ParseError::MalformedNumber)
    } else {
        Ok((Term::Num(digits_value(s, pos, end) as usize), end))
    }
}

/// The expression that starts at `pos`, inside `depth` groups, and the
/// position after it.  A group with no operator before it is reported by
/// its own fault if it has one, else as a missing operator.
pub open spec fn expr_at(s: Seq<u8>, pos: int, depth: nat) -> Result<(Term, int), ParseError>
    decreases s.len() - pos, 1int,
{
    if pos < 0 || pos >= s.len() {
        Err(ParseError::UnknownOperator)
    } else if is_digit(s[pos]) {
        number_at(s, pos)
    } else if s[pos] == CLOSE {
        Err(ParseError::UnbalancedParenthesis)
    } else if s[pos] == OPEN {
        match group_at(s, pos, depth + 1) {
            Err(x) => Err(x),
            Ok(_) => Err(ParseError::UnknownOperator),
        }
    } else {
        match operator_of_byte(s[pos]) {
            None => Err(ParseError::UnknownOperator),
            Some(op) => if pos + 1 >= s.len() {
                Err(ParseError::EmptyOperandList)
            } else if !is_space(s[pos + 1]) {
                Err(ParseError::UnknownOperator)
            } else {
                let p = skip_spaces(s, pos + 1);
                proof {
                    lemma_skip_spaces_bounds(s, pos + 1);
                }
                if p < s.len() && s[p] == OPEN {
                    match group_at(s, p, depth + 1) {
                        Err(x) => Err(x),
                        Ok((args, end)) => Ok((Term::Op(op, args), end)),
                    }
                } else {
                    Err(ParseError::UnbalancedParenthesis)
                }
            },
        }
    }
}

/// The parenthesised operand list whose `(` is at `pos`, as the `depth`-th
/// enclosing group, and the position after its `)`.
pub open spec fn group_at(s: Seq<u8>, pos: int, depth: nat) -> Result<(Seq<Term>, int), ParseError>
    decreases s.len() - pos, 0int,
{
    if depth > MAX_NESTING {
        Err(ParseError::NestingTooDeep)
    } else {
        let p = skip_spaces(s, pos + 1);
        proof {
            lemma_skip_spaces_bounds(s, pos + 1);
        }
        if p >= s.len() {
            Err(ParseError::UnbalancedParenthesis)
        } else if s[p] == CLOSE {
            Err(ParseError::EmptyOperandList)
        } else {
            group_items(s, p, depth, Seq::empty())
        }
    }
}

/// The rest of a parenthesised operand list from the operand at `pos`, after
/// the operands `acc`, and the position after its `)`.
pub open spec fn group_items(s: Seq<u8>, pos: int, depth: nat, acc: Seq<Term>) -> Result<
    (Seq<Term>, int),
    ParseError,
>
    decreases s.len() - pos, 2int,
{
    match expr_at(s, pos, depth) {
        Err(x) => Err(x),
        Ok((t, end)) => if end <= pos {
            Err(ParseError::UnbalancedParenthesis)
        } else {
            let q = skip_spaces(s, end);
            proof {
                lemma_skip_spaces_bounds(s, end);
            }
            if q < s.len() && s[q] == CLOSE {
                Ok((acc.push(t), q + 1))
            } else if q >= s.len() || q == end {
                Err(ParseError::UnbalancedParenthesis)
            } else {
                group_items(s, q, depth, acc.push(t))
            }
        },
    }
}

/// The rest of the top-level operand list from the operand at `pos`, after
/// the operands `acc`; it runs to the end of the input.
pub open spec fn top_items(s: Seq<u8>, pos: int, acc: Seq<Term>) -> Result<Seq<Term>, ParseError>
    decreases s.len() - pos,
{
    match expr_at(s, pos, 0) {
        Err(x) => Err(x),
        Ok((t, end)) => if end <= pos {
            Err(ParseError::TrailingInput)
        } else {
            let q = skip_spaces(s, end);
            proof {
                lemma_skip_spaces_bounds(s, end);
            }
            if q >= s.len() {
                Ok(acc.push(t))
            } else if s[q] == CLOSE {
                Err(ParseError::UnbalancedParenthesis)
            } else if q == end {
                Err(ParseError::TrailingInput)
            } else {
                top_items(s, q, acc.push(t))
            }
        },
    }
}

/// The program that the whole of `s` spells, or the first fault met.
pub open spec fn program(s: Seq<u8>) -> Result<Term, ParseError> {
    let p = skip_spaces(s, 0);
    if p >= s.len() {
        Err(ParseError::UnknownOperator)
    } else {
        match operator_of_byte(s[p]) {
            None => Err(ParseError::UnknownOperator),
            Some(op) => if p + 1 >= s.len() {
                Err(ParseError::EmptyOperandList)
            } else if !is_space(s[p + 1]) {
                Err(ParseError::UnknownOperator)
            } else {
                let q = skip_spaces(s, p + 1);
                if q >= s.len() {
                    Err(ParseError::EmptyOperandList)
                } else {
                    match top_items(s, q, Seq::empty()) {
                        Err(x) => Err(x),
                        Ok(args) => Ok(Term::Op(op, args)),
                    }
                }
            },
        }
    }
}

fn skip_spaces_exec(s: &[u8], pos: usize) -> (r: usize)
    requires
        pos <= s@.len(),
    ensures
        r == skip_spaces(s@, pos as int),
        pos <= r <= s@.len(),
{
    let mut i = pos;
    while i < s.len() && (s[i] == 0x20 || s[i] == 0x09 || s[i] == 0x0a || s[i] == 0x0d)
        invariant
            pos <= i <= s@.len(),
            skip_spaces(s@, i as int) == skip_spaces(s@, pos as int),
        decreases s@.len() - i,
    {
        i = i + 1;
    }
    i
}

fn is_digit_exec(b: u8) -> (r: bool)
    ensures
        r == is_digit(b),
{
    0x30 <= b && b <= 0x39
}

fn number_exec(s: &[u8], pos: usize) -> (r: Result<(Expression, usize), ParseError>)
    requires
        pos < s@.len(),
    ensures
        match r {
            Ok((e, end)) => number_at(s@, pos as int) == Ok::<(Term, int), ParseError>(
                (e@, end as int),
            ) && well_formed(e@) && pos < end <= s@.len(),
            Err(x) => number_at(s@, pos as int) == Err::<(Term, int), ParseError>(x),
        },
{
    let mut i = pos;
    let mut v: usize = 0;
    let mut too_large = false;
    while i < s.len() && is_digit_exec(s[i])
        invariant
            pos <= i <= s@.len(),
            digits_end(s@, i as int) == digits_end(s@, pos as int),
            !too_large ==> v == digits_value(s@, pos as int, i as int),
            too_large ==> digits_value(s@, pos as int, i as int) > usize::MAX,
        decreases s@.len() - i,
    {
        let d = (s[i] - 0x30) as usize;
        if !too_large {
            match v.checked_mul(10) {
                Some(t) => match t.checked_add(d) {
                    Some(n) => {
                        v = n;
                    },
                    None => {
                        too_large = true;
                    },
                },
                None => {
                    too_large = true;
                },
            }
        }
        i = i + 1;
    }
    let ends = i >= s.len() || s[i] == CLOSE || s[i] == 0x20 || s[i] == 0x09 || s[i] == 0x0a
        || s[i] == 0x0d;
    if i == pos || !ends || too_large {
        Err(ParseError::MalformedNumber)
    } else {
        Ok((Expression::Number(v), i))
    }
}

fn operator_exec(b: u8) -> (r: Option<Operator>)
    ensures
        r == operator_of_byte(b),
{
    match Operator::from_char(b as char) {
        Ok(op) => Some(op),
        Err(_) => None,
    }
}

fn is_space_exec(b: u8) -> (r: bool)
    ensures
        r == is_space(b),
{
    b == 0x20 || b == 0x09 || b == 0x0a || b == 0x0d
}

fn expr_exec(s: &[u8], pos: usize, depth: usize) -> (r: Result<(Expression, usize), ParseError>)
    requires
        pos < s@.len(),
        depth <= MAX_NESTING,
    ensures
        match r {
            Ok((e, end)) => expr_at(s@, pos as int, depth as nat) == Ok::<(Term, int), ParseError>(
                (e@, end as int),
            ) && well_formed(e@) && pos < end <= s@.len(),
            Err(x) => expr_at(s@, pos as int, depth as nat) == Err::<(Term, int), ParseError>(x),
        },
    decreases s@.len() - pos, 1int,
{
    let b = s[pos];
    if is_digit_exec(b) {
        number_exec(s, pos)
    } else if b == CLOSE {
        Err(ParseError::UnbalancedParenthesis)
    } else if b == OPEN {
        match group_exec(s, pos, depth + 1) {
            Err(x) => Err(x),
            Ok(_) => Err(ParseError::UnknownOperator),
        }
    } else {
        match operator_exec(b) {
            None => Err(ParseError::UnknownOperator),
            Some(op) => if pos + 1 >= s.len() {
                Err(ParseError::EmptyOperandList)
            } else if !is_space_exec(s[pos + 1]) {
                Err(ParseError::UnknownOperator)
            } else {
                let p = skip_spaces_exec(s, pos + 1);
                if p < s.len() && s[p] == OPEN {
                    match group_exec(s, p, depth + 1) {
                        Err(x) => Err(x),
                        Ok((args, end)) => {
                            let e = Expression::Expr(op, args);
                            proof {
                                lemma_view_operands(e);
                            }
                            Ok((e, end))
                        },
                    }
                } else {
                    Err(ParseError::UnbalancedParenthesis)
                }
            },
        }
    }
}

fn group_exec(s: &[u8], pos: usize, depth: usize) -> (r: Result<(Vec<Expression>, usize), ParseError>)
    requires
        pos < s@.len(),
        s@[pos as int] == OPEN,
        depth <= MAX_NESTING + 1,
    ensures
        match r {
            Ok((items, end)) => group_at(s@, pos as int, depth as nat) == Ok::<
                (Seq<Term>, int),
                ParseError,
            >((terms_of(items@), end as int)) && items@.len() > 0 && (forall|k: int|
                0 <= k < items@.len() ==> well_formed(#[trigger] terms_of(items@)[k]))
                && pos < end <= s@.len(),
            Err(x) => group_at(s@, pos as int, depth as nat) == Err::<(Seq<Term>, int), ParseError>(
                x,
            ),
        },
    decreases s@.len() - pos, 0int,
{
    if depth > MAX_NESTING {
        return Err(ParseError::NestingTooDeep);
    }
    let n = s.len();
    let start = skip_spaces_exec(s, pos + 1);
    if start >= n {
        return Err(ParseError::UnbalancedParenthesis);
    }
    if s[start] == CLOSE {
        return Err(ParseError::EmptyOperandList);
    }
    let mut items: Vec<Expression> = Vec::new();
    let mut p = start;
    proof {
        lemma_terms_of(items@);
        assert(terms_of(items@) =~= Seq::<Term>::empty());
    }
    loop
        invariant
            pos < start <= p < s@.len(),
            depth <= MAX_NESTING,
            group_at(s@, pos as int, depth as nat) == group_items(
                s@,
                start as int,
                depth as nat,
                Seq::empty(),
            ),
            group_items(s@, p as int, depth as nat, terms_of(items@)) == group_items(
                s@,
                start as int,
                depth as nat,
                Seq::empty(),
            ),
            forall|k: int| 0 <= k < items@.len() ==> well_formed(#[trigger] terms_of(items@)[k]),
        decreases s@.len() - p,
    {
        match expr_exec(s, p, depth) {
            Err(x) => {
                return Err(x);
            },
            Ok((e, end)) => {
                let q = skip_spaces_exec(s, end);
                proof {
                    lemma_terms_of_push(items@, e);
                    lemma_terms_of(items@.push(e));
                }
                items.push(e);
                if q < s.len() && s[q] == CLOSE {
                    return Ok((items, q + 1));
                }
                if q >= s.len() || q == end {
                    return Err(ParseError::UnbalancedParenthesis);
                }
                p = q;
            },
        }
    }
}

/// A parse result with the tree replaced by its view.
pub open spec fn result_view(r: Result<Expression, ParseError>) -> Result<Term, ParseError> {
    match r {
        Ok(e) => Ok(e@),
        Err(x) => Err(x),
    }
}

/// Parses a whole program from its bytes: an operator, spaces, and a
/// space-separated operand list that runs to the end of the input.
pub fn parse_bytes(s: &[u8]) -> (r: Result<Expression, ParseError>)
    ensures
        result_view(r) == program(s@),
        r is Ok ==> well_formed(r->Ok_0@),
{
    let n = s.len();
    let p = skip_spaces_exec(s, 0);
    if p >= n {
        return Err(ParseError::UnknownOperator);
    }
    let op = match operator_exec(s[p]) {
        None => {
            return Err(ParseError::UnknownOperator);
        },
        Some(op) => op,
    };
    if p + 1 >= n {
        return Err(ParseError::EmptyOperandList);
    }
    if !is_space_exec(s[p + 1]) {
        return Err(ParseError::UnknownOperator);
    }
    let start = skip_spaces_exec(s, p + 1);
    if start >= n {
        return Err(ParseError::EmptyOperandList);
    }
    let mut items: Vec<Expression> = Vec::new();
    let mut q = start;
    proof {
        lemma_terms_of(items@);
        assert(terms_of(items@) =~= Seq::<Term>::empty());
    }
    loop
        invariant
            p < start <= q < s@.len(),
            n == s@.len(),
            operator_of_byte(s@[p as int]) == Some(op),
            program(s@) == match top_items(s@, start as int, Seq::empty()) {
                Err(x) => Err(x),
                Ok(args) => Ok(Term::Op(op, args)),
            },
            top_items(s@, q as int, terms_of(items@)) == top_items(
                s@,
                start as int,
                Seq::empty(),
            ),
            forall|k: int| 0 <= k < items@.len() ==> well_formed(#[trigger] terms_of(items@)[k]),
        decreases s@.len() - q,
    {
        match expr_exec(s, q, 0) {
            Err(x) => {
                return Err(x);
            },
            Ok((e, end)) => {
                let next = skip_spaces_exec(s, end);
                proof {
                    lemma_terms_of_push(items@, e);
                    lemma_terms_of(items@.push(e));
                }
                items.push(e);
                if next >= n {
                    let tree = Expression::Expr(op, items);
                    proof {
                        lemma_view_operands(tree);
                    }
                    return Ok(tree);
                }
                if s[next] == CLOSE {
                    return Err(ParseError::UnbalancedParenthesis);
                }
                if next == end {
                    return Err(ParseError::TrailingInput);
                }
                q = next;
            },
        }
    }
}

/// The single expression that the whole of `s` spells, spaces around it
/// allowed, or the first fault met.
pub open spec fn expression(s: Seq<u8>) -> Result<Term, ParseError> {
    match expr_at(s, skip_spaces(s, 0), 0) {
        Err(x) => Err(x),
        Ok((t, end)) => if skip_spaces(s, end) < s.len() {
            Err(ParseError::TrailingInput)
        } else {
            Ok(t)
        },
    }
}

/// Parses one expression, a numeral or a parenthesised operator form, that
/// spans the whole input but for spaces around it.
pub fn parse_expression(input: &str) -> (r: Result<Expression, ParseError>)
    ensures
        result_view(r) == expression(input.spec_bytes()),
        r is Ok ==> well_formed(r->Ok_0@),
{
    let s = input.as_bytes();
    let p = skip_spaces_exec(s, 0);
    if p >= s.len() {
        return Err(ParseError::UnknownOperator);
    }
    match expr_exec(s, p, 0) {
        Err(x) => Err(x),
        Ok((e, end)) => if skip_spaces_exec(s, end) < s.len() {
            Err(ParseError::TrailingInput)
        } else {
            Ok(e)
        },
    }
}

/// Parses a whole program; see `parse_bytes` for the grammar.
pub fn parse(input: &str) -> (r: Result<Expression, ParseError>)
    ensures
        result_view(r) == program(input.spec_bytes()),
        r is Ok ==> well_formed(r->Ok_0@),
{
    parse_bytes(input.as_bytes())
}

/// A numeral on its own is no program: a program begins with an operator.
pub proof fn lemma_numeral_is_no_program(s: Seq<u8>)
    requires
        s.len() > 0,
        forall|i: int| 0 <= i < s.len() ==> is_digit(#[trigger] s[i]),
    ensures
        program(s) == Err::<Term, ParseError>(ParseError::UnknownOperator),
{
    assert(!is_space(s[0]));
    assert(skip_spaces(s, 0) == 0);
    assert(operator_of_byte(s[0]) is None);
}

} // verus!
