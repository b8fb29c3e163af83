//! Evaluation of an expression tree to an unsigned integer.
use vstd::prelude::*;
use crate::ast::{Expression, Operator, Term, lemma_view_operands, well_formed};

verus! {

/// Why an evaluation stopped.
#[derive(Debug, Clone, Copy, PartialEq, Eq, Structural)]
pub enum EvalError {
    /// An operand of `/` after the first one evaluated to zero.
    DivisionByZero,
    /// A running difference went below zero.
    ArithmeticUnderflow,
    /// A running sum or product went above `usize::MAX`.
    ArithmeticOverflow,
}

/// One step of an operator's fold: `acc` combined with the next operand `v`.
pub open spec fn step(op: Operator, acc: usize, v: usize) -> Result<usize, EvalError> {
    match op {
        Operator::Add => if acc + v <= usize::MAX {
            Ok((acc + v) as usize)
        } else {
            Err(EvalError::ArithmeticOverflow)
        },
        Operator::Mul => if acc * v <= usize::MAX {
            Ok((acc * v) as usize)
        } else {
            Err(EvalError::ArithmeticOverflow)
        },
        Operator::Sub => if v <= acc {
            Ok((acc - v) as usize)
        } else {
            Err(EvalError::ArithmeticUnderflow)
        },
        Operator::Div => if v == 0 {
            Err(EvalError::DivisionByZero)
        } else {
            Ok((acc / v) as usize)
        },
    }
}

/// The value of `e`, or the first failure met in a left-to-right,
/// children-first walk.  A tree that is not well formed has no meaning.
pub open spec fn value(t: Term) -> Result<usize, EvalError>
    decreases t, 0int,
{
    match t {
        Term::Num(n) => Ok(n),
        Term::Op(op, args) => match op {
            Operator::Add => fold(op, 0, args, 0),
            Operator::Mul => fold(op, 1, args, 0),
            _ => if args.len() > 0 {
                match value(args[0]) {
                    Ok(first) => fold(op, first, args, 1),
                    Err(err) => Err(err),
                }
            } else {
                arbitrary()
            },
        },
    }
}

/// Folds `op` over `args[i..]`, starting from the running value `acc`.
pub open spec fn fold(op: Operator, acc: usize, args: Seq<Term>, i: int) -> Result<
    usize,
    EvalError,
>
    decreases args, args.len() - i,
{
    if i < 0 || i >= args.len() {
        Ok(acc)
    } else {
        match value(args[i]) {
            Err(err) => Err(err),
            Ok(v) => match step(op, acc, v) {
                Err(err) => Err(err),
                Ok(next) => fold(op, next, args, i + 1),
            },
        }
    }
}

proof fn lemma_fold_unfold(op: Operator, acc: usize, args: Seq<Term>, i: int)
    requires
        0 <= i <= args.len(),
    ensures
        i == args.len() ==> fold(op, acc, args, i) == Ok::<usize, EvalError>(acc),
        i < args.len() ==> fold(op, acc, args, i) == (match value(args[i]) {
            Err(err) => Err(err),
            Ok(v) => match step(op, acc, v) {
                Err(err) => Err(err),
                Ok(next) => fold(op, next, args, i + 1),
            },
        }),
{
}

fn apply_step(op: Operator, acc: usize, v: usize) -> (r: Result<usize, EvalError>)
    ensures
        r == step(op, acc, v),
{
    match op {
        Operator::Add => match acc.checked_add(v) {
            Some(s) => Ok(s),
            None => Err(EvalError::ArithmeticOverflow),
        },
        Operator::Mul => match acc.checked_mul(v) {
            Some(p) => Ok(p),
            None => Err(EvalError::ArithmeticOverflow),
        },
        Operator::Sub => if v <= acc {
            Ok(acc - v)
        } else {
            Err(EvalError::ArithmeticUnderflow)
        },
        Operator::Div => if v == 0 {
            Err(EvalError::DivisionByZero)
        } else {
            Ok(acc / v)
        },
    }
}

impl Expression {
    /// Evaluates the tree: `+` and `*` fold from 0 and 1 over all operands,
    /// `-` and `/` fold from the first operand over the rest.
    pub fn eval(&self) -> (r: Result<usize, EvalError>)
        requires
            well_formed(self@),
        ensures
            r == value(self@),
        decreases self,
    {
        match self {
            Expression::Number(n) => Ok(*n),
            Expression::Expr(op, args) => {
                proof {
                    lemma_view_operands(*self);
                }
                let op = *op;
                let mut acc: usize;
                let mut i: usize;
                match op {
                    Operator::Add => {
                        acc = 0;
                        i = 0;
                    },
                    Operator::Mul => {
                        acc = 1;
                        i = 0;
                    },
                    _ => {
                        match args[0].eval() {
                            Ok(first) => {
                                acc = first;
                            },
                            Err(err) => {
                                return Err(err);
                            },
                        }
                        i = 1;
                    },
                }
                while i < args.len()
                    invariant
                        well_formed(self@),
                        *self == Expression::Expr(op, *args),
                        self@ is Op,
                        self@->Op_0 == op,
                        self@->Op_1.len() == args.len(),
                        forall|k: int| 0 <= k < args.len() ==> self@->Op_1[k] == (#[trigger] args[k])@,
                        i <= args.len(),
                        fold(op, acc, self@->Op_1, i as int) == value(self@),
                    decreases args.len() - i,
                {
                    proof {
                        lemma_fold_unfold(op, acc, self@->Op_1, i as int);
                    }
                    match args[i].eval() {
                        Err(err) => {
                            return Err(err);
                        },
                        Ok(v) => match apply_step(op, acc, v) {
                            Err(err) => {
                                return Err(err);
                            },
                            Ok(next) => {
                                acc = next;
                            },
                        },
                    }
                    i = i + 1;
                }
                Ok(acc)
            },
        }
    }
}

/// The sum of `vals[i..]`.
pub open spec fn tail_sum(vals: Seq<usize>, i: int) -> nat
    decreases vals.len() - i,
{
    if i < 0 || i >= vals.len() {
        0
    } else {
        vals[i] as nat + tail_sum(vals, i + 1)
    }
}

proof fn lemma_fold_sub(acc: usize, args: Seq<Term>, vals: Seq<usize>, i: int)
    requires
        0 <= i <= args.len(),
        vals.len() == args.len(),
        forall|j: int| 0 <= j < args.len() ==> #[trigger] value(args[j]) == Ok::<usize, EvalError>(vals[j]),
    ensures
        fold(Operator::Sub, acc, args, i) == if tail_sum(vals, i) <= acc {
            Ok::<usize, EvalError>((acc - tail_sum(vals, i)) as usize)
        } else {
            Err(EvalError::ArithmeticUnderflow)
        },
    decreases args.len() - i,
{
    lemma_fold_unfold(Operator::Sub, acc, args, i);
    if i < args.len() {
        assert(value(args[i]) == Ok::<usize, EvalError>(vals[i]));
        if vals[i] <= acc {
            lemma_fold_sub((acc - vals[i]) as usize, args, vals, i + 1);
        }
    }
}

/// A difference whose operands all have values is the first operand minus
/// the sum of the others, and fails with an underflow exactly when the
/// others add up to more than the first.
pub proof fn lemma_difference(args: Seq<Term>, vals: Seq<usize>)
    requires
        args.len() > 0,
        vals.len() == args.len(),
        forall|j: int| 0 <= j < args.len() ==> #[trigger] value(args[j]) == Ok::<usize, EvalError>(vals[j]),
    ensures
        value(Term::Op(Operator::Sub, args)) == if tail_sum(vals, 1) <= vals[0] {
            Ok::<usize, EvalError>((vals[0] - tail_sum(vals, 1)) as usize)
        } else {
            Err(EvalError::ArithmeticUnderflow)
        },
{
    assert(value(args[0]) == Ok::<usize, EvalError>(vals[0]));
    lemma_fold_sub(vals[0], args, vals, 1);
}

proof fn lemma_fold_div_zero(acc: usize, args: Seq<Term>, i: int, k: int)
    requires
        0 <= i <= k < args.len(),
        forall|j: int| i <= j <= k ==> (#[trigger] value(args[j])) is Ok,
        value(args[k]) == Ok::<usize, EvalError>(0),
    ensures
        fold(Operator::Div, acc, args, i) == Err::<usize, EvalError>(EvalError::DivisionByZero),
    decreases k - i,
{
    lemma_fold_unfold(Operator::Div, acc, args, i);
    assert(value(args[i]) is Ok);
    let v = value(args[i])->Ok_0;
    if v != 0 {
        lemma_fold_div_zero((acc / v) as usize, args, i + 1, k);
    }
}

/// A quotient fails with a division by zero when an operand after the first
/// is zero and every operand up to it has a value.
pub proof fn lemma_division_by_zero(args: Seq<Term>, k: int)
    requires
        1 <= k < args.len(),
        forall|j: int| 0 <= j <= k ==> (#[trigger] value(args[j])) is Ok,
        value(args[k]) == Ok::<usize, EvalError>(0),
    ensures
        value(Term::Op(Operator::Div, args)) == Err::<usize, EvalError>(EvalError::DivisionByZero),
{
    assert(value(args[0]) is Ok);
    lemma_fold_div_zero(value(args[0])->Ok_0, args, 1, k);
}

} // verus!
