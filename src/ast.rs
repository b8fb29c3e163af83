//! The expression tree and its operators.
use vstd::prelude::*;

verus! {

/// One of the four arithmetic operators of the language.
#[derive(Debug, Clone, Copy, PartialEq, Eq, Structural)]
pub enum Operator {
    Add,
    Mul,
    Sub,
    Div,
}

/// An expression: either a literal or an operator applied to an ordered
/// list of operands.
#[derive(Debug, PartialEq)]
pub enum Expression {
    Number(usize),
    Expr(Operator, Vec<Expression>),
}

/// The mathematical form of an expression tree.
pub enum Term {
    Num(usize),
    Op(Operator, Seq<Term>),
}

impl View for Expression {
    type V = Term;

    open spec fn view(&self) -> Term
        decreases self,
    {
        match self {
            Expression::Number(n) => Term::Num(*n),
            Expression::Expr(op, args) => Term::Op(*op, views(args@, args.len() as int)),
        }
    }
}

/// The views of the first `n` expressions of `args`.
pub open spec fn views(args: Seq<Expression>, n: int) -> Seq<Term>
    decreases args, n,
{
    if n <= 0 || n > args.len() {
        Seq::empty()
    } else {
        views(args, n - 1).push(args[n - 1].view())
    }
}

/// The views of all of `args`, in order.
pub open spec fn terms_of(args: Seq<Expression>) -> Seq<Term> {
    views(args, args.len() as int)
}

/// `terms_of` lists each operand's view at the operand's index.
pub proof fn lemma_terms_of(args: Seq<Expression>)
    ensures
        terms_of(args).len() == args.len(),
        forall|k: int| 0 <= k < args.len() ==> #[trigger] terms_of(args)[k] == args[k]@,
{
    lemma_views(args, args.len() as int);
}

/// Appending an operand appends its view.
pub proof fn lemma_terms_of_push(args: Seq<Expression>, e: Expression)
    ensures
        terms_of(args.push(e)) == terms_of(args).push(e@),
{
    lemma_terms_of(args);
    lemma_terms_of(args.push(e));
    assert(terms_of(args.push(e)) =~= terms_of(args).push(e@));
}

proof fn lemma_views(args: Seq<Expression>, n: int)
    requires
        0 <= n <= args.len(),
    ensures
        views(args, n).len() == n,
        forall|k: int| 0 <= k < n ==> #[trigger] views(args, n)[k] == args[k]@,
    decreases n,
{
    if n > 0 {
        lemma_views(args, n - 1);
        assert(views(args, n) == views(args, n - 1).push(args[n - 1]@));
    }
}

/// The view of an operator node lists the views of its operands in order.
pub proof fn lemma_view_operands(e: Expression)
    ensures
        e is Number ==> e@ == Term::Num(e->Number_0),
        e is Expr ==> {
            &&& e@ is Op
            &&& e@->Op_0 == e->Expr_0
            &&& e@->Op_1.len() == e->Expr_1.len()
            &&& forall|k: int|
                0 <= k < e->Expr_1.len() ==> e@->Op_1[k] == (#[trigger] e->Expr_1[k])@
        },
{
    match e {
        Expression::Expr(op, args) => {
            lemma_views(args@, args.len() as int);
        },
        _ => {},
    }
}

/// A tree is well formed when every operator has at least one operand.
pub open spec fn well_formed(t: Term) -> bool
    decreases t,
{
    match t {
        Term::Num(_) => true,
        Term::Op(_, args) => args.len() > 0 && forall|i: int|
            0 <= i < args.len() ==> well_formed(#[trigger] args[i]),
    }
}

/// The operator written as the character `c`, if there is one.
pub open spec fn operator_of_char(c: char) -> Option<Operator> {
    if c == '+' {
        Some(Operator::Add)
    } else if c == '-' {
        Some(Operator::Sub)
    } else if c == '*' {
        Some(Operator::Mul)
    } else if c == '/' {
        Some(Operator::Div)
    } else {
        None
    }
}

/// The operator whose symbol is the byte `b`, if there is one.
pub open spec fn operator_of_byte(b: u8) -> Option<Operator> {
    operator_of_char(b as char)
}

impl Operator {
    /// Reads an operator from its symbol, one of `+ - * /`.
    pub fn from_char(c: char) -> (r: Result<Self, ()>)
        ensures
            r == (match operator_of_char(c) {
                Some(op) => Ok::<Operator, ()>(op),
                None => Err(()),
            }),
    {
        match c {
            '+' => Ok(Operator::Add),
            '-' => Ok(Operator::Sub),
            '*' => Ok(Operator::Mul),
            '/' => Ok(Operator::Div),
            _ => Err(()),
        }
    }

    /// Reads an operator from a string that holds exactly its symbol.
    pub fn from_str(s: &str) -> (r: Result<Self, ()>)
        ensures
            r == (if s@.len() == 1 {
                match operator_of_char(s@[0]) {
                    Some(op) => Ok::<Operator, ()>(op),
                    None => Err(()),
                }
            } else {
                Err(())
            }),
    {
        if s.unicode_len() == 1 {
            Operator::from_char(s.get_char(0))
        } else {
            Err(())
        }
    }
}

impl Expression {
    /// A literal.
    pub fn from_usize(u: usize) -> (r: Result<Self, ()>)
        ensures
            r == Ok::<Expression, ()>(Expression::Number(u)),
    {
        Ok(Expression::Number(u))
    }

    /// An operator applied to `exprs`; an empty operand list is refused.
    pub fn from_tuple(t: (Operator, Vec<Expression>)) -> (r: Result<Self, ()>)
        ensures
            t.1.len() == 0 ==> r == Err::<Expression, ()>(()),
            t.1.len() > 0 ==> r == Ok::<Expression, ()>(Expression::Expr(t.0, t.1)),
    {
        let (op, exprs) = t;
        if exprs.len() == 0 {
            Err(())
        } else {
            Ok(Expression::Expr(op, exprs))
        }
    }
}

} // verus!
