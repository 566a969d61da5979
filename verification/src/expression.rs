//! Expressions: a tagged tree produced by the parser.
use crate::model::{
    expr_model, exprs_model, lemma_exprs_model_index, lemma_exprs_model_len,
    lemma_exprs_model_push,
};
use crate::token::{duplicate_value, value_struct_eq, LiteralType, Token};
use vstd::prelude::*;

verus! {

/// A literal expression; a missing value stands for nil.
pub struct Literal {
    pub value: Option<LiteralType>,
}

impl Literal {
    pub fn new(value: Option<LiteralType>) -> (r: Literal)
        ensures
            r.value == value,
    {
        Literal { value }
    }
}

/// A parenthesized expression.
pub struct Grouping {
    pub expression: Box<Expr>,
}

impl Grouping {
    pub fn new(expression: Expr) -> (r: Grouping)
        ensures
            *r.expression == expression,
    {
        Grouping { expression: Box::new(expression) }
    }
}

/// A prefix operator applied to one operand.
pub struct Unary {
    pub operator: Token,
    pub right: Box<Expr>,
}

impl Unary {
    pub fn new(operator: Token, right: Expr) -> (r: Unary)
        ensures
            r.operator == operator,
            *r.right == right,
    {
        Unary { operator, right: Box::new(right) }
    }
}

/// An infix operator applied to two operands.
pub struct Binary {
    pub left: Box<Expr>,
    pub operator: Token,
    pub right: Box<Expr>,
}

impl Binary {
    pub fn new(left: Expr, operator: Token, right: Expr) -> (r: Binary)
        ensures
            *r.left == left,
            r.operator == operator,
            *r.right == right,
    {
        Binary { left: Box::new(left), operator, right: Box::new(right) }
    }
}

/// A read of a named variable.
pub struct Variable {
    pub name: Token,
}

impl Variable {
    pub fn new(name: Token) -> (r: Variable)
        ensures
            r.name == name,
    {
        Variable { name }
    }
}

/// An assignment to a named variable.
pub struct Assign {
    pub name: Token,
    pub value: Box<Expr>,
}

impl Assign {
    pub fn new(name: Token, value: Expr) -> (r: Assign)
        ensures
            r.name == name,
            *r.value == value,
    {
        Assign { name, value: Box::new(value) }
    }
}

/// A short-circuit `and` or `or`.
pub struct Logical {
    pub left: Box<Expr>,
    pub operator: Token,
    pub right: Box<Expr>,
}

impl Logical {
    pub fn new(left: Expr, operator: Token, right: Expr) -> (r: Logical)
        ensures
            *r.left == left,
            r.operator == operator,
            *r.right == right,
    {
        Logical { left: Box::new(left), operator, right: Box::new(right) }
    }
}

/// A call of a callee on a list of arguments; the closing parenthesis
/// token carries the line used in call-site diagnostics.
pub struct Call {
    pub callee: Box<Expr>,
    pub paren: Token,
    pub arguments: Vec<Expr>,
}

impl Call {
    pub fn new(callee: Expr, paren: Token, arguments: Vec<Expr>) -> (r: Call)
        ensures
            *r.callee == callee,
            r.paren == paren,
            r.arguments == arguments,
    {
        Call { callee: Box::new(callee), paren, arguments }
    }
}

/// An expression of the language.
pub enum Expr {
    Literal(Literal),
    Grouping(Grouping),
    Unary(Unary),
    Binary(Binary),
    Variable(Variable),
    Assign(Assign),
    Logical(Logical),
    Call(Call),
}

impl Expr {
    /// A copy of the expression with the same model.
    pub fn duplicate(&self) -> (r: Expr)
        ensures
            expr_model(r) == expr_model(*self),
        decreases *self,
    {
        match self {
            Expr::Literal(l) => Expr::Literal(Literal { value: duplicate_value(&l.value) }),
            Expr::Grouping(g) => Expr::Grouping(
                Grouping { expression: Box::new(g.expression.duplicate()) },
            ),
            Expr::Unary(u) => Expr::Unary(
                Unary { operator: u.operator.duplicate(), right: Box::new(u.right.duplicate()) },
            ),
            Expr::Binary(b) => Expr::Binary(
                Binary {
                    left: Box::new(b.left.duplicate()),
                    operator: b.operator.duplicate(),
                    right: Box::new(b.right.duplicate()),
                },
            ),
            Expr::Variable(v) => Expr::Variable(Variable { name: v.name.duplicate() }),
            Expr::Assign(a) => Expr::Assign(
                Assign { name: a.name.duplicate(), value: Box::new(a.value.duplicate()) },
            ),
            Expr::Logical(l) => Expr::Logical(
                Logical {
                    left: Box::new(l.left.duplicate()),
                    operator: l.operator.duplicate(),
                    right: Box::new(l.right.duplicate()),
                },
            ),
            Expr::Call(c) => Expr::Call(
                Call {
                    callee: Box::new(c.callee.duplicate()),
                    paren: c.paren.duplicate(),
                    arguments: duplicate_exprs(&c.arguments),
                },
            ),
        }
    }

    /// Whether two expressions have the same model.
    pub fn same_as(&self, other: &Expr) -> (r: bool)
        ensures
            r == (expr_model(*self) == expr_model(*other)),
        decreases *self,
    {
        match (self, other) {
            (Expr::Literal(a), Expr::Literal(b)) => value_struct_eq(&a.value, &b.value),
            (Expr::Grouping(a), Expr::Grouping(b)) => a.expression.same_as(&b.expression),
            (Expr::Unary(a), Expr::Unary(b)) => a.operator.same_as(&b.operator) && a.right.same_as(
                &b.right,
            ),
            (Expr::Binary(a), Expr::Binary(b)) => a.left.same_as(&b.left) && a.operator.same_as(
                &b.operator,
            ) && a.right.same_as(&b.right),
            (Expr::Variable(a), Expr::Variable(b)) => a.name.same_as(&b.name),
            (Expr::Assign(a), Expr::Assign(b)) => a.name.same_as(&b.name) && a.value.same_as(
                &b.value,
            ),
            (Expr::Logical(a), Expr::Logical(b)) => a.left.same_as(&b.left) && a.operator.same_as(
                &b.operator,
            ) && a.right.same_as(&b.right),
            (Expr::Call(a), Expr::Call(b)) => a.callee.same_as(&b.callee) && a.paren.same_as(
                &b.paren,
            ) && exprs_eq(&a.arguments, &b.arguments),
            _ => false,
        }
    }
}

/// Copies of an expression list with the same models.
pub fn duplicate_exprs(v: &Vec<Expr>) -> (r: Vec<Expr>)
    ensures
        exprs_model(r@) == exprs_model(v@),
    decreases v@,
{
    let n = v.len();
    let mut out: Vec<Expr> = Vec::new();
    let mut i: usize = 0;
    while i < n
        invariant
            n == v.len(),
            0 <= i <= n,
            exprs_model(out@) == exprs_model(v@.take(i as int)),
        decreases n - i,
    {
        let d = v[i].duplicate();
        proof {
            lemma_exprs_model_push(v@.take(i as int), v@[i as int]);
            assert(v@.take(i as int).push(v@[i as int]) =~= v@.take(i as int + 1));
            lemma_exprs_model_push(out@, d);
        }
        out.push(d);
        i += 1;
    }
    proof {
        assert(v@.take(n as int) =~= v@);
    }
    out
}

/// Whether two expression lists have the same models.
pub fn exprs_eq(a: &Vec<Expr>, b: &Vec<Expr>) -> (r: bool)
    ensures
        r == (exprs_model(a@) == exprs_model(b@)),
    decreases a@,
{
    proof {
        lemma_exprs_model_len(a@);
        lemma_exprs_model_len(b@);
    }
    if a.len() != b.len() {
        return false;
    }
    let n = a.len();
    let mut i: usize = 0;
    while i < n
        invariant
            n == a.len() == b.len(),
            0 <= i <= n,
            forall|j: int| 0 <= j < i ==> expr_model(a@[j]) == expr_model(b@[j]),
        decreases n - i,
    {
        if !a[i].same_as(&b[i]) {
            proof {
                lemma_exprs_model_index(a@, i as int);
                lemma_exprs_model_index(b@, i as int);
            }
            return false;
        }
        i += 1;
    }
    proof {
        assert forall|j: int| 0 <= j < n implies #[trigger] exprs_model(a@)[j] == exprs_model(
            b@,
        )[j] by {
            lemma_exprs_model_index(a@, j);
            lemma_exprs_model_index(b@, j);
        }
        assert(exprs_model(a@) =~= exprs_model(b@));
    }
    true
}

} // verus!
