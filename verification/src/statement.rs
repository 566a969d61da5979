//! Statements and declarations: the trees the parser hands the evaluator.
use crate::expression::Expr;
use crate::model::{
    lemma_lexemes_from_tokens, lemma_stmts_model_index, lemma_stmts_model_len,
    lemma_stmts_model_push, lemma_tokens_model_index, lemma_tokens_model_len,
    lemma_tokens_model_push, lexemes_model, stmt_model, stmts_model, token_model, tokens_model,
};
use crate::token::Token;
use vstd::prelude::*;

verus! {

/// A `print` statement.
pub struct Print {
    pub expression: Box<Expr>,
}

impl Print {
    pub fn new(expression: Expr) -> (r: Print)
        ensures
            *r.expression == expression,
    {
        Print { expression: Box::new(expression) }
    }
}

/// An expression evaluated for its effects.
pub struct Expression {
    pub expression: Box<Expr>,
}

impl Expression {
    pub fn new(expression: Expr) -> (r: Expression)
        ensures
            *r.expression == expression,
    {
        Expression { expression: Box::new(expression) }
    }
}

/// A variable declaration with an optional initializer.
pub struct Var {
    pub name: Token,
    pub initializer: Option<Box<Expr>>,
}

impl Var {
    pub fn new(name: Token, initializer: Option<Expr>) -> (r: Var)
        ensures
            r.name == name,
            initializer matches Some(e) ==> (r.initializer matches Some(b) && *b == e),
            initializer is None ==> r.initializer is None,
    {
        let initializer = match initializer {
            Some(e) => Some(Box::new(e)),
            None => None,
        };
        Var { name, initializer }
    }
}

/// A braced block of statements, run in a fresh scope.
pub struct Block {
    pub statements: Vec<Statement>,
}

impl Block {
    pub fn new(statements: Vec<Statement>) -> (r: Block)
        ensures
            r.statements == statements,
    {
        Block { statements }
    }
}

/// An `if` statement with an optional `else` branch.
pub struct If {
    pub condition: Box<Expr>,
    pub then_branch: Box<Statement>,
    pub else_branch: Option<Box<Statement>>,
}

impl If {
    pub fn new(condition: Expr, then_branch: Statement, else_branch: Option<Statement>) -> (r: If)
        ensures
            *r.condition == condition,
            *r.then_branch == then_branch,
            else_branch matches Some(s) ==> (r.else_branch matches Some(b) && *b == s),
            else_branch is None ==> r.else_branch is None,
    {
        let else_branch = match else_branch {
            Some(s) => Some(Box::new(s)),
            None => None,
        };
        If { condition: Box::new(condition), then_branch: Box::new(then_branch), else_branch }
    }
}

/// A `while` loop.
pub struct While {
    pub condition: Box<Expr>,
    pub body: Box<Statement>,
}

impl While {
    pub fn new(condition: Expr, body: Statement) -> (r: While)
        ensures
            *r.condition == condition,
            *r.body == body,
    {
        While { condition: Box::new(condition), body: Box::new(body) }
    }
}

/// A function declaration: name, parameter tokens, body statements.
pub struct Function {
    pub name: Token,
    pub params: Vec<Token>,
    pub body: Vec<Statement>,
}

impl Function {
    pub fn new(name: Token, params: Vec<Token>, body: Vec<Statement>) -> (r: Function)
        ensures
            r.name == name,
            r.params == params,
            r.body == body,
    {
        Function { name, params, body }
    }
}

/// A `return` statement with an optional result expression.
pub struct Return {
    pub keyword: Token,
    pub value: Option<Expr>,
}

impl Return {
    pub fn new(keyword: Token, value: Option<Expr>) -> (r: Return)
        ensures
            r.keyword == keyword,
            r.value == value,
    {
        Return { keyword, value }
    }
}

/// A statement of the language.
pub enum Statement {
    Print(Print),
    Expression(Expression),
    Var(Var),
    Block(Block),
    If(If),
    While(While),
    Function(Function),
    Return(Return),
}

impl Function {
    /// A copy of the declaration with the same model pieces.
    pub fn duplicate(&self) -> (r: Function)
        ensures
            token_model(r.name) == token_model(self.name),
            tokens_model(r.params@) == tokens_model(self.params@),
            stmts_model(r.body@) == stmts_model(self.body@),
            lexemes_model(r.params@) == lexemes_model(self.params@),
        decreases *self,
    {
        let r = Function {
            name: self.name.duplicate(),
            params: duplicate_tokens(&self.params),
            body: duplicate_stmts(&self.body),
        };
        proof {
            lemma_lexemes_from_tokens(r.params@, self.params@);
        }
        r
    }

    /// Whether two declarations have the same model pieces.
    pub fn same_as(&self, other: &Function) -> (r: bool)
        ensures
            r == (token_model(self.name) == token_model(other.name) && tokens_model(self.params@)
                == tokens_model(other.params@) && stmts_model(self.body@) == stmts_model(
                other.body@,
            )),
        decreases *self,
    {
        self.name.same_as(&other.name) && tokens_eq(&self.params, &other.params) && stmts_eq(
            &self.body,
            &other.body,
        )
    }
}

impl Statement {
    /// A copy of the statement with the same model.
    pub fn duplicate(&self) -> (r: Statement)
        ensures
            stmt_model(r) == stmt_model(*self),
        decreases *self,
    {
        match self {
            Statement::Print(p) => Statement::Print(
                Print { expression: Box::new(p.expression.duplicate()) },
            ),
            Statement::Expression(e) => Statement::Expression(
                Expression { expression: Box::new(e.expression.duplicate()) },
            ),
            Statement::Var(v) => Statement::Var(
                Var {
                    name: v.name.duplicate(),
                    initializer: match &v.initializer {
                        Some(e) => Some(Box::new(e.duplicate())),
                        None => None,
                    },
                },
            ),
            Statement::Block(b) => Statement::Block(
                Block { statements: duplicate_stmts(&b.statements) },
            ),
            Statement::If(i) => Statement::If(
                If {
                    condition: Box::new(i.condition.duplicate()),
                    then_branch: Box::new(i.then_branch.duplicate()),
                    else_branch: match &i.else_branch {
                        Some(s) => Some(Box::new(s.duplicate())),
                        None => None,
                    },
                },
            ),
            Statement::While(w) => Statement::While(
                While {
                    condition: Box::new(w.condition.duplicate()),
                    body: Box::new(w.body.duplicate()),
                },
            ),
            Statement::Function(f) => Statement::Function(f.duplicate()),
            Statement::Return(r) => Statement::Return(
                Return {
                    keyword: r.keyword.duplicate(),
                    value: match &r.value {
                        Some(e) => Some(e.duplicate()),
                        None => None,
                    },
                },
            ),
        }
    }

    /// Whether two statements have the same model.
    pub fn same_as(&self, other: &Statement) -> (r: bool)
        ensures
            r == (stmt_model(*self) == stmt_model(*other)),
        decreases *self,
    {
        match (self, other) {
            (Statement::Print(a), Statement::Print(b)) => a.expression.same_as(&b.expression),
            (Statement::Expression(a), Statement::Expression(b)) => a.expression.same_as(
                &b.expression,
            ),
            (Statement::Var(a), Statement::Var(b)) => a.name.same_as(&b.name) && match (
                &a.initializer,
                &b.initializer,
            ) {
                (Some(x), Some(y)) => x.same_as(y),
                (None, None) => true,
                _ => false,
            },
            (Statement::Block(a), Statement::Block(b)) => stmts_eq(&a.statements, &b.statements),
            (Statement::If(a), Statement::If(b)) => a.condition.same_as(&b.condition)
                && a.then_branch.same_as(&b.then_branch) && match (&a.else_branch, &b.else_branch) {
                (Some(x), Some(y)) => x.same_as(y),
                (None, None) => true,
                _ => false,
            },
            (Statement::While(a), Statement::While(b)) => a.condition.same_as(&b.condition)
                && a.body.same_as(&b.body),
            (Statement::Function(a), Statement::Function(b)) => a.same_as(b),
            (Statement::Return(a), Statement::Return(b)) => a.keyword.same_as(&b.keyword) && match (
                &a.value,
                &b.value,
            ) {
                (Some(x), Some(y)) => x.same_as(y),
                (None, None) => true,
                _ => false,
            },
            _ => false,
        }
    }
}

/// Copies of a statement list with the same models.
pub fn duplicate_stmts(v: &Vec<Statement>) -> (r: Vec<Statement>)
    ensures
        stmts_model(r@) == stmts_model(v@),
    decreases v@,
{
    let n = v.len();
    let mut out: Vec<Statement> = Vec::new();
    let mut i: usize = 0;
    while i < n
        invariant
            n == v.len(),
            0 <= i <= n,
            stmts_model(out@) == stmts_model(v@.take(i as int)),
        decreases n - i,
    {
        let d = v[i].duplicate();
        proof {
            lemma_stmts_model_push(v@.take(i as int), v@[i as int]);
            assert(v@.take(i as int).push(v@[i as int]) =~= v@.take(i as int + 1));
            lemma_stmts_model_push(out@, d);
        }
        out.push(d);
        i += 1;
    }
    proof {
        assert(v@.take(n as int) =~= v@);
    }
    out
}

/// Whether two statement lists have the same models.
pub fn stmts_eq(a: &Vec<Statement>, b: &Vec<Statement>) -> (r: bool)
    ensures
        r == (stmts_model(a@) == stmts_model(b@)),
    decreases a@,
{
    proof {
        lemma_stmts_model_len(a@);
        lemma_stmts_model_len(b@);
    }
    if a.len() != b.len() {
        return false;
    }
    let n = a.len();
    let mut i: usize = 0;
    while i < n
        invariant
            n == a.len() == b.len(),
            0 <= i <= n,
            forall|j: int| 0 <= j < i ==> stmt_model(a@[j]) == stmt_model(b@[j]),
        decreases n - i,
    {
        if !a[i].same_as(&b[i]) {
            proof {
                lemma_stmts_model_index(a@, i as int);
                lemma_stmts_model_index(b@, i as int);
            }
            return false;
        }
        i += 1;
    }
    proof {
        lemma_stmts_model_len(a@);
        lemma_stmts_model_len(b@);
        assert forall|j: int| 0 <= j < n implies #[trigger] stmts_model(a@)[j] == stmts_model(b@)[j]
        by {
            lemma_stmts_model_index(a@, j);
            lemma_stmts_model_index(b@, j);
        }
        assert(stmts_model(a@) =~= stmts_model(b@));
    }
    true
}

/// Copies of a token list with the same models.
pub fn duplicate_tokens(v: &Vec<Token>) -> (r: Vec<Token>)
    ensures
        tokens_model(r@) == tokens_model(v@),
    decreases v@,
{
    let n = v.len();
    let mut out: Vec<Token> = Vec::new();
    let mut i: usize = 0;
    while i < n
        invariant
            n == v.len(),
            0 <= i <= n,
            tokens_model(out@) == tokens_model(v@.take(i as int)),
        decreases n - i,
    {
        let d = v[i].duplicate();
        proof {
            lemma_tokens_model_push(v@.take(i as int), v@[i as int]);
            assert(v@.take(i as int).push(v@[i as int]) =~= v@.take(i as int + 1));
            lemma_tokens_model_push(out@, d);
        }
        out.push(d);
        i += 1;
    }
    proof {
        assert(v@.take(n as int) =~= v@);
    }
    out
}

/// Whether two token lists have the same models.
pub fn tokens_eq(a: &Vec<Token>, b: &Vec<Token>) -> (r: bool)
    ensures
        r == (tokens_model(a@) == tokens_model(b@)),
    decreases a@,
{
    proof {
        lemma_tokens_model_len(a@);
        lemma_tokens_model_len(b@);
    }
    if a.len() != b.len() {
        return false;
    }
    let n = a.len();
    let mut i: usize = 0;
    while i < n
        invariant
            n == a.len() == b.len(),
            0 <= i <= n,
            forall|j: int| 0 <= j < i ==> token_model(a@[j]) == token_model(b@[j]),
        decreases n - i,
    {
        if !a[i].same_as(&b[i]) {
            proof {
                lemma_tokens_model_index(a@, i as int);
                lemma_tokens_model_index(b@, i as int);
            }
            return false;
        }
        i += 1;
    }
    proof {
        assert forall|j: int| 0 <= j < n implies #[trigger] tokens_model(a@)[j] == tokens_model(
            b@,
        )[j] by {
            lemma_tokens_model_index(a@, j);
            lemma_tokens_model_index(b@, j);
        }
        assert(tokens_model(a@) =~= tokens_model(b@));
    }
    true
}

} // verus!
