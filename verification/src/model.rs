//! The mathematical model of the interpreter's data: ghost mirrors of
//! tokens, values and syntax trees, with sequences for vectors and
//! character sequences for strings, and the functions mapping the
//! executable types onto them. Contracts throughout the crate speak of
//! these models.
use crate::expression::Expr;
use crate::lox_callable::{LoxCallables, NativeFn};
use crate::statement::Statement;
use crate::token::{LiteralType, Token, TokenType};
use vstd::prelude::*;

verus! {

/// Model of a token.
pub ghost struct GToken {
    pub kind: TokenType,
    pub lexeme: Seq<char>,
    pub literal: Option<GVal>,
    pub line: int,
}

/// Model of a dynamic value; `Option<GVal>` models a possibly-nil value.
pub ghost enum GVal {
    Str(Seq<char>),
    Num(u64),
    Bool(bool),
    Callable(GCallable),
}

/// Model of a callable value.
pub ghost enum GCallable {
    Fun { name: Seq<char>, params: Seq<Seq<char>>, body: Seq<GStmt>, env: int },
    Clock,
}

/// Model of an expression.
pub ghost enum GExpr {
    Literal(Option<GVal>),
    Grouping(Box<GExpr>),
    Unary(GToken, Box<GExpr>),
    Binary(Box<GExpr>, GToken, Box<GExpr>),
    Variable(GToken),
    Assign(GToken, Box<GExpr>),
    Logical(Box<GExpr>, GToken, Box<GExpr>),
    Call(Box<GExpr>, GToken, Seq<GExpr>),
}

/// Model of a statement.
pub ghost enum GStmt {
    Print(Box<GExpr>),
    Expression(Box<GExpr>),
    Var(GToken, Option<Box<GExpr>>),
    Block(Seq<GStmt>),
    If(Box<GExpr>, Box<GStmt>, Option<Box<GStmt>>),
    While(Box<GExpr>, Box<GStmt>),
    Function { name: GToken, params: Seq<GToken>, body: Seq<GStmt> },
    Return(GToken, Option<Box<GExpr>>),
}

/// The lexemes of a parameter list.
pub open spec fn param_names(ts: Seq<GToken>) -> Seq<Seq<char>> {
    ts.map_values(|t: GToken| t.lexeme)
}

/// The lexemes of a token list.
pub open spec fn lexemes_model(ts: Seq<Token>) -> Seq<Seq<char>>
    decreases ts,
{
    if ts.len() == 0 {
        Seq::empty()
    } else {
        lexemes_model(ts.drop_last()).push(ts.last().lexeme@)
    }
}

/// Lexeme sequences have the length of the token list.
pub broadcast proof fn lemma_lexemes_model_len(ts: Seq<Token>)
    ensures
        #[trigger] lexemes_model(ts).len() == ts.len(),
    decreases ts,
{
    if ts.len() > 0 {
        lemma_lexemes_model_len(ts.drop_last());
    }
}

/// Each element of a lexeme sequence is the element's lexeme.
pub broadcast proof fn lemma_lexemes_model_index(ts: Seq<Token>, i: int)
    requires
        0 <= i < ts.len(),
    ensures
        #[trigger] lexemes_model(ts)[i] == ts[i].lexeme@,
    decreases ts,
{
    lemma_lexemes_model_len(ts);
    if ts.len() > 0 {
        lemma_lexemes_model_len(ts.drop_last());
        if i < ts.len() - 1 {
            lemma_lexemes_model_index(ts.drop_last(), i);
        }
    }
}

/// An expression put at the front prepends its model.
pub proof fn lemma_exprs_model_prepend(es: Seq<Expr>, e: Expr)
    ensures
        exprs_model(es.insert(0, e)) == seq![expr_model(e)] + exprs_model(es),
{
    let a = exprs_model(es.insert(0, e));
    let b = seq![expr_model(e)] + exprs_model(es);
    lemma_exprs_model_len(es.insert(0, e));
    lemma_exprs_model_len(es);
    assert forall|i: int| 0 <= i < a.len() implies a[i] == b[i] by {
        lemma_exprs_model_index(es.insert(0, e), i);
        if i > 0 {
            lemma_exprs_model_index(es, i - 1);
            assert(es.insert(0, e)[i] == es[i - 1]);
        }
    }
    assert(a =~= b);
}

/// A statement put at the front prepends its model.
pub proof fn lemma_stmts_model_prepend(ss: Seq<Statement>, s: Statement)
    ensures
        stmts_model(ss.insert(0, s)) == seq![stmt_model(s)] + stmts_model(ss),
{
    let a = stmts_model(ss.insert(0, s));
    let b = seq![stmt_model(s)] + stmts_model(ss);
    lemma_stmts_model_len(ss.insert(0, s));
    lemma_stmts_model_len(ss);
    assert forall|i: int| 0 <= i < a.len() implies a[i] == b[i] by {
        lemma_stmts_model_index(ss.insert(0, s), i);
        if i > 0 {
            lemma_stmts_model_index(ss, i - 1);
            assert(ss.insert(0, s)[i] == ss[i - 1]);
        }
    }
    assert(a =~= b);
}

/// A token put at the front prepends its model.
pub proof fn lemma_tokens_model_prepend(ts: Seq<Token>, t: Token)
    ensures
        tokens_model(ts.insert(0, t)) == seq![token_model(t)] + tokens_model(ts),
{
    let a = tokens_model(ts.insert(0, t));
    let b = seq![token_model(t)] + tokens_model(ts);
    lemma_tokens_model_len(ts.insert(0, t));
    lemma_tokens_model_len(ts);
    assert forall|i: int| 0 <= i < a.len() implies a[i] == b[i] by {
        lemma_tokens_model_index(ts.insert(0, t), i);
        if i > 0 {
            lemma_tokens_model_index(ts, i - 1);
            assert(ts.insert(0, t)[i] == ts[i - 1]);
        }
    }
    assert(a =~= b);
}

/// Models of a sequence of possibly-nil values.
pub open spec fn values_model(vs: Seq<Option<LiteralType>>) -> Seq<Option<GVal>>
    decreases vs,
{
    if vs.len() == 0 {
        Seq::empty()
    } else {
        values_model(vs.drop_last()).push(value_model(vs.last()))
    }
}

/// Value-sequence models have the length of the sequences they model.
pub broadcast proof fn lemma_values_model_len(vs: Seq<Option<LiteralType>>)
    ensures
        #[trigger] values_model(vs).len() == vs.len(),
    decreases vs,
{
    if vs.len() > 0 {
        lemma_values_model_len(vs.drop_last());
    }
}

/// Each element of a value-sequence model is the model of the element.
pub broadcast proof fn lemma_values_model_index(vs: Seq<Option<LiteralType>>, i: int)
    requires
        0 <= i < vs.len(),
    ensures
        #[trigger] values_model(vs)[i] == value_model(vs[i]),
    decreases vs,
{
    lemma_values_model_len(vs);
    if vs.len() > 0 {
        lemma_values_model_len(vs.drop_last());
        if i < vs.len() - 1 {
            lemma_values_model_index(vs.drop_last(), i);
        }
    }
}

/// A value put at the front prepends its model.
pub proof fn lemma_values_model_prepend(vs: Seq<Option<LiteralType>>, v: Option<LiteralType>)
    ensures
        values_model(vs.insert(0, v)) == seq![value_model(v)] + values_model(vs),
{
    let a = values_model(vs.insert(0, v));
    let b = seq![value_model(v)] + values_model(vs);
    lemma_values_model_len(vs.insert(0, v));
    lemma_values_model_len(vs);
    assert forall|i: int| 0 <= i < a.len() implies a[i] == b[i] by {
        lemma_values_model_index(vs.insert(0, v), i);
        if i > 0 {
            lemma_values_model_index(vs, i - 1);
            assert(vs.insert(0, v)[i] == vs[i - 1]);
        }
    }
    assert(a =~= b);
}

/// Models of a sequence of output lines.
pub open spec fn strings_model(ss: Seq<String>) -> Seq<Seq<char>>
    decreases ss,
{
    if ss.len() == 0 {
        Seq::empty()
    } else {
        strings_model(ss.drop_last()).push(ss.last()@)
    }
}

/// A pushed line extends the output model.
pub broadcast proof fn lemma_strings_model_push(ss: Seq<String>, s: String)
    ensures
        #[trigger] strings_model(ss.push(s)) == strings_model(ss).push(s@),
{
    assert(ss.push(s).drop_last() =~= ss);
}

/// The lexemes of a token-model list, as `param_names` reads them, are the
/// lexemes of the tokens.
pub proof fn lemma_param_names_lexemes(ts: Seq<Token>)
    ensures
        param_names(tokens_model(ts)) == lexemes_model(ts),
{
    lemma_tokens_model_len(ts);
    lemma_lexemes_model_len(ts);
    assert forall|i: int| 0 <= i < ts.len() implies param_names(tokens_model(ts))[i]
        == lexemes_model(ts)[i] by {
        lemma_tokens_model_index(ts, i);
        lemma_lexemes_model_index(ts, i);
    }
    assert(param_names(tokens_model(ts)) =~= lexemes_model(ts));
}

/// Token lists with the same token models have the same lexemes.
pub proof fn lemma_lexemes_from_tokens(a: Seq<Token>, b: Seq<Token>)
    requires
        tokens_model(a) == tokens_model(b),
    ensures
        lexemes_model(a) == lexemes_model(b),
{
    lemma_tokens_model_len(a);
    lemma_tokens_model_len(b);
    lemma_lexemes_model_len(a);
    lemma_lexemes_model_len(b);
    assert forall|i: int| 0 <= i < a.len() implies #[trigger] lexemes_model(a)[i]
        == lexemes_model(b)[i] by {
        lemma_tokens_model_index(a, i);
        lemma_tokens_model_index(b, i);
        lemma_lexemes_model_index(a, i);
        lemma_lexemes_model_index(b, i);
        assert(token_model(a[i]).lexeme == token_model(b[i]).lexeme);
    }
    assert(lexemes_model(a) =~= lexemes_model(b));
}

/// Model of a token.
pub open spec fn token_model(t: Token) -> GToken
    decreases t,
{
    GToken {
        kind: t.token_type,
        lexeme: t.lexeme@,
        literal: match t.literal {
            Some(l) => Some(lit_model(l)),
            None => None,
        },
        line: t.line as int,
    }
}

/// Model of a value.
pub open spec fn lit_model(l: LiteralType) -> GVal
    decreases l,
{
    match l {
        LiteralType::String(s) => GVal::Str(s@),
        LiteralType::Number(n) => GVal::Num(n),
        LiteralType::Boolean(b) => GVal::Bool(b),
        LiteralType::LoxCallable(c) => GVal::Callable(callable_model(c)),
    }
}

/// Model of a possibly-nil value.
pub open spec fn value_model(v: Option<LiteralType>) -> Option<GVal>
    decreases v,
{
    match v {
        Some(l) => Some(lit_model(l)),
        None => None,
    }
}

/// Model of a callable.
pub open spec fn callable_model(c: LoxCallables) -> GCallable
    decreases c,
{
    match c {
        LoxCallables::LoxFunction(f) => GCallable::Fun {
            name: f.declaration.name.lexeme@,
            params: lexemes_model(f.declaration.params@),
            body: stmts_model(f.declaration.body@),
            env: f.closure as int,
        },
        LoxCallables::Native(NativeFn::Clock) => GCallable::Clock,
    }
}

/// Model of an expression.
pub open spec fn expr_model(e: Expr) -> GExpr
    decreases e,
{
    match e {
        Expr::Literal(l) => GExpr::Literal(value_model(l.value)),
        Expr::Grouping(g) => GExpr::Grouping(Box::new(expr_model(*g.expression))),
        Expr::Unary(u) => GExpr::Unary(token_model(u.operator), Box::new(expr_model(*u.right))),
        Expr::Binary(b) => GExpr::Binary(
            Box::new(expr_model(*b.left)),
            token_model(b.operator),
            Box::new(expr_model(*b.right)),
        ),
        Expr::Variable(v) => GExpr::Variable(token_model(v.name)),
        Expr::Assign(a) => GExpr::Assign(token_model(a.name), Box::new(expr_model(*a.value))),
        Expr::Logical(l) => GExpr::Logical(
            Box::new(expr_model(*l.left)),
            token_model(l.operator),
            Box::new(expr_model(*l.right)),
        ),
        Expr::Call(c) => GExpr::Call(
            Box::new(expr_model(*c.callee)),
            token_model(c.paren),
            exprs_model(c.arguments@),
        ),
    }
}

/// Models of a sequence of expressions.
pub open spec fn exprs_model(es: Seq<Expr>) -> Seq<GExpr>
    decreases es,
{
    if es.len() == 0 {
        Seq::empty()
    } else {
        exprs_model(es.drop_last()).push(expr_model(es.last()))
    }
}

/// Model of a statement.
pub open spec fn stmt_model(s: Statement) -> GStmt
    decreases s,
{
    match s {
        Statement::Print(p) => GStmt::Print(Box::new(expr_model(*p.expression))),
        Statement::Expression(e) => GStmt::Expression(Box::new(expr_model(*e.expression))),
        Statement::Var(v) => GStmt::Var(
            token_model(v.name),
            match v.initializer {
                Some(e) => Some(Box::new(expr_model(*e))),
                None => None,
            },
        ),
        Statement::Block(b) => GStmt::Block(stmts_model(b.statements@)),
        Statement::If(i) => GStmt::If(
            Box::new(expr_model(*i.condition)),
            Box::new(stmt_model(*i.then_branch)),
            match i.else_branch {
                Some(s2) => Some(Box::new(stmt_model(*s2))),
                None => None,
            },
        ),
        Statement::While(w) => GStmt::While(
            Box::new(expr_model(*w.condition)),
            Box::new(stmt_model(*w.body)),
        ),
        Statement::Function(f) => GStmt::Function {
            name: token_model(f.name),
            params: tokens_model(f.params@),
            body: stmts_model(f.body@),
        },
        Statement::Return(r) => GStmt::Return(
            token_model(r.keyword),
            match r.value {
                Some(e) => Some(Box::new(expr_model(e))),
                None => None,
            },
        ),
    }
}

/// Models of a sequence of statements.
pub open spec fn stmts_model(ss: Seq<Statement>) -> Seq<GStmt>
    decreases ss,
{
    if ss.len() == 0 {
        Seq::empty()
    } else {
        stmts_model(ss.drop_last()).push(stmt_model(ss.last()))
    }
}

/// Models of a sequence of tokens.
pub open spec fn tokens_model(ts: Seq<Token>) -> Seq<GToken>
    decreases ts,
{
    if ts.len() == 0 {
        Seq::empty()
    } else {
        tokens_model(ts.drop_last()).push(token_model(ts.last()))
    }
}

/// The model of a pushed vector element extends the model sequence.
pub broadcast proof fn lemma_stmts_model_push(ss: Seq<Statement>, s: Statement)
    ensures
        #[trigger] stmts_model(ss.push(s)) == stmts_model(ss).push(stmt_model(s)),
{
    assert(ss.push(s).drop_last() =~= ss);
    assert(ss.push(s).last() == s);
}

/// The model of a pushed expression vector extends the model sequence.
pub broadcast proof fn lemma_exprs_model_push(es: Seq<Expr>, e: Expr)
    ensures
        #[trigger] exprs_model(es.push(e)) == exprs_model(es).push(expr_model(e)),
{
    assert(es.push(e).drop_last() =~= es);
    assert(es.push(e).last() == e);
}

/// The model of a pushed token vector extends the model sequence.
pub broadcast proof fn lemma_tokens_model_push(ts: Seq<Token>, t: Token)
    ensures
        #[trigger] tokens_model(ts.push(t)) == tokens_model(ts).push(token_model(t)),
{
    assert(ts.push(t).drop_last() =~= ts);
    assert(ts.push(t).last() == t);
}

/// Model sequences have the length of the vectors they model.
pub broadcast proof fn lemma_stmts_model_len(ss: Seq<Statement>)
    ensures
        #[trigger] stmts_model(ss).len() == ss.len(),
    decreases ss,
{
    if ss.len() > 0 {
        lemma_stmts_model_len(ss.drop_last());
    }
}

/// Model sequences have the length of the vectors they model.
pub broadcast proof fn lemma_exprs_model_len(es: Seq<Expr>)
    ensures
        #[trigger] exprs_model(es).len() == es.len(),
    decreases es,
{
    if es.len() > 0 {
        lemma_exprs_model_len(es.drop_last());
    }
}

/// Model sequences have the length of the vectors they model.
pub broadcast proof fn lemma_tokens_model_len(ts: Seq<Token>)
    ensures
        #[trigger] tokens_model(ts).len() == ts.len(),
    decreases ts,
{
    if ts.len() > 0 {
        lemma_tokens_model_len(ts.drop_last());
    }
}

/// Each element of a model sequence is the model of the element.
pub broadcast proof fn lemma_stmts_model_index(ss: Seq<Statement>, i: int)
    requires
        0 <= i < ss.len(),
    ensures
        #[trigger] stmts_model(ss)[i] == stmt_model(ss[i]),
    decreases ss,
{
    lemma_stmts_model_len(ss);
    if ss.len() > 0 {
        lemma_stmts_model_len(ss.drop_last());
        if i < ss.len() - 1 {
            lemma_stmts_model_index(ss.drop_last(), i);
        }
    }
}

/// Each element of a model sequence is the model of the element.
pub broadcast proof fn lemma_exprs_model_index(es: Seq<Expr>, i: int)
    requires
        0 <= i < es.len(),
    ensures
        #[trigger] exprs_model(es)[i] == expr_model(es[i]),
    decreases es,
{
    lemma_exprs_model_len(es);
    if es.len() > 0 {
        lemma_exprs_model_len(es.drop_last());
        if i < es.len() - 1 {
            lemma_exprs_model_index(es.drop_last(), i);
        }
    }
}

/// Each element of a model sequence is the model of the element.
pub broadcast proof fn lemma_tokens_model_index(ts: Seq<Token>, i: int)
    requires
        0 <= i < ts.len(),
    ensures
        #[trigger] tokens_model(ts)[i] == token_model(ts[i]),
    decreases ts,
{
    lemma_tokens_model_len(ts);
    if ts.len() > 0 {
        lemma_tokens_model_len(ts.drop_last());
        if i < ts.len() - 1 {
            lemma_tokens_model_index(ts.drop_last(), i);
        }
    }
}

} // verus!
