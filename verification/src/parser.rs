//! The parser: a recursive-descent predictive parser from tokens to
//! statements, with one token of lookahead and panic-mode error recovery
//! at declaration boundaries.
use crate::diag::spec_token_location;
use crate::diag::{error_token, spec_report};
use crate::expression::{
    Assign, Binary, Call, Expr, Grouping, Literal, Logical, Unary, Variable,
};
use crate::model::{
    expr_model, exprs_model, lit_model, stmt_model, stmts_model, strings_model, token_model,
    tokens_model, value_model, GExpr, GStmt, GToken, GVal,
};
use crate::statement::{
    Block, Expression, Function, If, Print, Return, Statement, Var, While,
};
use crate::token::{LiteralType, Token, TokenType};
use vstd::prelude::*;
use vstd::string::StringExecFns;

verus! {

/// A boolean literal expression.
fn literal_bool(b: bool) -> (e: Expr)
    ensures
        expr_model(e) == GExpr::Literal(Some(GVal::Bool(b))),
{
    let e = Expr::Literal(Literal { value: Some(LiteralType::Boolean(b)) });
    proof {
        assert(lit_model(LiteralType::Boolean(b)) == GVal::Bool(b));
        assert(value_model(Some(LiteralType::Boolean(b))) == Some(lit_model(
            LiteralType::Boolean(b),
        )));
        assert(expr_model(e) == GExpr::Literal(value_model(Some(LiteralType::Boolean(b)))));
    }
    e
}

/// Concatenation of diagnostic lists is associative.
pub proof fn lemma_diag_concat_assoc(a: Seq<Seq<char>>, b: Seq<Seq<char>>, c: Seq<Seq<char>>)
    ensures
        a + b + c == a + (b + c),
{
    assert(a + b + c =~= a + (b + c));
}


/// The unit thrown when a production fails; the diagnostic itself goes to
/// the error sink.
pub struct ParseError {}

impl ParseError {
    pub fn new() -> (r: ParseError) {
        ParseError {  }
    }
}

/// A token list the parser accepts: non-empty, ending in exactly one EOF
/// token.
pub open spec fn toks_wf(ts: Seq<GToken>) -> bool {
    &&& ts.len() >= 1
    &&& ts.last().kind == TokenType::EOF
    &&& forall|j: int| 0 <= j < ts.len() - 1 ==> (#[trigger] ts[j]).kind != TokenType::EOF
}

/// A token that is not the EOF token is not the last, so the position
/// after it is still inside the list.
pub proof fn lemma_not_eof_bound(toks: Seq<GToken>, i: int)
    requires
        toks_wf(toks),
        0 <= i < toks.len(),
        toks[i].kind != TokenType::EOF,
    ensures
        i + 1 < toks.len(),
{
    assert(toks[toks.len() - 1].kind == TokenType::EOF);
}

/// The diagnostic the parser reports at a token.
pub open spec fn spec_perror(t: GToken, msg: Seq<char>) -> Seq<char> {
    spec_report(t.line as nat, spec_token_location(t.lexeme, t.kind), msg)
}

/// The result of parsing one expression: the expression or a failure, the
/// position after it, and the diagnostics emitted.
pub ghost struct PExpr {
    pub r: Result<GExpr, ()>,
    pub i: int,
    pub errs: Seq<Seq<char>>,
}

/// The result of parsing one statement.
pub ghost struct PStmt {
    pub r: Result<GStmt, ()>,
    pub i: int,
    pub errs: Seq<Seq<char>>,
}

/// The result of parsing a statement list (a block body).
pub ghost struct PBlock {
    pub r: Result<Seq<GStmt>, ()>,
    pub i: int,
    pub errs: Seq<Seq<char>>,
}

/// The result of parsing an argument list.
pub ghost struct PArgs {
    pub r: Result<Seq<GExpr>, ()>,
    pub i: int,
    pub errs: Seq<Seq<char>>,
}

/// The result of parsing a parameter list.
pub ghost struct PParams {
    pub r: Result<Seq<GToken>, ()>,
    pub i: int,
    pub errs: Seq<Seq<char>>,
}

/// The result of parsing a whole program: the declarations that parsed,
/// the position reached, and all diagnostics.
pub ghost struct PProgram {
    pub stmts: Seq<GStmt>,
    pub i: int,
    pub errs: Seq<Seq<char>>,
}

/// Expect a token of kind `k` at `i`: consume it, or fail with `msg`
/// reported at the token found.
pub open spec fn spec_consume(toks: Seq<GToken>, i: int, k: TokenType, msg: Seq<char>) -> (Result<
    GToken,
    (),
>, int, Seq<Seq<char>>) {
    if toks[i].kind == k && toks[i].kind != TokenType::EOF {
        (Ok(toks[i]), i + 1, Seq::empty())
    } else {
        (Err(()), i, seq![spec_perror(toks[i], msg)])
    }
}

/// primary: literals, grouping, and variable reads.
#[verifier::opaque]
pub open spec fn spec_primary(toks: Seq<GToken>, i: int) -> PExpr
    decreases toks.len() - i, 3int,
        when toks_wf(toks) && 0 <= i < toks.len()
{
    let k = toks[i].kind;
    if k == TokenType::True {
        PExpr { r: Ok(GExpr::Literal(Some(GVal::Bool(true)))), i: i + 1, errs: Seq::empty() }
    } else if k == TokenType::False {
        PExpr { r: Ok(GExpr::Literal(Some(GVal::Bool(false)))), i: i + 1, errs: Seq::empty() }
    } else if k == TokenType::Nil {
        PExpr { r: Ok(GExpr::Literal(None)), i: i + 1, errs: Seq::empty() }
    } else if k == TokenType::Number || k == TokenType::String {
        PExpr { r: Ok(GExpr::Literal(toks[i].literal)), i: i + 1, errs: Seq::empty() }
    } else if k == TokenType::LeftParen {
        let e = spec_expression(toks, i + 1);
        match e.r {
            Err(u) => PExpr { r: Err(()), i: e.i, errs: e.errs },
            Ok(g) => {
                if 0 <= e.i < toks.len() {
                    let (c, j, ce) = spec_consume(
                        toks,
                        e.i,
                        TokenType::RightParen,
                        "Expect ')' after expression."@,
                    );
                    match c {
                        Ok(u) => PExpr {
                            r: Ok(GExpr::Grouping(Box::new(g))),
                            i: j,
                            errs: e.errs + ce,
                        },
                        Err(u) => PExpr { r: Err(()), i: j, errs: e.errs + ce },
                    }
                } else {
                    PExpr { r: Err(()), i: e.i, errs: e.errs }
                }
            },
        }
    } else if k == TokenType::Identifier {
        PExpr { r: Ok(GExpr::Variable(toks[i])), i: i + 1, errs: Seq::empty() }
    } else {
        PExpr {
            r: Err(()),
            i,
            errs: seq![spec_perror(toks[i], "Expect expression."@)],
        }
    }
}

/// The arguments of a call, after the opening parenthesis: expressions
/// separated by commas; more than 255 is reported but not fatal.
#[verifier::opaque]
pub open spec fn spec_args(toks: Seq<GToken>, i: int, count: int) -> PArgs
    decreases toks.len() - i, 33int,
        when toks_wf(toks) && 0 <= i < toks.len()
{
    let d: Seq<Seq<char>> = if count >= 255 {
        seq![spec_perror(toks[i], "Can't have more than 255 arguments."@)]
    } else {
        Seq::empty()
    };
    let e = spec_expression(toks, i);
    match e.r {
        Err(u) => PArgs { r: Err(()), i: e.i, errs: d + e.errs },
        Ok(g) => {
            if i < e.i < toks.len() && toks[e.i].kind == TokenType::Comma && e.i + 1 < toks.len() {
                let rest = spec_args(toks, e.i + 1, if count < 256 { count + 1 } else { count });
                match rest.r {
                    Err(u) => PArgs { r: Err(()), i: rest.i, errs: d + e.errs + rest.errs },
                    Ok(gs) => PArgs {
                        r: Ok(seq![g] + gs),
                        i: rest.i,
                        errs: d + e.errs + rest.errs,
                    },
                }
            } else if 0 <= e.i < toks.len() && toks[e.i].kind == TokenType::Comma {
                PArgs { r: Err(()), i: e.i, errs: d + e.errs }
            } else {
                PArgs { r: Ok(seq![g]), i: e.i, errs: d + e.errs }
            }
        },
    }
}

/// The rest of a call expression after the opening parenthesis: arguments,
/// then the closing parenthesis the call is reported at.
#[verifier::opaque]
pub open spec fn spec_finish_call(callee: GExpr, toks: Seq<GToken>, i: int) -> PExpr
    decreases toks.len() - i, 34int,
        when toks_wf(toks) && 0 <= i < toks.len()
{
    if toks[i].kind == TokenType::RightParen && toks[i].kind != TokenType::EOF {
        PExpr {
            r: Ok(GExpr::Call(Box::new(callee), toks[i], Seq::empty())),
            i: i + 1,
            errs: Seq::empty(),
        }
    } else {
        let a = spec_args(toks, i, 0);
        match a.r {
            Err(u) => PExpr { r: Err(()), i: a.i, errs: a.errs },
            Ok(gs) => {
                if 0 <= a.i < toks.len() {
                    let (c, j, ce) = spec_consume(
                        toks,
                        a.i,
                        TokenType::RightParen,
                        "Expect ')' after arguments."@,
                    );
                    match c {
                        Ok(paren) => PExpr {
                            r: Ok(GExpr::Call(Box::new(callee), paren, gs)),
                            i: j,
                            errs: a.errs + ce,
                        },
                        Err(u) => PExpr { r: Err(()), i: j, errs: a.errs + ce },
                    }
                } else {
                    PExpr { r: Err(()), i: a.i, errs: a.errs }
                }
            },
        }
    }
}

/// The call suffixes after a primary expression: zero or more argument
/// lists.
#[verifier::opaque]
pub open spec fn spec_call_rest(callee: GExpr, toks: Seq<GToken>, i: int) -> PExpr
    decreases toks.len() - i, 16int,
        when toks_wf(toks) && 0 <= i < toks.len()
{
    if toks[i].kind == TokenType::LeftParen && i + 1 < toks.len() {
        let f = spec_finish_call(callee, toks, i + 1);
        match f.r {
            Err(u) => PExpr { r: Err(()), i: f.i, errs: f.errs },
            Ok(g) => {
                if i < f.i < toks.len() {
                    let rest = spec_call_rest(g, toks, f.i);
                    PExpr { r: rest.r, i: rest.i, errs: f.errs + rest.errs }
                } else {
                    PExpr { r: Ok(g), i: f.i, errs: f.errs }
                }
            },
        }
    } else {
        PExpr { r: Ok(callee), i, errs: Seq::empty() }
    }
}

/// call: a primary expression with call suffixes.
#[verifier::opaque]
pub open spec fn spec_call(toks: Seq<GToken>, i: int) -> PExpr
    decreases toks.len() - i, 17int,
        when toks_wf(toks) && 0 <= i < toks.len()
{
    let p = spec_primary(toks, i);
    match p.r {
        Err(u) => p,
        Ok(g) => {
            if i < p.i < toks.len() {
                let rest = spec_call_rest(g, toks, p.i);
                PExpr { r: rest.r, i: rest.i, errs: p.errs + rest.errs }
            } else {
                p
            }
        },
    }
}

/// unary: `!` and `-` applied recursively, else a call.
#[verifier::opaque]
pub open spec fn spec_unary(toks: Seq<GToken>, i: int) -> PExpr
    decreases toks.len() - i, 18int,
        when toks_wf(toks) && 0 <= i < toks.len()
{
    let k = toks[i].kind;
    if (k == TokenType::Bang || k == TokenType::Minus) && i + 1 < toks.len() {
        let r = spec_unary(toks, i + 1);
        match r.r {
            Err(u) => r,
            Ok(g) => PExpr {
                r: Ok(GExpr::Unary(toks[i], Box::new(g))),
                i: r.i,
                errs: r.errs,
            },
        }
    } else {
        spec_call(toks, i)
    }
}

/// One step of a left-associative binary chain: if the token at `i` is one
/// of the chain's operators.
pub open spec fn is_factor_op(k: TokenType) -> bool {
    k == TokenType::Slash || k == TokenType::Star
}

pub open spec fn is_term_op(k: TokenType) -> bool {
    k == TokenType::Minus || k == TokenType::Plus
}

pub open spec fn is_comparison_op(k: TokenType) -> bool {
    k == TokenType::Greater || k == TokenType::GreaterEqual || k == TokenType::Less || k
        == TokenType::LessEqual
}

pub open spec fn is_equality_op(k: TokenType) -> bool {
    k == TokenType::BangEqual || k == TokenType::EqualEqual
}

/// The rest of a factor chain: `/` and `*` folded to the left.
#[verifier::opaque]
pub open spec fn spec_factor_rest(left: GExpr, toks: Seq<GToken>, i: int) -> PExpr
    decreases toks.len() - i, 19int,
        when toks_wf(toks) && 0 <= i < toks.len()
{
    if is_factor_op(toks[i].kind) && i + 1 < toks.len() {
        let r = spec_unary(toks, i + 1);
        match r.r {
            Err(u) => r,
            Ok(g) => {
                let b = GExpr::Binary(Box::new(left), toks[i], Box::new(g));
                if i < r.i < toks.len() {
                    let rest = spec_factor_rest(b, toks, r.i);
                    PExpr { r: rest.r, i: rest.i, errs: r.errs + rest.errs }
                } else {
                    PExpr { r: Ok(b), i: r.i, errs: r.errs }
                }
            },
        }
    } else {
        PExpr { r: Ok(left), i, errs: Seq::empty() }
    }
}

/// factor: unary expressions under `/` and `*`.
#[verifier::opaque]
pub open spec fn spec_factor(toks: Seq<GToken>, i: int) -> PExpr
    decreases toks.len() - i, 20int,
        when toks_wf(toks) && 0 <= i < toks.len()
{
    let p = spec_unary(toks, i);
    match p.r {
        Err(u) => p,
        Ok(g) => {
            if i < p.i < toks.len() {
                let rest = spec_factor_rest(g, toks, p.i);
                PExpr { r: rest.r, i: rest.i, errs: p.errs + rest.errs }
            } else {
                p
            }
        },
    }
}

/// The rest of a term chain: `-` and `+` folded to the left.
#[verifier::opaque]
pub open spec fn spec_term_rest(left: GExpr, toks: Seq<GToken>, i: int) -> PExpr
    decreases toks.len() - i, 21int,
        when toks_wf(toks) && 0 <= i < toks.len()
{
    if is_term_op(toks[i].kind) && i + 1 < toks.len() {
        let r = spec_factor(toks, i + 1);
        match r.r {
            Err(u) => r,
            Ok(g) => {
                let b = GExpr::Binary(Box::new(left), toks[i], Box::new(g));
                if i < r.i < toks.len() {
                    let rest = spec_term_rest(b, toks, r.i);
                    PExpr { r: rest.r, i: rest.i, errs: r.errs + rest.errs }
                } else {
                    PExpr { r: Ok(b), i: r.i, errs: r.errs }
                }
            },
        }
    } else {
        PExpr { r: Ok(left), i, errs: Seq::empty() }
    }
}

/// term: factors under `-` and `+`.
#[verifier::opaque]
pub open spec fn spec_term(toks: Seq<GToken>, i: int) -> PExpr
    decreases toks.len() - i, 22int,
        when toks_wf(toks) && 0 <= i < toks.len()
{
    let p = spec_factor(toks, i);
    match p.r {
        Err(u) => p,
        Ok(g) => {
            if i < p.i < toks.len() {
                let rest = spec_term_rest(g, toks, p.i);
                PExpr { r: rest.r, i: rest.i, errs: p.errs + rest.errs }
            } else {
                p
            }
        },
    }
}

/// The rest of a comparison chain.
#[verifier::opaque]
pub open spec fn spec_comparison_rest(left: GExpr, toks: Seq<GToken>, i: int) -> PExpr
    decreases toks.len() - i, 23int,
        when toks_wf(toks) && 0 <= i < toks.len()
{
    if is_comparison_op(toks[i].kind) && i + 1 < toks.len() {
        let r = spec_term(toks, i + 1);
        match r.r {
            Err(u) => r,
            Ok(g) => {
                let b = GExpr::Binary(Box::new(left), toks[i], Box::new(g));
                if i < r.i < toks.len() {
                    let rest = spec_comparison_rest(b, toks, r.i);
                    PExpr { r: rest.r, i: rest.i, errs: r.errs + rest.errs }
                } else {
                    PExpr { r: Ok(b), i: r.i, errs: r.errs }
                }
            },
        }
    } else {
        PExpr { r: Ok(left), i, errs: Seq::empty() }
    }
}

/// comparison: terms under `>`, `>=`, `<` and `<=`.
#[verifier::opaque]
pub open spec fn spec_comparison(toks: Seq<GToken>, i: int) -> PExpr
    decreases toks.len() - i, 24int,
        when toks_wf(toks) && 0 <= i < toks.len()
{
    let p = spec_term(toks, i);
    match p.r {
        Err(u) => p,
        Ok(g) => {
            if i < p.i < toks.len() {
                let rest = spec_comparison_rest(g, toks, p.i);
                PExpr { r: rest.r, i: rest.i, errs: p.errs + rest.errs }
            } else {
                p
            }
        },
    }
}

/// The rest of an equality chain.
#[verifier::opaque]
pub open spec fn spec_equality_rest(left: GExpr, toks: Seq<GToken>, i: int) -> PExpr
    decreases toks.len() - i, 25int,
        when toks_wf(toks) && 0 <= i < toks.len()
{
    if is_equality_op(toks[i].kind) && i + 1 < toks.len() {
        let r = spec_comparison(toks, i + 1);
        match r.r {
            Err(u) => r,
            Ok(g) => {
                let b = GExpr::Binary(Box::new(left), toks[i], Box::new(g));
                if i < r.i < toks.len() {
                    let rest = spec_equality_rest(b, toks, r.i);
                    PExpr { r: rest.r, i: rest.i, errs: r.errs + rest.errs }
                } else {
                    PExpr { r: Ok(b), i: r.i, errs: r.errs }
                }
            },
        }
    } else {
        PExpr { r: Ok(left), i, errs: Seq::empty() }
    }
}

/// equality: comparisons under `!=` and `==`.
#[verifier::opaque]
pub open spec fn spec_equality(toks: Seq<GToken>, i: int) -> PExpr
    decreases toks.len() - i, 26int,
        when toks_wf(toks) && 0 <= i < toks.len()
{
    let p = spec_comparison(toks, i);
    match p.r {
        Err(u) => p,
        Ok(g) => {
            if i < p.i < toks.len() {
                let rest = spec_equality_rest(g, toks, p.i);
                PExpr { r: rest.r, i: rest.i, errs: p.errs + rest.errs }
            } else {
                p
            }
        },
    }
}

/// The rest of an `and` chain.
#[verifier::opaque]
pub open spec fn spec_and_rest(left: GExpr, toks: Seq<GToken>, i: int) -> PExpr
    decreases toks.len() - i, 27int,
        when toks_wf(toks) && 0 <= i < toks.len()
{
    if toks[i].kind == TokenType::And && i + 1 < toks.len() {
        let r = spec_equality(toks, i + 1);
        match r.r {
            Err(u) => r,
            Ok(g) => {
                let b = GExpr::Logical(Box::new(left), toks[i], Box::new(g));
                if i < r.i < toks.len() {
                    let rest = spec_and_rest(b, toks, r.i);
                    PExpr { r: rest.r, i: rest.i, errs: r.errs + rest.errs }
                } else {
                    PExpr { r: Ok(b), i: r.i, errs: r.errs }
                }
            },
        }
    } else {
        PExpr { r: Ok(left), i, errs: Seq::empty() }
    }
}

/// logic_and: equalities under `and`.
#[verifier::opaque]
pub open spec fn spec_and(toks: Seq<GToken>, i: int) -> PExpr
    decreases toks.len() - i, 28int,
        when toks_wf(toks) && 0 <= i < toks.len()
{
    let p = spec_equality(toks, i);
    match p.r {
        Err(u) => p,
        Ok(g) => {
            if i < p.i < toks.len() {
                let rest = spec_and_rest(g, toks, p.i);
                PExpr { r: rest.r, i: rest.i, errs: p.errs + rest.errs }
            } else {
                p
            }
        },
    }
}

/// The rest of an `or` chain.
#[verifier::opaque]
pub open spec fn spec_or_rest(left: GExpr, toks: Seq<GToken>, i: int) -> PExpr
    decreases toks.len() - i, 29int,
        when toks_wf(toks) && 0 <= i < toks.len()
{
    if toks[i].kind == TokenType::Or && i + 1 < toks.len() {
        let r = spec_and(toks, i + 1);
        match r.r {
            Err(u) => r,
            Ok(g) => {
                let b = GExpr::Logical(Box::new(left), toks[i], Box::new(g));
                if i < r.i < toks.len() {
                    let rest = spec_or_rest(b, toks, r.i);
                    PExpr { r: rest.r, i: rest.i, errs: r.errs + rest.errs }
                } else {
                    PExpr { r: Ok(b), i: r.i, errs: r.errs }
                }
            },
        }
    } else {
        PExpr { r: Ok(left), i, errs: Seq::empty() }
    }
}

/// logic_or: `and` chains under `or`.
#[verifier::opaque]
pub open spec fn spec_or(toks: Seq<GToken>, i: int) -> PExpr
    decreases toks.len() - i, 30int,
        when toks_wf(toks) && 0 <= i < toks.len()
{
    let p = spec_and(toks, i);
    match p.r {
        Err(u) => p,
        Ok(g) => {
            if i < p.i < toks.len() {
                let rest = spec_or_rest(g, toks, p.i);
                PExpr { r: rest.r, i: rest.i, errs: p.errs + rest.errs }
            } else {
                p
            }
        },
    }
}

/// assignment: right-associative `=`, whose target must be a variable;
/// a bad target is reported at the `=` but parsing continues with the
/// left-hand side.
#[verifier::opaque]
pub open spec fn spec_assignment(toks: Seq<GToken>, i: int) -> PExpr
    decreases toks.len() - i, 31int,
        when toks_wf(toks) && 0 <= i < toks.len()
{
    let p = spec_or(toks, i);
    match p.r {
        Err(u) => p,
        Ok(g) => {
            if i < p.i < toks.len() && toks[p.i].kind == TokenType::Equal && p.i + 1 < toks.len() {
                let v = spec_assignment(toks, p.i + 1);
                match v.r {
                    Err(u) => PExpr { r: Err(()), i: v.i, errs: p.errs + v.errs },
                    Ok(gv) => match g {
                        GExpr::Variable(name) => PExpr {
                            r: Ok(GExpr::Assign(name, Box::new(gv))),
                            i: v.i,
                            errs: p.errs + v.errs,
                        },
                        _ => PExpr {
                            r: Ok(g),
                            i: v.i,
                            errs: p.errs + v.errs + seq![
                                spec_perror(toks[p.i], "Invalid assignment target."@),
                            ],
                        },
                    },
                }
            } else {
                p
            }
        },
    }
}

/// expression: an assignment.
#[verifier::opaque]
pub open spec fn spec_expression(toks: Seq<GToken>, i: int) -> PExpr
    decreases toks.len() - i, 32int,
        when toks_wf(toks) && 0 <= i < toks.len()
{
    spec_assignment(toks, i)
}

/// An expression statement: an expression, then `;`.
#[verifier::opaque]
pub open spec fn spec_expression_statement(toks: Seq<GToken>, i: int) -> PStmt
    decreases toks.len() - i, 35int,
        when toks_wf(toks) && 0 <= i < toks.len()
{
    let e = spec_expression(toks, i);
    match e.r {
        Err(u) => PStmt { r: Err(()), i: e.i, errs: e.errs },
        Ok(g) => {
            if 0 <= e.i < toks.len() {
                let (c, j, ce) = spec_consume(
                    toks,
                    e.i,
                    TokenType::Semicolon,
                    "Expect ';' after expression."@,
                );
                match c {
                    Ok(u) => PStmt {
                        r: Ok(GStmt::Expression(Box::new(g))),
                        i: j,
                        errs: e.errs + ce,
                    },
                    Err(u) => PStmt { r: Err(()), i: j, errs: e.errs + ce },
                }
            } else {
                PStmt { r: Err(()), i: e.i, errs: e.errs }
            }
        },
    }
}

/// A print statement, after the `print` keyword.
#[verifier::opaque]
pub open spec fn spec_print_statement(toks: Seq<GToken>, i: int) -> PStmt
    decreases toks.len() - i, 35int,
        when toks_wf(toks) && 0 <= i < toks.len()
{
    let e = spec_expression(toks, i);
    match e.r {
        Err(u) => PStmt { r: Err(()), i: e.i, errs: e.errs },
        Ok(g) => {
            if 0 <= e.i < toks.len() {
                let (c, j, ce) = spec_consume(
                    toks,
                    e.i,
                    TokenType::Semicolon,
                    "Expect ';' after value."@,
                );
                match c {
                    Ok(u) => PStmt { r: Ok(GStmt::Print(Box::new(g))), i: j, errs: e.errs + ce },
                    Err(u) => PStmt { r: Err(()), i: j, errs: e.errs + ce },
                }
            } else {
                PStmt { r: Err(()), i: e.i, errs: e.errs }
            }
        },
    }
}

/// A variable declaration, after the `var` keyword: a name, an optional
/// initializer, then `;`.
#[verifier::opaque]
pub open spec fn spec_var_declaration(toks: Seq<GToken>, i: int) -> PStmt
    decreases toks.len() - i, 35int,
        when toks_wf(toks) && 0 <= i < toks.len()
{
    let (n, j, ne) = spec_consume(toks, i, TokenType::Identifier, "Expect variable name."@);
    match n {
        Err(u) => PStmt { r: Err(()), i: j, errs: ne },
        Ok(name) => {
            if j < toks.len() && toks[j].kind == TokenType::Equal && j + 1 < toks.len() {
                let e = spec_expression(toks, j + 1);
                match e.r {
                    Err(u) => PStmt { r: Err(()), i: e.i, errs: ne + e.errs },
                    Ok(g) => {
                        if 0 <= e.i < toks.len() {
                            let (c, j2, ce) = spec_consume(
                                toks,
                                e.i,
                                TokenType::Semicolon,
                                "Expect ';' after variable declaration."@,
                            );
                            match c {
                                Ok(u) => PStmt {
                                    r: Ok(GStmt::Var(name, Some(Box::new(g)))),
                                    i: j2,
                                    errs: ne + e.errs + ce,
                                },
                                Err(u) => PStmt { r: Err(()), i: j2, errs: ne + e.errs + ce },
                            }
                        } else {
                            PStmt { r: Err(()), i: e.i, errs: ne + e.errs }
                        }
                    },
                }
            } else if 0 <= j < toks.len() {
                let (c, j2, ce) = spec_consume(
                    toks,
                    j,
                    TokenType::Semicolon,
                    "Expect ';' after variable declaration."@,
                );
                match c {
                    Ok(u) => PStmt { r: Ok(GStmt::Var(name, None)), i: j2, errs: ne + ce },
                    Err(u) => PStmt { r: Err(()), i: j2, errs: ne + ce },
                }
            } else {
                PStmt { r: Err(()), i: j, errs: ne }
            }
        },
    }
}

/// A return statement, after the `return` keyword `kw`: an optional value,
/// then `;`.
#[verifier::opaque]
pub open spec fn spec_return_statement(kw: GToken, toks: Seq<GToken>, i: int) -> PStmt
    decreases toks.len() - i, 35int,
        when toks_wf(toks) && 0 <= i < toks.len()
{
    if toks[i].kind != TokenType::Semicolon || toks[i].kind == TokenType::EOF {
        let e = spec_expression(toks, i);
        match e.r {
            Err(u) => PStmt { r: Err(()), i: e.i, errs: e.errs },
            Ok(g) => {
                if 0 <= e.i < toks.len() {
                    let (c, j, ce) = spec_consume(
                        toks,
                        e.i,
                        TokenType::Semicolon,
                        "Expect ';' after return value."@,
                    );
                    match c {
                        Ok(u) => PStmt {
                            r: Ok(GStmt::Return(kw, Some(Box::new(g)))),
                            i: j,
                            errs: e.errs + ce,
                        },
                        Err(u) => PStmt { r: Err(()), i: j, errs: e.errs + ce },
                    }
                } else {
                    PStmt { r: Err(()), i: e.i, errs: e.errs }
                }
            },
        }
    } else {
        PStmt { r: Ok(GStmt::Return(kw, None)), i: i + 1, errs: Seq::empty() }
    }
}

/// The parameters of a function declaration: names separated by commas;
/// more than 255 is reported but not fatal.
#[verifier::opaque]
pub open spec fn spec_params(toks: Seq<GToken>, i: int, count: int) -> PParams
    decreases toks.len() - i, 35int,
        when toks_wf(toks) && 0 <= i < toks.len()
{
    let d: Seq<Seq<char>> = if count >= 255 {
        seq![spec_perror(toks[i], "Can't have more than 255 parameters."@)]
    } else {
        Seq::empty()
    };
    let (n, j, ne) = spec_consume(toks, i, TokenType::Identifier, "Expect parameter name."@);
    match n {
        Err(u) => PParams { r: Err(()), i: j, errs: d + ne },
        Ok(name) => {
            if j < toks.len() && toks[j].kind == TokenType::Comma && j + 1 < toks.len() {
                let rest = spec_params(toks, j + 1, if count < 256 { count + 1 } else { count });
                match rest.r {
                    Err(u) => PParams { r: Err(()), i: rest.i, errs: d + ne + rest.errs },
                    Ok(ns) => PParams {
                        r: Ok(seq![name] + ns),
                        i: rest.i,
                        errs: d + ne + rest.errs,
                    },
                }
            } else {
                PParams { r: Ok(seq![name]), i: j, errs: d + ne }
            }
        },
    }
}

/// The body of a block, after the `{`: declarations up to the matching
/// `}`; a failing declaration fails the whole block.
#[verifier::opaque]
pub open spec fn spec_block(toks: Seq<GToken>, i: int) -> PBlock
    decreases toks.len() - i, 38int,
        when toks_wf(toks) && 0 <= i < toks.len()
{
    if toks[i].kind == TokenType::RightBrace || toks[i].kind == TokenType::EOF {
        let (c, j, ce) = spec_consume(toks, i, TokenType::RightBrace, "Expect '}' after block."@);
        match c {
            Ok(u) => PBlock { r: Ok(Seq::empty()), i: j, errs: ce },
            Err(u) => PBlock { r: Err(()), i: j, errs: ce },
        }
    } else {
        let d = spec_declaration(toks, i);
        match d.r {
            Err(u) => PBlock { r: Err(()), i: d.i, errs: d.errs },
            Ok(g) => {
                if i < d.i < toks.len() {
                    let rest = spec_block(toks, d.i);
                    match rest.r {
                        Err(u) => PBlock { r: Err(()), i: rest.i, errs: d.errs + rest.errs },
                        Ok(gs) => PBlock {
                            r: Ok(seq![g] + gs),
                            i: rest.i,
                            errs: d.errs + rest.errs,
                        },
                    }
                } else {
                    PBlock { r: Err(()), i: d.i, errs: d.errs }
                }
            },
        }
    }
}

/// An if statement, after the `if` keyword.
#[verifier::opaque]
pub open spec fn spec_if_statement(toks: Seq<GToken>, i: int) -> PStmt
    decreases toks.len() - i, 35int,
        when toks_wf(toks) && 0 <= i < toks.len()
{
    let (c1, j1, e1) = spec_consume(toks, i, TokenType::LeftParen, "Expect '(' after 'if'."@);
    if c1 is Err || !(0 <= j1 < toks.len()) {
        PStmt { r: Err(()), i: j1, errs: e1 }
    } else {
        let cond = spec_expression(toks, j1);
        match cond.r {
            Err(u) => PStmt { r: Err(()), i: cond.i, errs: e1 + cond.errs },
            Ok(gc) => {
                if !(0 <= cond.i < toks.len()) {
                    PStmt { r: Err(()), i: cond.i, errs: e1 + cond.errs }
                } else {
                    let (c2, j2, e2) = spec_consume(
                        toks,
                        cond.i,
                        TokenType::RightParen,
                        "Expect ')' after if condition."@,
                    );
                    if c2 is Err || !(i < j2 < toks.len()) {
                        PStmt { r: Err(()), i: j2, errs: e1 + cond.errs + e2 }
                    } else {
                        let th = spec_statement(toks, j2);
                        match th.r {
                            Err(u) => PStmt { r: Err(()), i: th.i, errs: e1 + cond.errs + e2 + th.errs },
                            Ok(gt) => {
                                if i < th.i < toks.len() && toks[th.i].kind == TokenType::Else
                                    && th.i + 1 < toks.len() {
                                    let el = spec_statement(toks, th.i + 1);
                                    match el.r {
                                        Err(u) => PStmt {
                                            r: Err(()),
                                            i: el.i,
                                            errs: e1 + cond.errs + e2 + th.errs + el.errs,
                                        },
                                        Ok(ge) => PStmt {
                                            r: Ok(
                                                GStmt::If(
                                                    Box::new(gc),
                                                    Box::new(gt),
                                                    Some(Box::new(ge)),
                                                ),
                                            ),
                                            i: el.i,
                                            errs: e1 + cond.errs + e2 + th.errs + el.errs,
                                        },
                                    }
                                } else {
                                    PStmt {
                                        r: Ok(GStmt::If(Box::new(gc), Box::new(gt), None)),
                                        i: th.i,
                                        errs: e1 + cond.errs + e2 + th.errs,
                                    }
                                }
                            },
                        }
                    }
                }
            },
        }
    }
}

/// A while statement, after the `while` keyword.
#[verifier::opaque]
pub open spec fn spec_while_statement(toks: Seq<GToken>, i: int) -> PStmt
    decreases toks.len() - i, 35int,
        when toks_wf(toks) && 0 <= i < toks.len()
{
    let (c1, j1, e1) = spec_consume(toks, i, TokenType::LeftParen, "Expect '(' after 'while'."@);
    if c1 is Err || !(0 <= j1 < toks.len()) {
        PStmt { r: Err(()), i: j1, errs: e1 }
    } else {
        let cond = spec_expression(toks, j1);
        match cond.r {
            Err(u) => PStmt { r: Err(()), i: cond.i, errs: e1 + cond.errs },
            Ok(gc) => {
                if !(0 <= cond.i < toks.len()) {
                    PStmt { r: Err(()), i: cond.i, errs: e1 + cond.errs }
                } else {
                    let (c2, j2, e2) = spec_consume(
                        toks,
                        cond.i,
                        TokenType::RightParen,
                        "Expect ')' after condition."@,
                    );
                    if c2 is Err || !(i < j2 < toks.len()) {
                        PStmt { r: Err(()), i: j2, errs: e1 + cond.errs + e2 }
                    } else {
                        let body = spec_statement(toks, j2);
                        match body.r {
                            Err(u) => PStmt {
                                r: Err(()),
                                i: body.i,
                                errs: e1 + cond.errs + e2 + body.errs,
                            },
                            Ok(gb) => PStmt {
                                r: Ok(GStmt::While(Box::new(gc), Box::new(gb))),
                                i: body.i,
                                errs: e1 + cond.errs + e2 + body.errs,
                            },
                        }
                    }
                }
            },
        }
    }
}

/// A function declaration, after the `fun` keyword: name, parameters,
/// brace, body.
#[verifier::opaque]
pub open spec fn spec_function(toks: Seq<GToken>, i: int) -> PStmt
    decreases toks.len() - i, 35int,
        when toks_wf(toks) && 0 <= i < toks.len()
{
    let (n, j, ne) = spec_consume(toks, i, TokenType::Identifier, "Expect function name."@);
    if n is Err || !(0 <= j < toks.len()) {
        PStmt { r: Err(()), i: j, errs: ne }
    } else {
        let (lp, j1, e1) = spec_consume(
            toks,
            j,
            TokenType::LeftParen,
            "Expect '(' after function name."@,
        );
        if lp is Err || !(i < j1 < toks.len()) {
            PStmt { r: Err(()), i: j1, errs: ne + e1 }
        } else {
            let (ps, j2, e2) = if toks[j1].kind == TokenType::RightParen {
                (Ok(Seq::<GToken>::empty()), j1, Seq::<Seq<char>>::empty())
            } else {
                let pr = spec_params(toks, j1, 0);
                (pr.r, pr.i, pr.errs)
            };
            match ps {
                Err(u) => PStmt { r: Err(()), i: j2, errs: ne + e1 + e2 },
                Ok(params) => {
                    if !(0 <= j2 < toks.len()) {
                        PStmt { r: Err(()), i: j2, errs: ne + e1 + e2 }
                    } else {
                        let (rp, j3, e3) = spec_consume(
                            toks,
                            j2,
                            TokenType::RightParen,
                            "Expect ')' after parameters."@,
                        );
                        if rp is Err || !(0 <= j3 < toks.len()) {
                            PStmt { r: Err(()), i: j3, errs: ne + e1 + e2 + e3 }
                        } else {
                            let (lb, j4, e4) = spec_consume(
                                toks,
                                j3,
                                TokenType::LeftBrace,
                                "Expect '{' before function body."@,
                            );
                            if lb is Err || !(i < j4 < toks.len()) {
                                PStmt { r: Err(()), i: j4, errs: ne + e1 + e2 + e3 + e4 }
                            } else {
                                let b = spec_block(toks, j4);
                                match b.r {
                                    Err(u) => PStmt {
                                        r: Err(()),
                                        i: b.i,
                                        errs: ne + e1 + e2 + e3 + e4 + b.errs,
                                    },
                                    Ok(body) => PStmt {
                                        r: Ok(
                                            GStmt::Function {
                                                name: n->Ok_0,
                                                params,
                                                body,
                                            },
                                        ),
                                        i: b.i,
                                        errs: ne + e1 + e2 + e3 + e4 + b.errs,
                                    },
                                }
                            }
                        }
                    }
                },
            }
        }
    }
}

/// A for statement, after the `for` keyword, desugared at parse time into
/// a while loop inside a block.
#[verifier::opaque]
pub open spec fn spec_for_statement(toks: Seq<GToken>, i: int) -> PStmt
    decreases toks.len() - i, 35int,
        when toks_wf(toks) && 0 <= i < toks.len()
{
    let (c1, j1, e1) = spec_consume(toks, i, TokenType::LeftParen, "Expect '(' after 'for'."@);
    if c1 is Err || !(i < j1 < toks.len()) {
        PStmt { r: Err(()), i: j1, errs: e1 }
    } else {
        let (init, j2, e2) = if toks[j1].kind == TokenType::Semicolon {
            (Ok(None), j1 + 1, Seq::<Seq<char>>::empty())
        } else if toks[j1].kind == TokenType::Var && j1 + 1 < toks.len() {
            let v = spec_var_declaration(toks, j1 + 1);
            match v.r {
                Err(u) => (Err(()), v.i, v.errs),
                Ok(g) => (Ok(Some(g)), v.i, v.errs),
            }
        } else {
            let v = spec_expression_statement(toks, j1);
            match v.r {
                Err(u) => (Err(()), v.i, v.errs),
                Ok(g) => (Ok(Some(g)), v.i, v.errs),
            }
        };
        match init {
            Err(u) => PStmt { r: Err(()), i: j2, errs: e1 + e2 },
            Ok(ginit) => {
                if !(i < j2 < toks.len()) {
                    PStmt { r: Err(()), i: j2, errs: e1 + e2 }
                } else {
                    let (cond, j3, e3) = if toks[j2].kind != TokenType::Semicolon && toks[j2].kind
                        != TokenType::EOF {
                        let ce = spec_expression(toks, j2);
                        match ce.r {
                            Err(u) => (Err(()), ce.i, ce.errs),
                            Ok(g) => (Ok(Some(g)), ce.i, ce.errs),
                        }
                    } else {
                        (Ok(None), j2, Seq::<Seq<char>>::empty())
                    };
                    match cond {
                        Err(u) => PStmt { r: Err(()), i: j3, errs: e1 + e2 + e3 },
                        Ok(gcond) => {
                            if !(0 <= j3 < toks.len()) {
                                PStmt { r: Err(()), i: j3, errs: e1 + e2 + e3 }
                            } else {
                                let (sc, j4, e4) = spec_consume(
                                    toks,
                                    j3,
                                    TokenType::Semicolon,
                                    "Expect ';' after loop condition."@,
                                );
                                if sc is Err || !(0 <= j4 < toks.len()) {
                                    PStmt { r: Err(()), i: j4, errs: e1 + e2 + e3 + e4 }
                                } else {
                                    let (inc, j5, e5) = if toks[j4].kind != TokenType::RightParen
                                        && toks[j4].kind != TokenType::EOF {
                                        let ie = spec_expression(toks, j4);
                                        match ie.r {
                                            Err(u) => (Err(()), ie.i, ie.errs),
                                            Ok(g) => (Ok(Some(g)), ie.i, ie.errs),
                                        }
                                    } else {
                                        (Ok(None), j4, Seq::<Seq<char>>::empty())
                                    };
                                    match inc {
                                        Err(u) => PStmt {
                                            r: Err(()),
                                            i: j5,
                                            errs: e1 + e2 + e3 + e4 + e5,
                                        },
                                        Ok(ginc) => {
                                            if !(0 <= j5 < toks.len()) {
                                                PStmt {
                                                    r: Err(()),
                                                    i: j5,
                                                    errs: e1 + e2 + e3 + e4 + e5,
                                                }
                                            } else {
                                                let (rp, j6, e6) = spec_consume(
                                                    toks,
                                                    j5,
                                                    TokenType::RightParen,
                                                    "Expect ')' after for clauses."@,
                                                );
                                                if rp is Err || !(i < j6 < toks.len()) {
                                                    PStmt {
                                                        r: Err(()),
                                                        i: j6,
                                                        errs: e1 + e2 + e3 + e4 + e5 + e6,
                                                    }
                                                } else {
                                                    let body = spec_statement(toks, j6);
                                                    match body.r {
                                                        Err(u) => PStmt {
                                                            r: Err(()),
                                                            i: body.i,
                                                            errs: e1 + e2 + e3 + e4 + e5 + e6
                                                                + body.errs,
                                                        },
                                                        Ok(gb) => PStmt {
                                                            r: Ok(
                                                                desugar_for(
                                                                    ginit,
                                                                    gcond,
                                                                    ginc,
                                                                    gb,
                                                                ),
                                                            ),
                                                            i: body.i,
                                                            errs: e1 + e2 + e3 + e4 + e5 + e6
                                                                + body.errs,
                                                        },
                                                    }
                                                }
                                            }
                                        },
                                    }
                                }
                            }
                        },
                    }
                }
            },
        }
    }
}

/// The parse-time rewrite of a for statement: the increment joins the body
/// in a block, an absent condition becomes `true`, and the initializer
/// wraps the loop in a block.
pub open spec fn desugar_for(
    init: Option<GStmt>,
    cond: Option<GExpr>,
    inc: Option<GExpr>,
    body: GStmt,
) -> GStmt {
    let body2 = match inc {
        Some(g) => GStmt::Block(seq![body, GStmt::Expression(Box::new(g))]),
        None => body,
    };
    let cond2 = match cond {
        Some(g) => g,
        None => GExpr::Literal(Some(GVal::Bool(true))),
    };
    let w = GStmt::While(Box::new(cond2), Box::new(body2));
    match init {
        Some(g) => GStmt::Block(seq![g, w]),
        None => w,
    }
}

/// statement: dispatch on the leading token.
#[verifier::opaque]
pub open spec fn spec_statement(toks: Seq<GToken>, i: int) -> PStmt
    decreases toks.len() - i, 36int,
        when toks_wf(toks) && 0 <= i < toks.len()
{
    let k = toks[i].kind;
    if k == TokenType::If && i + 1 < toks.len() {
        spec_if_statement(toks, i + 1)
    } else if k == TokenType::Print && i + 1 < toks.len() {
        spec_print_statement(toks, i + 1)
    } else if k == TokenType::LeftBrace && i + 1 < toks.len() {
        let b = spec_block(toks, i + 1);
        match b.r {
            Err(u) => PStmt { r: Err(()), i: b.i, errs: b.errs },
            Ok(gs) => PStmt { r: Ok(GStmt::Block(gs)), i: b.i, errs: b.errs },
        }
    } else if k == TokenType::While && i + 1 < toks.len() {
        spec_while_statement(toks, i + 1)
    } else if k == TokenType::For && i + 1 < toks.len() {
        spec_for_statement(toks, i + 1)
    } else if k == TokenType::Return && i + 1 < toks.len() {
        spec_return_statement(toks[i], toks, i + 1)
    } else {
        spec_expression_statement(toks, i)
    }
}

/// declaration: a function or variable declaration, or a statement.
#[verifier::opaque]
pub open spec fn spec_declaration(toks: Seq<GToken>, i: int) -> PStmt
    decreases toks.len() - i, 37int,
        when toks_wf(toks) && 0 <= i < toks.len()
{
    let k = toks[i].kind;
    if k == TokenType::Fun && i + 1 < toks.len() {
        spec_function(toks, i + 1)
    } else if k == TokenType::Var && i + 1 < toks.len() {
        spec_var_declaration(toks, i + 1)
    } else {
        spec_statement(toks, i)
    }
}

/// Whether a token kind can begin a declaration, as panic-mode recovery
/// looks for.
pub open spec fn is_sync_start(k: TokenType) -> bool {
    k == TokenType::Class || k == TokenType::Fun || k == TokenType::Var || k == TokenType::For || k
        == TokenType::If || k == TokenType::While || k == TokenType::Print || k
        == TokenType::Return
}

/// The walk of panic-mode recovery after the first token is discarded:
/// stop after a `;`, before a declaration keyword, or at the end.
#[verifier::opaque]
pub open spec fn spec_sync_loop(toks: Seq<GToken>, i: int) -> int
    decreases toks.len() - i, 39int,
        when toks_wf(toks) && 1 <= i < toks.len()
{
    if toks[i].kind == TokenType::EOF {
        i
    } else if toks[i - 1].kind == TokenType::Semicolon {
        i
    } else if is_sync_start(toks[i].kind) {
        i
    } else {
        spec_sync_loop(toks, i + 1)
    }
}

/// Panic-mode recovery: discard the offending token, then realign.
#[verifier::opaque]
pub open spec fn spec_synchronize(toks: Seq<GToken>, i: int) -> int
    decreases toks.len() - i, 40int,
        when toks_wf(toks) && 0 <= i < toks.len()
{
    if toks[i].kind == TokenType::EOF {
        i
    } else {
        spec_sync_loop(toks, i + 1)
    }
}

/// Recovery never rewinds, and never leaves the token list.
pub proof fn lemma_sync_bounds(toks: Seq<GToken>, i: int)
    requires
        toks_wf(toks),
        0 <= i < toks.len(),
    ensures
        i <= spec_synchronize(toks, i) < toks.len(),
    decreases toks.len() - i,
{
    reveal(spec_synchronize);
    if toks[i].kind != TokenType::EOF {
        lemma_sync_loop_bounds(toks, i + 1);
    }
}

/// The recovery walk stays inside the token list.
pub proof fn lemma_sync_loop_bounds(toks: Seq<GToken>, i: int)
    requires
        toks_wf(toks),
        1 <= i < toks.len(),
    ensures
        i <= spec_sync_loop(toks, i) < toks.len(),
    decreases toks.len() - i,
{
    reveal(spec_sync_loop);
    if toks[i].kind == TokenType::EOF {
    } else if toks[i - 1].kind == TokenType::Semicolon {
    } else if is_sync_start(toks[i].kind) {
    } else {
        assert(i + 1 < toks.len()) by {
            assert(toks[toks.len() - 1].kind == TokenType::EOF);
        }
        lemma_sync_loop_bounds(toks, i + 1);
    }
}

/// The parser's cursor state: the token list, the position, and the
/// diagnostics emitted so far.
pub struct Parser {
    pub tokens: Vec<Token>,
    pub current: usize,
    pub errors: Vec<String>,
}

/// A parser state the productions accept: a well-formed token list with
/// the position inside it.
pub open spec fn parser_ok(p: Parser) -> bool {
    &&& toks_wf(tokens_model(p.tokens@))
    &&& p.current < p.tokens@.len()
}

impl Parser {
    /// A parser at the start of `tokens`, which must end in an EOF token.
    pub fn new(tokens: Vec<Token>) -> (r: Parser)
        ensures
            r.tokens == tokens,
            r.current == 0,
            r.errors@.len() == 0,
    {
        Parser { tokens, current: 0, errors: Vec::new() }
    }

    /// The model of the token list.
    pub open spec fn toks(&self) -> Seq<GToken> {
        tokens_model(self.tokens@)
    }

    /// Whether the position is at the EOF token.
    fn is_at_end(&self) -> (r: bool)
        requires
            parser_ok(*self),
        ensures
            r == (self.toks()[self.current as int].kind == TokenType::EOF),
    {
        proof {
            crate::model::lemma_tokens_model_len(self.tokens@);
            crate::model::lemma_tokens_model_index(self.tokens@, self.current as int);
        }
        self.tokens[self.current].token_type == TokenType::EOF
    }

    /// Whether the token at the position has kind `k` (never true at EOF).
    fn check(&self, k: TokenType) -> (r: bool)
        requires
            parser_ok(*self),
        ensures
            r == (self.toks()[self.current as int].kind == k && self.toks()[self.current as int].kind
                != TokenType::EOF),
    {
        proof {
            crate::model::lemma_tokens_model_len(self.tokens@);
            crate::model::lemma_tokens_model_index(self.tokens@, self.current as int);
        }
        if self.is_at_end() {
            return false;
        }
        self.tokens[self.current].token_type == k
    }

    /// Consume the token at the position, which must not be the EOF token.
    fn advance(&mut self) -> (t: Token)
        requires
            parser_ok(*old(self)),
            old(self).toks()[old(self).current as int].kind != TokenType::EOF,
        ensures
            token_model(t) == old(self).toks()[old(self).current as int],
            final(self).current == old(self).current + 1,
            final(self).current < final(self).tokens@.len(),
            final(self).tokens == old(self).tokens,
            final(self).errors == old(self).errors,
            parser_ok(*final(self)),
    {
        proof {
            crate::model::lemma_tokens_model_len(self.tokens@);
            crate::model::lemma_tokens_model_index(self.tokens@, self.current as int);
            if self.current as int == self.tokens@.len() - 1 {
                assert(self.toks()[self.current as int].kind == TokenType::EOF);
            }
        }
        let n = self.tokens.len();
        let n = self.tokens.len();
        let t = self.tokens[self.current].duplicate();
        self.current = self.current + 1;
        t
    }

    /// Consume the token at the position if it has kind `k`.
    fn match_single(&mut self, k: TokenType) -> (r: bool)
        requires
            parser_ok(*old(self)),
        ensures
            r == (old(self).toks()[old(self).current as int].kind == k && old(self).toks()[old(
                self,
            ).current as int].kind != TokenType::EOF),
            r ==> final(self).current == old(self).current + 1,
            !r ==> final(self).current == old(self).current,
            final(self).tokens == old(self).tokens,
            final(self).errors == old(self).errors,
            parser_ok(*final(self)),
    {
        if self.check(k) {
            self.advance();
            true
        } else {
            false
        }
    }

    /// Report a diagnostic at the token at the position and make the unit
    /// failure the production throws.
    fn error(&mut self, message: &str) -> (r: ParseError)
        requires
            parser_ok(*old(self)),
        ensures
            strings_model(final(self).errors@) == strings_model(old(self).errors@).push(
                spec_perror(old(self).toks()[old(self).current as int], message@),
            ),
            final(self).tokens == old(self).tokens,
            final(self).current == old(self).current,
            parser_ok(*final(self)),
    {
        proof {
            crate::model::lemma_tokens_model_len(self.tokens@);
            crate::model::lemma_tokens_model_index(self.tokens@, self.current as int);
        }
        let d = error_token(&self.tokens[self.current], message.to_owned());
        let ghost gd = d;
        let ghost oes = self.errors@;
        self.errors.push(d);
        proof {
            crate::model::lemma_strings_model_push(oes, gd);
        }
        ParseError {  }
    }

    /// Expect a token of kind `k` at the position: consume and return it,
    /// or report `message` at the token found.
    fn consume(&mut self, k: TokenType, message: &str) -> (r: Result<Token, ParseError>)
        requires
            parser_ok(*old(self)),
        ensures
            ({
                let (c, j, ce) = spec_consume(
                    old(self).toks(),
                    old(self).current as int,
                    k,
                    message@,
                );
                &&& (match (r, c) {
                    (Ok(t), Ok(g)) => token_model(t) == g,
                    (Err(x), Err(y)) => true,
                    _ => false,
                })
                &&& final(self).current as int == j
                &&& strings_model(final(self).errors@) == strings_model(old(self).errors@) + ce
            }),
            final(self).tokens == old(self).tokens,
            parser_ok(*final(self)),
            old(self).current <= final(self).current,
    {
        if self.check(k) {
            let t = self.advance();
            proof {
                assert(strings_model(self.errors@) =~= strings_model(old(self).errors@)
                    + Seq::<Seq<char>>::empty());
            }
            Ok(t)
        } else {
            let e = self.error(message);
            proof {
                let (c, j, ce) = spec_consume(
                    old(self).toks(),
                    old(self).current as int,
                    k,
                    message@,
                );
                assert(strings_model(self.errors@) =~= strings_model(old(self).errors@) + ce);
            }
            Err(e)
        }
    }

    /// primary: literals, grouping, and variable reads.
    #[verifier::rlimit(100)]
    #[verifier::spinoff_prover]
    fn primary(&mut self) -> (r: Result<Expr, ParseError>)
        requires
            parser_ok(*old(self)),
        ensures
            ({
                let o = spec_primary(old(self).toks(), old(self).current as int);
                &&& (match (r, o.r) {
                    (Ok(e), Ok(g)) => expr_model(e) == g,
                    (Err(x), Err(y)) => true,
                    _ => false,
                })
                &&& final(self).current as int == o.i
                &&& strings_model(final(self).errors@) == strings_model(old(self).errors@) + o.errs
            }),
            final(self).tokens == old(self).tokens,
            parser_ok(*final(self)),
            old(self).current <= final(self).current,
            r is Ok ==> old(self).current < final(self).current,
        decreases old(self).tokens@.len() - old(self).current, 3int,
    {
        proof {
            crate::model::lemma_tokens_model_len(self.tokens@);
            reveal(spec_primary);
        }
        proof {
            crate::model::lemma_tokens_model_len(self.tokens@);
            crate::model::lemma_tokens_model_index(self.tokens@, self.current as int);
        }
        let ghost noerrs: Seq<Seq<char>> = Seq::empty();
        if self.match_single(TokenType::True) {
            let e = literal_bool(true);
            proof {
                assert(strings_model(self.errors@) =~= strings_model(old(self).errors@) + noerrs);
            }
            return Ok(e);
        }
        if self.match_single(TokenType::False) {
            let e = literal_bool(false);
            proof {
                assert(strings_model(self.errors@) =~= strings_model(old(self).errors@) + noerrs);
            }
            return Ok(e);
        }
        if self.match_single(TokenType::Nil) {
            let e = Expr::Literal(Literal { value: None });
            proof {
                assert(strings_model(self.errors@) =~= strings_model(old(self).errors@) + noerrs);
                assert(value_model(None::<LiteralType>) == None::<GVal>);
                assert(expr_model(e) == GExpr::Literal(value_model(None::<LiteralType>)));
            }
            return Ok(e);
        }
        if self.check(TokenType::Number) || self.check(TokenType::String) {
            let t = self.advance();
            let e = Expr::Literal(Literal { value: t.literal });
            proof {
                assert(strings_model(self.errors@) =~= strings_model(old(self).errors@) + noerrs);
                assert(expr_model(e) == GExpr::Literal(value_model(e->Literal_0.value)));
            }
            return Ok(e);
        }
        if self.match_single(TokenType::LeftParen) {
            let e = match self.expression() {
                Ok(e) => e,
                Err(x) => {
                    proof {
                        let o = spec_primary(old(self).toks(), old(self).current as int);
                        assert(strings_model(self.errors@) =~= strings_model(old(self).errors@)
                            + o.errs);
                    }
                    return Err(x);
                },
            };
            match self.consume(TokenType::RightParen, "Expect ')' after expression.") {
                Ok(t) => {
                    proof {
                        let o = spec_primary(old(self).toks(), old(self).current as int);
                        assert(strings_model(self.errors@) =~= strings_model(old(self).errors@)
                            + o.errs);
                    }
                    return Ok(Expr::Grouping(Grouping { expression: Box::new(e) }));
                },
                Err(x) => {
                    proof {
                        let o = spec_primary(old(self).toks(), old(self).current as int);
                        assert(strings_model(self.errors@) =~= strings_model(old(self).errors@)
                            + o.errs);
                    }
                    return Err(x);
                },
            }
        }
        if self.check(TokenType::Identifier) {
            let t = self.advance();
            proof {
                assert(strings_model(self.errors@) =~= strings_model(old(self).errors@) + noerrs);
            }
            return Ok(Expr::Variable(Variable { name: t }));
        }
        let x = self.error("Expect expression.");
        proof {
            let o = spec_primary(old(self).toks(), old(self).current as int);
            assert(strings_model(self.errors@) =~= strings_model(old(self).errors@) + o.errs);
        }
        Err(x)
    }

    /// The arguments of a call, after the opening parenthesis.
    #[verifier::rlimit(100)]
    #[verifier::spinoff_prover]
    fn arguments(&mut self, count: usize) -> (r: Result<Vec<Expr>, ParseError>)
        requires
            parser_ok(*old(self)),
            count <= 256,
        ensures
            ({
                let o = spec_args(old(self).toks(), old(self).current as int, count as int);
                &&& (match (r, o.r) {
                    (Ok(es), Ok(gs)) => exprs_model(es@) == gs,
                    (Err(x), Err(y)) => true,
                    _ => false,
                })
                &&& final(self).current as int == o.i
                &&& strings_model(final(self).errors@) == strings_model(old(self).errors@) + o.errs
            }),
            final(self).tokens == old(self).tokens,
            parser_ok(*final(self)),
            old(self).current <= final(self).current,
            r is Ok ==> old(self).current < final(self).current,
        decreases old(self).tokens@.len() - old(self).current, 52int,
    {
        proof {
            crate::model::lemma_tokens_model_len(self.tokens@);
            reveal(spec_args);
        }
        if count >= 255 {
            self.error("Can't have more than 255 arguments.");
        }
        let e = match self.expression() {
            Ok(e) => e,
            Err(x) => {
                proof {
                    let o = spec_args(old(self).toks(), old(self).current as int, count as int);
                    assert(strings_model(self.errors@) =~= strings_model(old(self).errors@)
                        + o.errs);
                }
                return Err(x);
            },
        };
        if self.check(TokenType::Comma) {
            proof {
                crate::model::lemma_tokens_model_len(self.tokens@);
                lemma_not_eof_bound(old(self).toks(), self.current as int);
            }
            self.advance();
            let next_count = if count < 256 {
                count + 1
            } else {
                count
            };
            let mut rest = match self.arguments(next_count) {
                Ok(es) => es,
                Err(x) => {
                    proof {
                        let o = spec_args(old(self).toks(), old(self).current as int, count as int);
                        assert(strings_model(self.errors@) =~= strings_model(old(self).errors@)
                            + o.errs);
                    }
                    return Err(x);
                },
            };
            let ghost grest = rest@;
            rest.insert(0, e);
            proof {
                crate::model::lemma_exprs_model_prepend(grest, rest@[0]);
                assert(rest@ == grest.insert(0, rest@[0]));
                let o = spec_args(old(self).toks(), old(self).current as int, count as int);
                assert(strings_model(self.errors@) =~= strings_model(old(self).errors@) + o.errs);
            }
            Ok(rest)
        } else {
            let mut out: Vec<Expr> = Vec::new();
            out.push(e);
            proof {
                assert(exprs_model(Seq::<Expr>::empty()) =~= Seq::<GExpr>::empty());
                assert(exprs_model(out@) =~= seq![expr_model(out@[0])]) by {
                    assert(out@.drop_last() =~= Seq::<Expr>::empty());
                    assert(exprs_model(out@.drop_last()) =~= Seq::<GExpr>::empty());
                }
                let o = spec_args(old(self).toks(), old(self).current as int, count as int);
                assert(strings_model(self.errors@) =~= strings_model(old(self).errors@) + o.errs);
            }
            Ok(out)
        }
    }

    /// The rest of a call expression after the opening parenthesis.
    #[verifier::rlimit(100)]
    #[verifier::spinoff_prover]
    fn finish_call(&mut self, callee: Expr) -> (r: Result<Expr, ParseError>)
        requires
            parser_ok(*old(self)),
        ensures
            ({
                let o = spec_finish_call(
                    expr_model(callee),
                    old(self).toks(),
                    old(self).current as int,
                );
                &&& (match (r, o.r) {
                    (Ok(e), Ok(g)) => expr_model(e) == g,
                    (Err(x), Err(y)) => true,
                    _ => false,
                })
                &&& final(self).current as int == o.i
                &&& strings_model(final(self).errors@) == strings_model(old(self).errors@) + o.errs
            }),
            final(self).tokens == old(self).tokens,
            parser_ok(*final(self)),
            old(self).current <= final(self).current,
            r is Ok ==> old(self).current < final(self).current,
        decreases old(self).tokens@.len() - old(self).current, 53int,
    {
        proof {
            crate::model::lemma_tokens_model_len(self.tokens@);
            reveal(spec_finish_call);
        }
        let ghost noerrs: Seq<Seq<char>> = Seq::empty();
        if self.check(TokenType::RightParen) {
            let paren = self.advance();
            proof {
                assert(strings_model(self.errors@) =~= strings_model(old(self).errors@) + noerrs);
                assert(exprs_model(Seq::<Expr>::empty()) =~= Seq::<GExpr>::empty());
            }
            return Ok(
                Expr::Call(Call { callee: Box::new(callee), paren, arguments: Vec::new() }),
            );
        }
        let args = match self.arguments(0) {
            Ok(es) => es,
            Err(x) => {
                proof {
                    let o = spec_finish_call(
                        expr_model(callee),
                        old(self).toks(),
                        old(self).current as int,
                    );
                    assert(strings_model(self.errors@) =~= strings_model(old(self).errors@)
                        + o.errs);
                }
                return Err(x);
            },
        };
        match self.consume(TokenType::RightParen, "Expect ')' after arguments.") {
            Ok(paren) => {
                proof {
                    let o = spec_finish_call(
                        expr_model(callee),
                        old(self).toks(),
                        old(self).current as int,
                    );
                    assert(strings_model(self.errors@) =~= strings_model(old(self).errors@)
                        + o.errs);
                }
                Ok(Expr::Call(Call { callee: Box::new(callee), paren, arguments: args }))
            },
            Err(x) => {
                proof {
                    let o = spec_finish_call(
                        expr_model(callee),
                        old(self).toks(),
                        old(self).current as int,
                    );
                    assert(strings_model(self.errors@) =~= strings_model(old(self).errors@)
                        + o.errs);
                }
                Err(x)
            },
        }
    }

    /// The call suffixes after a primary expression.
    #[verifier::rlimit(100)]
    #[verifier::spinoff_prover]
    fn call_rest(&mut self, callee: Expr) -> (r: Result<Expr, ParseError>)
        requires
            parser_ok(*old(self)),
        ensures
            ({
                let o = spec_call_rest(
                    expr_model(callee),
                    old(self).toks(),
                    old(self).current as int,
                );
                &&& (match (r, o.r) {
                    (Ok(e), Ok(g)) => expr_model(e) == g,
                    (Err(x), Err(y)) => true,
                    _ => false,
                })
                &&& final(self).current as int == o.i
                &&& strings_model(final(self).errors@) == strings_model(old(self).errors@) + o.errs
            }),
            final(self).tokens == old(self).tokens,
            parser_ok(*final(self)),
            old(self).current <= final(self).current,
        decreases old(self).tokens@.len() - old(self).current, 35int,
    {
        proof {
            crate::model::lemma_tokens_model_len(self.tokens@);
            reveal(spec_call_rest);
        }
        let ghost noerrs: Seq<Seq<char>> = Seq::empty();
        if self.check(TokenType::LeftParen) {
            proof {
                crate::model::lemma_tokens_model_len(self.tokens@);
                lemma_not_eof_bound(old(self).toks(), self.current as int);
            }
            self.advance();
            let e = match self.finish_call(callee) {
                Ok(e) => e,
                Err(x) => {
                    proof {
                        assert(strings_model(self.errors@) =~= strings_model(old(self).errors@)
                            + spec_call_rest(
                            expr_model(callee),
                            old(self).toks(),
                            old(self).current as int,
                        ).errs);
                    }
                    return Err(x);
                },
            };
            let r = self.call_rest(e);
            proof {
                let o = spec_call_rest(
                    expr_model(callee),
                    old(self).toks(),
                    old(self).current as int,
                );
                assert(strings_model(self.errors@) =~= strings_model(old(self).errors@) + o.errs);
            }
            r
        } else {
            proof {
                assert(strings_model(self.errors@) =~= strings_model(old(self).errors@) + noerrs);
            }
            Ok(callee)
        }
    }

    /// call: a primary expression with call suffixes.
    #[verifier::rlimit(100)]
    #[verifier::spinoff_prover]
    fn call(&mut self) -> (r: Result<Expr, ParseError>)
        requires
            parser_ok(*old(self)),
        ensures
            ({
                let o = spec_call(old(self).toks(), old(self).current as int);
                &&& (match (r, o.r) {
                    (Ok(e), Ok(g)) => expr_model(e) == g,
                    (Err(x), Err(y)) => true,
                    _ => false,
                })
                &&& final(self).current as int == o.i
                &&& strings_model(final(self).errors@) == strings_model(old(self).errors@) + o.errs
            }),
            final(self).tokens == old(self).tokens,
            parser_ok(*final(self)),
            old(self).current <= final(self).current,
            r is Ok ==> old(self).current < final(self).current,
        decreases old(self).tokens@.len() - old(self).current, 36int,
    {
        proof {
            crate::model::lemma_tokens_model_len(self.tokens@);
            reveal(spec_call);
        }
        let p = match self.primary() {
            Ok(e) => e,
            Err(x) => {
                return Err(x);
            },
        };
        let r = self.call_rest(p);
        proof {
            let o = spec_call(old(self).toks(), old(self).current as int);
            assert(strings_model(self.errors@) =~= strings_model(old(self).errors@) + o.errs);
        }
        r
    }

    /// unary: `!` and `-` applied recursively, else a call.
    #[verifier::rlimit(100)]
    #[verifier::spinoff_prover]
    fn unary(&mut self) -> (r: Result<Expr, ParseError>)
        requires
            parser_ok(*old(self)),
        ensures
            ({
                let o = spec_unary(old(self).toks(), old(self).current as int);
                &&& (match (r, o.r) {
                    (Ok(e), Ok(g)) => expr_model(e) == g,
                    (Err(x), Err(y)) => true,
                    _ => false,
                })
                &&& final(self).current as int == o.i
                &&& strings_model(final(self).errors@) == strings_model(old(self).errors@) + o.errs
            }),
            final(self).tokens == old(self).tokens,
            parser_ok(*final(self)),
            old(self).current <= final(self).current,
            r is Ok ==> old(self).current < final(self).current,
        decreases old(self).tokens@.len() - old(self).current, 37int,
    {
        proof {
            crate::model::lemma_tokens_model_len(self.tokens@);
            reveal(spec_unary);
        }
        if self.check(TokenType::Bang) || self.check(TokenType::Minus) {
            proof {
                crate::model::lemma_tokens_model_len(self.tokens@);
                lemma_not_eof_bound(old(self).toks(), self.current as int);
            }
            let operator = self.advance();
            let right = match self.unary() {
                Ok(e) => e,
                Err(x) => {
                    return Err(x);
                },
            };
            Ok(Expr::Unary(Unary { operator, right: Box::new(right) }))
        } else {
            self.call()
        }
    }

    /// The rest of a chain, folded to the left.
    #[verifier::rlimit(100)]
    #[verifier::spinoff_prover]
    fn factor_rest(&mut self, left: Expr) -> (r: Result<Expr, ParseError>)
        requires
            parser_ok(*old(self)),
        ensures
            ({
                let o = spec_factor_rest(expr_model(left), old(self).toks(), old(self).current as int);
                &&& (match (r, o.r) {
                    (Ok(e), Ok(g)) => expr_model(e) == g,
                    (Err(x), Err(y)) => true,
                    _ => false,
                })
                &&& final(self).current as int == o.i
                &&& strings_model(final(self).errors@) == strings_model(old(self).errors@) + o.errs
            }),
            final(self).tokens == old(self).tokens,
            parser_ok(*final(self)),
            old(self).current <= final(self).current,
        decreases old(self).tokens@.len() - old(self).current, 38int,
    {
        proof {
            crate::model::lemma_tokens_model_len(self.tokens@);
            reveal(spec_factor_rest);
        }
        let ghost noerrs: Seq<Seq<char>> = Seq::empty();
        if self.check(TokenType::Slash) || self.check(TokenType::Star) {
            proof {
                crate::model::lemma_tokens_model_len(self.tokens@);
                lemma_not_eof_bound(old(self).toks(), self.current as int);
            }
            let operator = self.advance();
            let right = match self.unary() {
                Ok(e) => e,
                Err(x) => {
                    return Err(x);
                },
            };
            let b = Expr::Binary(Binary {
                left: Box::new(left),
                operator,
                right: Box::new(right),
            });
            let r = self.factor_rest(b);
            proof {
                let t0 = old(self).toks();
                let i0 = old(self).current as int;
                let o = spec_factor_rest(expr_model(left), t0, i0);
                let sub = spec_unary(t0, i0 + 1);
                match sub.r {
                    Ok(g) => {
                        let rest = spec_factor_rest(
                            GExpr::Binary(Box::new(expr_model(left)), t0[i0], Box::new(g)),
                            t0,
                            sub.i,
                        );
                        lemma_diag_concat_assoc(
                            strings_model(old(self).errors@),
                            sub.errs,
                            rest.errs,
                        );
                    },
                    _ => {},
                }
                assert(strings_model(self.errors@) == strings_model(old(self).errors@) + o.errs);
            }
            r
        } else {
            proof {
                assert(strings_model(self.errors@) =~= strings_model(old(self).errors@) + noerrs);
            }
            Ok(left)
        }
    }

    /// The chain itself.
    #[verifier::rlimit(100)]
    #[verifier::spinoff_prover]
    fn factor(&mut self) -> (r: Result<Expr, ParseError>)
        requires
            parser_ok(*old(self)),
        ensures
            ({
                let o = spec_factor(old(self).toks(), old(self).current as int);
                &&& (match (r, o.r) {
                    (Ok(e), Ok(g)) => expr_model(e) == g,
                    (Err(x), Err(y)) => true,
                    _ => false,
                })
                &&& final(self).current as int == o.i
                &&& strings_model(final(self).errors@) == strings_model(old(self).errors@) + o.errs
            }),
            final(self).tokens == old(self).tokens,
            parser_ok(*final(self)),
            old(self).current <= final(self).current,
            r is Ok ==> old(self).current < final(self).current,
        decreases old(self).tokens@.len() - old(self).current, 39int,
    {
        proof {
            crate::model::lemma_tokens_model_len(self.tokens@);
            reveal(spec_factor);
        }
        let p = match self.unary() {
            Ok(e) => e,
            Err(x) => {
                return Err(x);
            },
        };
        let r = self.factor_rest(p);
        proof {
            let t0 = old(self).toks();
            let i0 = old(self).current as int;
            let o = spec_factor(t0, i0);
            let sub = spec_unary(t0, i0);
            match sub.r {
                Ok(g) => {
                    let rest = spec_factor_rest(g, t0, sub.i);
                    lemma_diag_concat_assoc(
                        strings_model(old(self).errors@),
                        sub.errs,
                        rest.errs,
                    );
                },
                _ => {},
            }
            assert(strings_model(self.errors@) == strings_model(old(self).errors@) + o.errs);
        }
        r
    }

    /// The rest of a chain, folded to the left.
    #[verifier::rlimit(100)]
    #[verifier::spinoff_prover]
    fn term_rest(&mut self, left: Expr) -> (r: Result<Expr, ParseError>)
        requires
            parser_ok(*old(self)),
        ensures
            ({
                let o = spec_term_rest(expr_model(left), old(self).toks(), old(self).current as int);
                &&& (match (r, o.r) {
                    (Ok(e), Ok(g)) => expr_model(e) == g,
                    (Err(x), Err(y)) => true,
                    _ => false,
                })
                &&& final(self).current as int == o.i
                &&& strings_model(final(self).errors@) == strings_model(old(self).errors@) + o.errs
            }),
            final(self).tokens == old(self).tokens,
            parser_ok(*final(self)),
            old(self).current <= final(self).current,
        decreases old(self).tokens@.len() - old(self).current, 40int,
    {
        proof {
            crate::model::lemma_tokens_model_len(self.tokens@);
            reveal(spec_term_rest);
        }
        let ghost noerrs: Seq<Seq<char>> = Seq::empty();
        if self.check(TokenType::Minus) || self.check(TokenType::Plus) {
            proof {
                crate::model::lemma_tokens_model_len(self.tokens@);
                lemma_not_eof_bound(old(self).toks(), self.current as int);
            }
            let operator = self.advance();
            let right = match self.factor() {
                Ok(e) => e,
                Err(x) => {
                    return Err(x);
                },
            };
            let b = Expr::Binary(Binary {
                left: Box::new(left),
                operator,
                right: Box::new(right),
            });
            let r = self.term_rest(b);
            proof {
                let t0 = old(self).toks();
                let i0 = old(self).current as int;
                let o = spec_term_rest(expr_model(left), t0, i0);
                let sub = spec_factor(t0, i0 + 1);
                match sub.r {
                    Ok(g) => {
                        let rest = spec_term_rest(
                            GExpr::Binary(Box::new(expr_model(left)), t0[i0], Box::new(g)),
                            t0,
                            sub.i,
                        );
                        lemma_diag_concat_assoc(
                            strings_model(old(self).errors@),
                            sub.errs,
                            rest.errs,
                        );
                    },
                    _ => {},
                }
                assert(strings_model(self.errors@) == strings_model(old(self).errors@) + o.errs);
            }
            r
        } else {
            proof {
                assert(strings_model(self.errors@) =~= strings_model(old(self).errors@) + noerrs);
            }
            Ok(left)
        }
    }

    /// The chain itself.
    #[verifier::rlimit(100)]
    #[verifier::spinoff_prover]
    fn term(&mut self) -> (r: Result<Expr, ParseError>)
        requires
            parser_ok(*old(self)),
        ensures
            ({
                let o = spec_term(old(self).toks(), old(self).current as int);
                &&& (match (r, o.r) {
                    (Ok(e), Ok(g)) => expr_model(e) == g,
                    (Err(x), Err(y)) => true,
                    _ => false,
                })
                &&& final(self).current as int == o.i
                &&& strings_model(final(self).errors@) == strings_model(old(self).errors@) + o.errs
            }),
            final(self).tokens == old(self).tokens,
            parser_ok(*final(self)),
            old(self).current <= final(self).current,
            r is Ok ==> old(self).current < final(self).current,
        decreases old(self).tokens@.len() - old(self).current, 41int,
    {
        proof {
            crate::model::lemma_tokens_model_len(self.tokens@);
            reveal(spec_term);
        }
        let p = match self.factor() {
            Ok(e) => e,
            Err(x) => {
                return Err(x);
            },
        };
        let r = self.term_rest(p);
        proof {
            let t0 = old(self).toks();
            let i0 = old(self).current as int;
            let o = spec_term(t0, i0);
            let sub = spec_factor(t0, i0);
            match sub.r {
                Ok(g) => {
                    let rest = spec_term_rest(g, t0, sub.i);
                    lemma_diag_concat_assoc(
                        strings_model(old(self).errors@),
                        sub.errs,
                        rest.errs,
                    );
                },
                _ => {},
            }
            assert(strings_model(self.errors@) == strings_model(old(self).errors@) + o.errs);
        }
        r
    }

    /// The rest of a chain, folded to the left.
    #[verifier::rlimit(100)]
    #[verifier::spinoff_prover]
    fn comparison_rest(&mut self, left: Expr) -> (r: Result<Expr, ParseError>)
        requires
            parser_ok(*old(self)),
        ensures
            ({
                let o = spec_comparison_rest(expr_model(left), old(self).toks(), old(self).current as int);
                &&& (match (r, o.r) {
                    (Ok(e), Ok(g)) => expr_model(e) == g,
                    (Err(x), Err(y)) => true,
                    _ => false,
                })
                &&& final(self).current as int == o.i
                &&& strings_model(final(self).errors@) == strings_model(old(self).errors@) + o.errs
            }),
            final(self).tokens == old(self).tokens,
            parser_ok(*final(self)),
            old(self).current <= final(self).current,
        decreases old(self).tokens@.len() - old(self).current, 42int,
    {
        proof {
            crate::model::lemma_tokens_model_len(self.tokens@);
            reveal(spec_comparison_rest);
        }
        let ghost noerrs: Seq<Seq<char>> = Seq::empty();
        if self.check(TokenType::Greater) || self.check(TokenType::GreaterEqual) || self.check(TokenType::Less) || self.check(TokenType::LessEqual) {
            proof {
                crate::model::lemma_tokens_model_len(self.tokens@);
                lemma_not_eof_bound(old(self).toks(), self.current as int);
            }
            let operator = self.advance();
            let right = match self.term() {
                Ok(e) => e,
                Err(x) => {
                    return Err(x);
                },
            };
            let b = Expr::Binary(Binary {
                left: Box::new(left),
                operator,
                right: Box::new(right),
            });
            let r = self.comparison_rest(b);
            proof {
                let t0 = old(self).toks();
                let i0 = old(self).current as int;
                let o = spec_comparison_rest(expr_model(left), t0, i0);
                let sub = spec_term(t0, i0 + 1);
                match sub.r {
                    Ok(g) => {
                        let rest = spec_comparison_rest(
                            GExpr::Binary(Box::new(expr_model(left)), t0[i0], Box::new(g)),
                            t0,
                            sub.i,
                        );
                        lemma_diag_concat_assoc(
                            strings_model(old(self).errors@),
                            sub.errs,
                            rest.errs,
                        );
                    },
                    _ => {},
                }
                assert(strings_model(self.errors@) == strings_model(old(self).errors@) + o.errs);
            }
            r
        } else {
            proof {
                assert(strings_model(self.errors@) =~= strings_model(old(self).errors@) + noerrs);
            }
            Ok(left)
        }
    }

    /// The chain itself.
    #[verifier::rlimit(100)]
    #[verifier::spinoff_prover]
    fn comparison(&mut self) -> (r: Result<Expr, ParseError>)
        requires
            parser_ok(*old(self)),
        ensures
            ({
                let o = spec_comparison(old(self).toks(), old(self).current as int);
                &&& (match (r, o.r) {
                    (Ok(e), Ok(g)) => expr_model(e) == g,
                    (Err(x), Err(y)) => true,
                    _ => false,
                })
                &&& final(self).current as int == o.i
                &&& strings_model(final(self).errors@) == strings_model(old(self).errors@) + o.errs
            }),
            final(self).tokens == old(self).tokens,
            parser_ok(*final(self)),
            old(self).current <= final(self).current,
            r is Ok ==> old(self).current < final(self).current,
        decreases old(self).tokens@.len() - old(self).current, 43int,
    {
        proof {
            crate::model::lemma_tokens_model_len(self.tokens@);
            reveal(spec_comparison);
        }
        let p = match self.term() {
            Ok(e) => e,
            Err(x) => {
                return Err(x);
            },
        };
        let r = self.comparison_rest(p);
        proof {
            let t0 = old(self).toks();
            let i0 = old(self).current as int;
            let o = spec_comparison(t0, i0);
            let sub = spec_term(t0, i0);
            match sub.r {
                Ok(g) => {
                    let rest = spec_comparison_rest(g, t0, sub.i);
                    lemma_diag_concat_assoc(
                        strings_model(old(self).errors@),
                        sub.errs,
                        rest.errs,
                    );
                },
                _ => {},
            }
            assert(strings_model(self.errors@) == strings_model(old(self).errors@) + o.errs);
        }
        r
    }

    /// The rest of a chain, folded to the left.
    #[verifier::rlimit(100)]
    #[verifier::spinoff_prover]
    fn equality_rest(&mut self, left: Expr) -> (r: Result<Expr, ParseError>)
        requires
            parser_ok(*old(self)),
        ensures
            ({
                let o = spec_equality_rest(expr_model(left), old(self).toks(), old(self).current as int);
                &&& (match (r, o.r) {
                    (Ok(e), Ok(g)) => expr_model(e) == g,
                    (Err(x), Err(y)) => true,
                    _ => false,
                })
                &&& final(self).current as int == o.i
                &&& strings_model(final(self).errors@) == strings_model(old(self).errors@) + o.errs
            }),
            final(self).tokens == old(self).tokens,
            parser_ok(*final(self)),
            old(self).current <= final(self).current,
        decreases old(self).tokens@.len() - old(self).current, 44int,
    {
        proof {
            crate::model::lemma_tokens_model_len(self.tokens@);
            reveal(spec_equality_rest);
        }
        let ghost noerrs: Seq<Seq<char>> = Seq::empty();
        if self.check(TokenType::BangEqual) || self.check(TokenType::EqualEqual) {
            proof {
                crate::model::lemma_tokens_model_len(self.tokens@);
                lemma_not_eof_bound(old(self).toks(), self.current as int);
            }
            let operator = self.advance();
            let right = match self.comparison() {
                Ok(e) => e,
                Err(x) => {
                    return Err(x);
                },
            };
            let b = Expr::Binary(Binary {
                left: Box::new(left),
                operator,
                right: Box::new(right),
            });
            let r = self.equality_rest(b);
            proof {
                let t0 = old(self).toks();
                let i0 = old(self).current as int;
                let o = spec_equality_rest(expr_model(left), t0, i0);
                let sub = spec_comparison(t0, i0 + 1);
                match sub.r {
                    Ok(g) => {
                        let rest = spec_equality_rest(
                            GExpr::Binary(Box::new(expr_model(left)), t0[i0], Box::new(g)),
                            t0,
                            sub.i,
                        );
                        lemma_diag_concat_assoc(
                            strings_model(old(self).errors@),
                            sub.errs,
                            rest.errs,
                        );
                    },
                    _ => {},
                }
                assert(strings_model(self.errors@) == strings_model(old(self).errors@) + o.errs);
            }
            r
        } else {
            proof {
                assert(strings_model(self.errors@) =~= strings_model(old(self).errors@) + noerrs);
            }
            Ok(left)
        }
    }

    /// The chain itself.
    #[verifier::rlimit(100)]
    #[verifier::spinoff_prover]
    fn equality(&mut self) -> (r: Result<Expr, ParseError>)
        requires
            parser_ok(*old(self)),
        ensures
            ({
                let o = spec_equality(old(self).toks(), old(self).current as int);
                &&& (match (r, o.r) {
                    (Ok(e), Ok(g)) => expr_model(e) == g,
                    (Err(x), Err(y)) => true,
                    _ => false,
                })
                &&& final(self).current as int == o.i
                &&& strings_model(final(self).errors@) == strings_model(old(self).errors@) + o.errs
            }),
            final(self).tokens == old(self).tokens,
            parser_ok(*final(self)),
            old(self).current <= final(self).current,
            r is Ok ==> old(self).current < final(self).current,
        decreases old(self).tokens@.len() - old(self).current, 45int,
    {
        proof {
            crate::model::lemma_tokens_model_len(self.tokens@);
            reveal(spec_equality);
        }
        let p = match self.comparison() {
            Ok(e) => e,
            Err(x) => {
                return Err(x);
            },
        };
        let r = self.equality_rest(p);
        proof {
            let t0 = old(self).toks();
            let i0 = old(self).current as int;
            let o = spec_equality(t0, i0);
            let sub = spec_comparison(t0, i0);
            match sub.r {
                Ok(g) => {
                    let rest = spec_equality_rest(g, t0, sub.i);
                    lemma_diag_concat_assoc(
                        strings_model(old(self).errors@),
                        sub.errs,
                        rest.errs,
                    );
                },
                _ => {},
            }
            assert(strings_model(self.errors@) == strings_model(old(self).errors@) + o.errs);
        }
        r
    }

    /// The rest of a chain, folded to the left.
    #[verifier::rlimit(100)]
    #[verifier::spinoff_prover]
    fn and_expr_rest(&mut self, left: Expr) -> (r: Result<Expr, ParseError>)
        requires
            parser_ok(*old(self)),
        ensures
            ({
                let o = spec_and_rest(expr_model(left), old(self).toks(), old(self).current as int);
                &&& (match (r, o.r) {
                    (Ok(e), Ok(g)) => expr_model(e) == g,
                    (Err(x), Err(y)) => true,
                    _ => false,
                })
                &&& final(self).current as int == o.i
                &&& strings_model(final(self).errors@) == strings_model(old(self).errors@) + o.errs
            }),
            final(self).tokens == old(self).tokens,
            parser_ok(*final(self)),
            old(self).current <= final(self).current,
        decreases old(self).tokens@.len() - old(self).current, 46int,
    {
        proof {
            crate::model::lemma_tokens_model_len(self.tokens@);
            reveal(spec_and_rest);
        }
        let ghost noerrs: Seq<Seq<char>> = Seq::empty();
        if self.check(TokenType::And) {
            proof {
                crate::model::lemma_tokens_model_len(self.tokens@);
                lemma_not_eof_bound(old(self).toks(), self.current as int);
            }
            let operator = self.advance();
            let right = match self.equality() {
                Ok(e) => e,
                Err(x) => {
                    return Err(x);
                },
            };
            let b = Expr::Logical(Logical {
                left: Box::new(left),
                operator,
                right: Box::new(right),
            });
            let r = self.and_expr_rest(b);
            proof {
                let t0 = old(self).toks();
                let i0 = old(self).current as int;
                let o = spec_and_rest(expr_model(left), t0, i0);
                let sub = spec_equality(t0, i0 + 1);
                match sub.r {
                    Ok(g) => {
                        let rest = spec_and_rest(
                            GExpr::Logical(Box::new(expr_model(left)), t0[i0], Box::new(g)),
                            t0,
                            sub.i,
                        );
                        lemma_diag_concat_assoc(
                            strings_model(old(self).errors@),
                            sub.errs,
                            rest.errs,
                        );
                    },
                    _ => {},
                }
                assert(strings_model(self.errors@) == strings_model(old(self).errors@) + o.errs);
            }
            r
        } else {
            proof {
                assert(strings_model(self.errors@) =~= strings_model(old(self).errors@) + noerrs);
            }
            Ok(left)
        }
    }

    /// The chain itself.
    #[verifier::rlimit(100)]
    #[verifier::spinoff_prover]
    fn and_expr(&mut self) -> (r: Result<Expr, ParseError>)
        requires
            parser_ok(*old(self)),
        ensures
            ({
                let o = spec_and(old(self).toks(), old(self).current as int);
                &&& (match (r, o.r) {
                    (Ok(e), Ok(g)) => expr_model(e) == g,
                    (Err(x), Err(y)) => true,
                    _ => false,
                })
                &&& final(self).current as int == o.i
                &&& strings_model(final(self).errors@) == strings_model(old(self).errors@) + o.errs
            }),
            final(self).tokens == old(self).tokens,
            parser_ok(*final(self)),
            old(self).current <= final(self).current,
            r is Ok ==> old(self).current < final(self).current,
        decreases old(self).tokens@.len() - old(self).current, 47int,
    {
        proof {
            crate::model::lemma_tokens_model_len(self.tokens@);
            reveal(spec_and);
        }
        let p = match self.equality() {
            Ok(e) => e,
            Err(x) => {
                return Err(x);
            },
        };
        let r = self.and_expr_rest(p);
        proof {
            let t0 = old(self).toks();
            let i0 = old(self).current as int;
            let o = spec_and(t0, i0);
            let sub = spec_equality(t0, i0);
            match sub.r {
                Ok(g) => {
                    let rest = spec_and_rest(g, t0, sub.i);
                    lemma_diag_concat_assoc(
                        strings_model(old(self).errors@),
                        sub.errs,
                        rest.errs,
                    );
                },
                _ => {},
            }
            assert(strings_model(self.errors@) == strings_model(old(self).errors@) + o.errs);
        }
        r
    }

    /// The rest of a chain, folded to the left.
    #[verifier::rlimit(100)]
    #[verifier::spinoff_prover]
    fn or_expr_rest(&mut self, left: Expr) -> (r: Result<Expr, ParseError>)
        requires
            parser_ok(*old(self)),
        ensures
            ({
                let o = spec_or_rest(expr_model(left), old(self).toks(), old(self).current as int);
                &&& (match (r, o.r) {
                    (Ok(e), Ok(g)) => expr_model(e) == g,
                    (Err(x), Err(y)) => true,
                    _ => false,
                })
                &&& final(self).current as int == o.i
                &&& strings_model(final(self).errors@) == strings_model(old(self).errors@) + o.errs
            }),
            final(self).tokens == old(self).tokens,
            parser_ok(*final(self)),
            old(self).current <= final(self).current,
        decreases old(self).tokens@.len() - old(self).current, 48int,
    {
        proof {
            crate::model::lemma_tokens_model_len(self.tokens@);
            reveal(spec_or_rest);
        }
        let ghost noerrs: Seq<Seq<char>> = Seq::empty();
        if self.check(TokenType::Or) {
            proof {
                crate::model::lemma_tokens_model_len(self.tokens@);
                lemma_not_eof_bound(old(self).toks(), self.current as int);
            }
            let operator = self.advance();
            let right = match self.and_expr() {
                Ok(e) => e,
                Err(x) => {
                    return Err(x);
                },
            };
            let b = Expr::Logical(Logical {
                left: Box::new(left),
                operator,
                right: Box::new(right),
            });
            let r = self.or_expr_rest(b);
            proof {
                let t0 = old(self).toks();
                let i0 = old(self).current as int;
                let o = spec_or_rest(expr_model(left), t0, i0);
                let sub = spec_and(t0, i0 + 1);
                match sub.r {
                    Ok(g) => {
                        let rest = spec_or_rest(
                            GExpr::Logical(Box::new(expr_model(left)), t0[i0], Box::new(g)),
                            t0,
                            sub.i,
                        );
                        lemma_diag_concat_assoc(
                            strings_model(old(self).errors@),
                            sub.errs,
                            rest.errs,
                        );
                    },
                    _ => {},
                }
                assert(strings_model(self.errors@) == strings_model(old(self).errors@) + o.errs);
            }
            r
        } else {
            proof {
                assert(strings_model(self.errors@) =~= strings_model(old(self).errors@) + noerrs);
            }
            Ok(left)
        }
    }

    /// The chain itself.
    #[verifier::rlimit(100)]
    #[verifier::spinoff_prover]
    fn or_expr(&mut self) -> (r: Result<Expr, ParseError>)
        requires
            parser_ok(*old(self)),
        ensures
            ({
                let o = spec_or(old(self).toks(), old(self).current as int);
                &&& (match (r, o.r) {
                    (Ok(e), Ok(g)) => expr_model(e) == g,
                    (Err(x), Err(y)) => true,
                    _ => false,
                })
                &&& final(self).current as int == o.i
                &&& strings_model(final(self).errors@) == strings_model(old(self).errors@) + o.errs
            }),
            final(self).tokens == old(self).tokens,
            parser_ok(*final(self)),
            old(self).current <= final(self).current,
            r is Ok ==> old(self).current < final(self).current,
        decreases old(self).tokens@.len() - old(self).current, 49int,
    {
        proof {
            crate::model::lemma_tokens_model_len(self.tokens@);
            reveal(spec_or);
        }
        let p = match self.and_expr() {
            Ok(e) => e,
            Err(x) => {
                return Err(x);
            },
        };
        let r = self.or_expr_rest(p);
        proof {
            let t0 = old(self).toks();
            let i0 = old(self).current as int;
            let o = spec_or(t0, i0);
            let sub = spec_and(t0, i0);
            match sub.r {
                Ok(g) => {
                    let rest = spec_or_rest(g, t0, sub.i);
                    lemma_diag_concat_assoc(
                        strings_model(old(self).errors@),
                        sub.errs,
                        rest.errs,
                    );
                },
                _ => {},
            }
            assert(strings_model(self.errors@) == strings_model(old(self).errors@) + o.errs);
        }
        r
    }

    /// assignment: right-associative `=` whose target must be a variable.
    #[verifier::rlimit(100)]
    #[verifier::spinoff_prover]
    fn assignment(&mut self) -> (r: Result<Expr, ParseError>)
        requires
            parser_ok(*old(self)),
        ensures
            ({
                let o = spec_assignment(old(self).toks(), old(self).current as int);
                &&& (match (r, o.r) {
                    (Ok(e), Ok(g)) => expr_model(e) == g,
                    (Err(x), Err(y)) => true,
                    _ => false,
                })
                &&& final(self).current as int == o.i
                &&& strings_model(final(self).errors@) == strings_model(old(self).errors@) + o.errs
            }),
            final(self).tokens == old(self).tokens,
            parser_ok(*final(self)),
            old(self).current <= final(self).current,
            r is Ok ==> old(self).current < final(self).current,
        decreases old(self).tokens@.len() - old(self).current, 50int,
    {
        proof {
            crate::model::lemma_tokens_model_len(self.tokens@);
            reveal(spec_assignment);
            reveal(spec_or);
        }
        let e = match self.or_expr() {
            Ok(e) => e,
            Err(x) => {
                return Err(x);
            },
        };
        if self.check(TokenType::Equal) {
            proof {
                crate::model::lemma_tokens_model_len(self.tokens@);
                lemma_not_eof_bound(old(self).toks(), self.current as int);
            }
            let equals_at = self.current;
            self.advance();
            let value = match self.assignment() {
                Ok(v) => v,
                Err(x) => {
                    proof {
                        let o = spec_assignment(old(self).toks(), old(self).current as int);
                        assert(strings_model(self.errors@) =~= strings_model(old(self).errors@)
                            + o.errs);
                    }
                    return Err(x);
                },
            };
            match e {
                Expr::Variable(variable) => {
                    proof {
                        let o = spec_assignment(old(self).toks(), old(self).current as int);
                        assert(strings_model(self.errors@) =~= strings_model(old(self).errors@)
                            + o.errs);
                    }
                    Ok(
                        Expr::Assign(
                            Assign { name: variable.name, value: Box::new(value) },
                        ),
                    )
                },
                _ => {
                    proof {
                        crate::model::lemma_tokens_model_len(self.tokens@);
                        crate::model::lemma_tokens_model_index(self.tokens@, equals_at as int);
                    }
                    let d = error_token(
                        &self.tokens[equals_at],
                        String::from_str("Invalid assignment target."),
                    );
                    let ghost gd = d;
                    let ghost oes = self.errors@;
                    self.errors.push(d);
                    proof {
                        crate::model::lemma_strings_model_push(oes, gd);
                        let o = spec_assignment(old(self).toks(), old(self).current as int);
                        assert(strings_model(self.errors@) =~= strings_model(old(self).errors@)
                            + o.errs);
                    }
                    Ok(e)
                },
            }
        } else {
            Ok(e)
        }
    }


    /// An expression statement: an expression, then `;`.
    #[verifier::rlimit(100)]
    #[verifier::spinoff_prover]
    fn expression_statement(&mut self) -> (r: Result<Statement, ParseError>)
        requires
            parser_ok(*old(self)),
        ensures
            ({
                let o = spec_expression_statement(old(self).toks(), old(self).current as int);
                &&& (match (r, o.r) {
                    (Ok(st), Ok(g)) => stmt_model(st) == g,
                    (Err(x), Err(y)) => true,
                    _ => false,
                })
                &&& final(self).current as int == o.i
                &&& strings_model(final(self).errors@) == strings_model(old(self).errors@) + o.errs
            }),
            final(self).tokens == old(self).tokens,
            parser_ok(*final(self)),
            old(self).current <= final(self).current,
            r is Ok ==> old(self).current < final(self).current,
        decreases old(self).tokens@.len() - old(self).current, 54int,
    {
        proof {
            crate::model::lemma_tokens_model_len(self.tokens@);
            reveal(spec_expression_statement);
        }
        let e = match self.expression() {
            Ok(e) => e,
            Err(x) => {
                return Err(x);
            },
        };
        match self.consume(TokenType::Semicolon, "Expect ';' after expression.") {
            Ok(t) => {
                proof {
                    let o = spec_expression_statement(old(self).toks(), old(self).current as int);
                    assert(strings_model(self.errors@) =~= strings_model(old(self).errors@)
                        + o.errs);
                }
                Ok(Statement::Expression(Expression { expression: Box::new(e) }))
            },
            Err(x) => {
                proof {
                    let o = spec_expression_statement(old(self).toks(), old(self).current as int);
                    assert(strings_model(self.errors@) =~= strings_model(old(self).errors@)
                        + o.errs);
                }
                Err(x)
            },
        }
    }

    /// A print statement, after the `print` keyword.
    #[verifier::rlimit(100)]
    #[verifier::spinoff_prover]
    fn print_statement(&mut self) -> (r: Result<Statement, ParseError>)
        requires
            parser_ok(*old(self)),
        ensures
            ({
                let o = spec_print_statement(old(self).toks(), old(self).current as int);
                &&& (match (r, o.r) {
                    (Ok(st), Ok(g)) => stmt_model(st) == g,
                    (Err(x), Err(y)) => true,
                    _ => false,
                })
                &&& final(self).current as int == o.i
                &&& strings_model(final(self).errors@) == strings_model(old(self).errors@) + o.errs
            }),
            final(self).tokens == old(self).tokens,
            parser_ok(*final(self)),
            old(self).current <= final(self).current,
            r is Ok ==> old(self).current < final(self).current,
        decreases old(self).tokens@.len() - old(self).current, 54int,
    {
        proof {
            crate::model::lemma_tokens_model_len(self.tokens@);
            reveal(spec_print_statement);
        }
        let e = match self.expression() {
            Ok(e) => e,
            Err(x) => {
                return Err(x);
            },
        };
        match self.consume(TokenType::Semicolon, "Expect ';' after value.") {
            Ok(t) => {
                proof {
                    let o = spec_print_statement(old(self).toks(), old(self).current as int);
                    assert(strings_model(self.errors@) =~= strings_model(old(self).errors@)
                        + o.errs);
                }
                Ok(Statement::Print(Print { expression: Box::new(e) }))
            },
            Err(x) => {
                proof {
                    let o = spec_print_statement(old(self).toks(), old(self).current as int);
                    assert(strings_model(self.errors@) =~= strings_model(old(self).errors@)
                        + o.errs);
                }
                Err(x)
            },
        }
    }

    /// A variable declaration, after the `var` keyword.
    #[verifier::rlimit(100)]
    #[verifier::spinoff_prover]
    fn var_declaration(&mut self) -> (r: Result<Statement, ParseError>)
        requires
            parser_ok(*old(self)),
        ensures
            ({
                let o = spec_var_declaration(old(self).toks(), old(self).current as int);
                &&& (match (r, o.r) {
                    (Ok(st), Ok(g)) => stmt_model(st) == g,
                    (Err(x), Err(y)) => true,
                    _ => false,
                })
                &&& final(self).current as int == o.i
                &&& strings_model(final(self).errors@) == strings_model(old(self).errors@) + o.errs
            }),
            final(self).tokens == old(self).tokens,
            parser_ok(*final(self)),
            old(self).current <= final(self).current,
            r is Ok ==> old(self).current < final(self).current,
        decreases old(self).tokens@.len() - old(self).current, 54int,
    {
        proof {
            crate::model::lemma_tokens_model_len(self.tokens@);
            reveal(spec_var_declaration);
        }
        let name = match self.consume(TokenType::Identifier, "Expect variable name.") {
            Ok(t) => t,
            Err(x) => {
                return Err(x);
            },
        };
        if self.check(TokenType::Equal) {
            proof {
                crate::model::lemma_tokens_model_len(self.tokens@);
                lemma_not_eof_bound(old(self).toks(), self.current as int);
            }
            self.advance();
            let e = match self.expression() {
                Ok(e) => e,
                Err(x) => {
                    proof {
                        let o = spec_var_declaration(old(self).toks(), old(self).current as int);
                        assert(strings_model(self.errors@) =~= strings_model(old(self).errors@)
                            + o.errs);
                    }
                    return Err(x);
                },
            };
            match self.consume(TokenType::Semicolon, "Expect ';' after variable declaration.") {
                Ok(t) => {
                    proof {
                        let o = spec_var_declaration(old(self).toks(), old(self).current as int);
                        assert(strings_model(self.errors@) =~= strings_model(old(self).errors@)
                            + o.errs);
                    }
                    Ok(
                        Statement::Var(
                            Var { name, initializer: Some(Box::new(e)) },
                        ),
                    )
                },
                Err(x) => {
                    proof {
                        let o = spec_var_declaration(old(self).toks(), old(self).current as int);
                        assert(strings_model(self.errors@) =~= strings_model(old(self).errors@)
                            + o.errs);
                    }
                    Err(x)
                },
            }
        } else {
            match self.consume(TokenType::Semicolon, "Expect ';' after variable declaration.") {
                Ok(t) => {
                    proof {
                        let o = spec_var_declaration(old(self).toks(), old(self).current as int);
                        assert(strings_model(self.errors@) =~= strings_model(old(self).errors@)
                            + o.errs);
                    }
                    Ok(Statement::Var(Var { name, initializer: None }))
                },
                Err(x) => {
                    proof {
                        let o = spec_var_declaration(old(self).toks(), old(self).current as int);
                        assert(strings_model(self.errors@) =~= strings_model(old(self).errors@)
                            + o.errs);
                    }
                    Err(x)
                },
            }
        }
    }

    /// A return statement, after the `return` keyword.
    #[verifier::rlimit(100)]
    #[verifier::spinoff_prover]
    fn return_statement(&mut self, keyword: Token) -> (r: Result<Statement, ParseError>)
        requires
            parser_ok(*old(self)),
        ensures
            ({
                let o = spec_return_statement(
                    token_model(keyword),
                    old(self).toks(),
                    old(self).current as int,
                );
                &&& (match (r, o.r) {
                    (Ok(st), Ok(g)) => stmt_model(st) == g,
                    (Err(x), Err(y)) => true,
                    _ => false,
                })
                &&& final(self).current as int == o.i
                &&& strings_model(final(self).errors@) == strings_model(old(self).errors@) + o.errs
            }),
            final(self).tokens == old(self).tokens,
            parser_ok(*final(self)),
            old(self).current <= final(self).current,
            r is Ok ==> old(self).current < final(self).current,
        decreases old(self).tokens@.len() - old(self).current, 54int,
    {
        proof {
            crate::model::lemma_tokens_model_len(self.tokens@);
            reveal(spec_return_statement);
        }
        if !self.check(TokenType::Semicolon) {
            let e = match self.expression() {
                Ok(e) => e,
                Err(x) => {
                    return Err(x);
                },
            };
            match self.consume(TokenType::Semicolon, "Expect ';' after return value.") {
                Ok(t) => {
                    proof {
                        let o = spec_return_statement(
                            token_model(keyword),
                            old(self).toks(),
                            old(self).current as int,
                        );
                        assert(strings_model(self.errors@) =~= strings_model(old(self).errors@)
                            + o.errs);
                    }
                    Ok(Statement::Return(Return { keyword, value: Some(e) }))
                },
                Err(x) => {
                    proof {
                        let o = spec_return_statement(
                            token_model(keyword),
                            old(self).toks(),
                            old(self).current as int,
                        );
                        assert(strings_model(self.errors@) =~= strings_model(old(self).errors@)
                            + o.errs);
                    }
                    Err(x)
                },
            }
        } else {
            self.advance();
            proof {
                assert(strings_model(self.errors@) =~= strings_model(old(self).errors@)
                    + Seq::<Seq<char>>::empty());
            }
            Ok(Statement::Return(Return { keyword, value: None }))
        }
    }

    /// The parameters of a function declaration.
    #[verifier::rlimit(100)]
    #[verifier::spinoff_prover]
    fn parameters(&mut self, count: usize) -> (r: Result<Vec<Token>, ParseError>)
        requires
            parser_ok(*old(self)),
            count <= 256,
        ensures
            ({
                let o = spec_params(old(self).toks(), old(self).current as int, count as int);
                &&& (match (r, o.r) {
                    (Ok(ts), Ok(gs)) => tokens_model(ts@) == gs,
                    (Err(x), Err(y)) => true,
                    _ => false,
                })
                &&& final(self).current as int == o.i
                &&& strings_model(final(self).errors@) == strings_model(old(self).errors@) + o.errs
            }),
            final(self).tokens == old(self).tokens,
            parser_ok(*final(self)),
            old(self).current <= final(self).current,
            r is Ok ==> old(self).current < final(self).current,
        decreases old(self).tokens@.len() - old(self).current, 54int,
    {
        proof {
            crate::model::lemma_tokens_model_len(self.tokens@);
            reveal(spec_params);
        }
        if count >= 255 {
            self.error("Can't have more than 255 parameters.");
        }
        let name = match self.consume(TokenType::Identifier, "Expect parameter name.") {
            Ok(t) => t,
            Err(x) => {
                proof {
                    let o = spec_params(old(self).toks(), old(self).current as int, count as int);
                    assert(strings_model(self.errors@) =~= strings_model(old(self).errors@)
                        + o.errs);
                }
                return Err(x);
            },
        };
        if self.check(TokenType::Comma) {
            proof {
                crate::model::lemma_tokens_model_len(self.tokens@);
                lemma_not_eof_bound(old(self).toks(), self.current as int);
            }
            self.advance();
            let next_count = if count < 256 {
                count + 1
            } else {
                count
            };
            let mut rest = match self.parameters(next_count) {
                Ok(ts) => ts,
                Err(x) => {
                    proof {
                        let o = spec_params(
                            old(self).toks(),
                            old(self).current as int,
                            count as int,
                        );
                        assert(strings_model(self.errors@) =~= strings_model(old(self).errors@)
                            + o.errs);
                    }
                    return Err(x);
                },
            };
            let ghost grest = rest@;
            rest.insert(0, name);
            proof {
                crate::model::lemma_tokens_model_prepend(grest, rest@[0]);
                assert(rest@ == grest.insert(0, rest@[0]));
                let o = spec_params(old(self).toks(), old(self).current as int, count as int);
                assert(strings_model(self.errors@) =~= strings_model(old(self).errors@) + o.errs);
            }
            Ok(rest)
        } else {
            let mut out: Vec<Token> = Vec::new();
            let ghost gname = name;
            out.push(name);
            proof {
                assert(tokens_model(Seq::<Token>::empty()) =~= Seq::<GToken>::empty());
                assert(tokens_model(out@) =~= seq![token_model(out@[0])]) by {
                    assert(out@.drop_last() =~= Seq::<Token>::empty());
                    assert(tokens_model(out@.drop_last()) =~= Seq::<GToken>::empty());
                }
                let o = spec_params(old(self).toks(), old(self).current as int, count as int);
                assert(strings_model(self.errors@) =~= strings_model(old(self).errors@) + o.errs);
            }
            Ok(out)
        }
    }

    /// The body of a block, after the `{`.
    #[verifier::rlimit(100)]
    #[verifier::spinoff_prover]
    fn block(&mut self) -> (r: Result<Vec<Statement>, ParseError>)
        requires
            parser_ok(*old(self)),
        ensures
            ({
                let o = spec_block(old(self).toks(), old(self).current as int);
                &&& (match (r, o.r) {
                    (Ok(ss), Ok(gs)) => stmts_model(ss@) == gs,
                    (Err(x), Err(y)) => true,
                    _ => false,
                })
                &&& final(self).current as int == o.i
                &&& strings_model(final(self).errors@) == strings_model(old(self).errors@) + o.errs
            }),
            final(self).tokens == old(self).tokens,
            parser_ok(*final(self)),
            old(self).current <= final(self).current,
            r is Ok ==> old(self).current < final(self).current,
        decreases old(self).tokens@.len() - old(self).current, 58int,
    {
        proof {
            crate::model::lemma_tokens_model_len(self.tokens@);
            reveal(spec_block);
        }
        if self.check(TokenType::RightBrace) || self.is_at_end() {
            match self.consume(TokenType::RightBrace, "Expect '}' after block.") {
                Ok(t) => {
                    proof {
                        assert(stmts_model(Seq::<Statement>::empty()) =~= Seq::<GStmt>::empty());
                        let o = spec_block(old(self).toks(), old(self).current as int);
                        assert(strings_model(self.errors@) =~= strings_model(old(self).errors@)
                            + o.errs);
                    }
                    let out: Vec<Statement> = Vec::new();
                    Ok(out)
                },
                Err(x) => {
                    proof {
                        let o = spec_block(old(self).toks(), old(self).current as int);
                        assert(strings_model(self.errors@) =~= strings_model(old(self).errors@)
                            + o.errs);
                    }
                    Err(x)
                },
            }
        } else {
            let d = match self.declaration() {
                Ok(st) => st,
                Err(x) => {
                    return Err(x);
                },
            };
            let mut rest = match self.block() {
                Ok(ss) => ss,
                Err(x) => {
                    proof {
                        let o = spec_block(old(self).toks(), old(self).current as int);
                        assert(strings_model(self.errors@) =~= strings_model(old(self).errors@)
                            + o.errs);
                    }
                    return Err(x);
                },
            };
            let ghost grest = rest@;
            rest.insert(0, d);
            proof {
                crate::model::lemma_stmts_model_prepend(grest, rest@[0]);
                assert(rest@ == grest.insert(0, rest@[0]));
                let o = spec_block(old(self).toks(), old(self).current as int);
                assert(strings_model(self.errors@) =~= strings_model(old(self).errors@) + o.errs);
            }
            Ok(rest)
        }
    }

    /// An if statement, after the `if` keyword.
    #[verifier::rlimit(100)]
    #[verifier::spinoff_prover]
    fn if_statement(&mut self) -> (r: Result<Statement, ParseError>)
        requires
            parser_ok(*old(self)),
        ensures
            ({
                let o = spec_if_statement(old(self).toks(), old(self).current as int);
                &&& (match (r, o.r) {
                    (Ok(st), Ok(g)) => stmt_model(st) == g,
                    (Err(x), Err(y)) => true,
                    _ => false,
                })
                &&& final(self).current as int == o.i
                &&& strings_model(final(self).errors@) == strings_model(old(self).errors@) + o.errs
            }),
            final(self).tokens == old(self).tokens,
            parser_ok(*final(self)),
            old(self).current <= final(self).current,
            r is Ok ==> old(self).current < final(self).current,
        decreases old(self).tokens@.len() - old(self).current, 55int,
    {
        proof {
            crate::model::lemma_tokens_model_len(self.tokens@);
            reveal(spec_if_statement);
        }
        let c1 = match self.consume(TokenType::LeftParen, "Expect '(' after 'if'.") {
            Ok(t) => t,
            Err(x) => {
                return Err(x);
            },
        };
        let condition = match self.expression() {
            Ok(e) => e,
            Err(x) => {
                proof {
                    let o = spec_if_statement(old(self).toks(), old(self).current as int);
                    assert(strings_model(self.errors@) =~= strings_model(old(self).errors@)
                        + o.errs);
                }
                return Err(x);
            },
        };
        let c2 = match self.consume(TokenType::RightParen, "Expect ')' after if condition.") {
            Ok(t) => t,
            Err(x) => {
                proof {
                    let o = spec_if_statement(old(self).toks(), old(self).current as int);
                    assert(strings_model(self.errors@) =~= strings_model(old(self).errors@)
                        + o.errs);
                }
                return Err(x);
            },
        };
        let then_branch = match self.statement() {
            Ok(st) => st,
            Err(x) => {
                proof {
                    let o = spec_if_statement(old(self).toks(), old(self).current as int);
                    assert(strings_model(self.errors@) =~= strings_model(old(self).errors@)
                        + o.errs);
                }
                return Err(x);
            },
        };
        if self.check(TokenType::Else) {
            proof {
                crate::model::lemma_tokens_model_len(self.tokens@);
                lemma_not_eof_bound(old(self).toks(), self.current as int);
            }
            self.advance();
            let else_branch = match self.statement() {
                Ok(st) => st,
                Err(x) => {
                    proof {
                        let o = spec_if_statement(old(self).toks(), old(self).current as int);
                        assert(strings_model(self.errors@) =~= strings_model(old(self).errors@)
                            + o.errs);
                    }
                    return Err(x);
                },
            };
            proof {
                let o = spec_if_statement(old(self).toks(), old(self).current as int);
                assert(strings_model(self.errors@) =~= strings_model(old(self).errors@) + o.errs);
            }
            Ok(
                Statement::If(
                    If {
                        condition: Box::new(condition),
                        then_branch: Box::new(then_branch),
                        else_branch: Some(Box::new(else_branch)),
                    },
                ),
            )
        } else {
            proof {
                let o = spec_if_statement(old(self).toks(), old(self).current as int);
                assert(strings_model(self.errors@) =~= strings_model(old(self).errors@) + o.errs);
            }
            Ok(
                Statement::If(
                    If {
                        condition: Box::new(condition),
                        then_branch: Box::new(then_branch),
                        else_branch: None,
                    },
                ),
            )
        }
    }

    /// A while statement, after the `while` keyword.
    #[verifier::rlimit(100)]
    #[verifier::spinoff_prover]
    fn while_statement(&mut self) -> (r: Result<Statement, ParseError>)
        requires
            parser_ok(*old(self)),
        ensures
            ({
                let o = spec_while_statement(old(self).toks(), old(self).current as int);
                &&& (match (r, o.r) {
                    (Ok(st), Ok(g)) => stmt_model(st) == g,
                    (Err(x), Err(y)) => true,
                    _ => false,
                })
                &&& final(self).current as int == o.i
                &&& strings_model(final(self).errors@) == strings_model(old(self).errors@) + o.errs
            }),
            final(self).tokens == old(self).tokens,
            parser_ok(*final(self)),
            old(self).current <= final(self).current,
            r is Ok ==> old(self).current < final(self).current,
        decreases old(self).tokens@.len() - old(self).current, 55int,
    {
        proof {
            crate::model::lemma_tokens_model_len(self.tokens@);
            reveal(spec_while_statement);
        }
        let c1 = match self.consume(TokenType::LeftParen, "Expect '(' after 'while'.") {
            Ok(t) => t,
            Err(x) => {
                return Err(x);
            },
        };
        let condition = match self.expression() {
            Ok(e) => e,
            Err(x) => {
                proof {
                    let o = spec_while_statement(old(self).toks(), old(self).current as int);
                    assert(strings_model(self.errors@) =~= strings_model(old(self).errors@)
                        + o.errs);
                }
                return Err(x);
            },
        };
        let c2 = match self.consume(TokenType::RightParen, "Expect ')' after condition.") {
            Ok(t) => t,
            Err(x) => {
                proof {
                    let o = spec_while_statement(old(self).toks(), old(self).current as int);
                    assert(strings_model(self.errors@) =~= strings_model(old(self).errors@)
                        + o.errs);
                }
                return Err(x);
            },
        };
        let body = match self.statement() {
            Ok(st) => st,
            Err(x) => {
                proof {
                    let o = spec_while_statement(old(self).toks(), old(self).current as int);
                    assert(strings_model(self.errors@) =~= strings_model(old(self).errors@)
                        + o.errs);
                }
                return Err(x);
            },
        };
        proof {
            let o = spec_while_statement(old(self).toks(), old(self).current as int);
            assert(strings_model(self.errors@) =~= strings_model(old(self).errors@) + o.errs);
        }
        Ok(Statement::While(While { condition: Box::new(condition), body: Box::new(body) }))
    }

    /// A function declaration, after the `fun` keyword.
    #[verifier::rlimit(100)]
    #[verifier::spinoff_prover]
    fn function(&mut self) -> (r: Result<Statement, ParseError>)
        requires
            parser_ok(*old(self)),
        ensures
            ({
                let o = spec_function(old(self).toks(), old(self).current as int);
                &&& (match (r, o.r) {
                    (Ok(st), Ok(g)) => stmt_model(st) == g,
                    (Err(x), Err(y)) => true,
                    _ => false,
                })
                &&& final(self).current as int == o.i
                &&& strings_model(final(self).errors@) == strings_model(old(self).errors@) + o.errs
            }),
            final(self).tokens == old(self).tokens,
            parser_ok(*final(self)),
            old(self).current <= final(self).current,
            r is Ok ==> old(self).current < final(self).current,
        decreases old(self).tokens@.len() - old(self).current, 55int,
    {
        proof {
            crate::model::lemma_tokens_model_len(self.tokens@);
            reveal(spec_function);
        }
        let name = match self.consume(TokenType::Identifier, "Expect function name.") {
            Ok(t) => t,
            Err(x) => {
                return Err(x);
            },
        };
        let c1 = match self.consume(TokenType::LeftParen, "Expect '(' after function name.") {
            Ok(t) => t,
            Err(x) => {
                proof {
                    let o = spec_function(old(self).toks(), old(self).current as int);
                    assert(strings_model(self.errors@) =~= strings_model(old(self).errors@)
                        + o.errs);
                }
                return Err(x);
            },
        };
        let params = if self.check(TokenType::RightParen) {
            let out: Vec<Token> = Vec::new();
            proof {
                assert(tokens_model(Seq::<Token>::empty()) =~= Seq::<GToken>::empty());
            }
            out
        } else {
            match self.parameters(0) {
                Ok(ts) => ts,
                Err(x) => {
                    proof {
                        let o = spec_function(old(self).toks(), old(self).current as int);
                        assert(strings_model(self.errors@) =~= strings_model(old(self).errors@)
                            + o.errs);
                    }
                    return Err(x);
                },
            }
        };
        let c2 = match self.consume(TokenType::RightParen, "Expect ')' after parameters.") {
            Ok(t) => t,
            Err(x) => {
                proof {
                    let o = spec_function(old(self).toks(), old(self).current as int);
                    assert(strings_model(self.errors@) =~= strings_model(old(self).errors@)
                        + o.errs);
                }
                return Err(x);
            },
        };
        let c3 = match self.consume(TokenType::LeftBrace, "Expect '{' before function body.") {
            Ok(t) => t,
            Err(x) => {
                proof {
                    let o = spec_function(old(self).toks(), old(self).current as int);
                    assert(strings_model(self.errors@) =~= strings_model(old(self).errors@)
                        + o.errs);
                }
                return Err(x);
            },
        };
        let body = match self.block() {
            Ok(ss) => ss,
            Err(x) => {
                proof {
                    let o = spec_function(old(self).toks(), old(self).current as int);
                    assert(strings_model(self.errors@) =~= strings_model(old(self).errors@)
                        + o.errs);
                }
                return Err(x);
            },
        };
        proof {
            let o = spec_function(old(self).toks(), old(self).current as int);
            assert(strings_model(self.errors@) =~= strings_model(old(self).errors@) + o.errs);
        }
        Ok(Statement::Function(Function { name, params, body }))
    }

    /// A for statement, after the `for` keyword, desugared into a while
    /// loop at parse time.
    #[verifier::rlimit(100)]
    #[verifier::spinoff_prover]
    fn for_statement(&mut self) -> (r: Result<Statement, ParseError>)
        requires
            parser_ok(*old(self)),
        ensures
            ({
                let o = spec_for_statement(old(self).toks(), old(self).current as int);
                &&& (match (r, o.r) {
                    (Ok(st), Ok(g)) => stmt_model(st) == g,
                    (Err(x), Err(y)) => true,
                    _ => false,
                })
                &&& final(self).current as int == o.i
                &&& strings_model(final(self).errors@) == strings_model(old(self).errors@) + o.errs
            }),
            final(self).tokens == old(self).tokens,
            parser_ok(*final(self)),
            old(self).current <= final(self).current,
            r is Ok ==> old(self).current < final(self).current,
        decreases old(self).tokens@.len() - old(self).current, 55int,
    {
        proof {
            crate::model::lemma_tokens_model_len(self.tokens@);
            reveal(spec_for_statement);
        }
        let c1 = match self.consume(TokenType::LeftParen, "Expect '(' after 'for'.") {
            Ok(t) => t,
            Err(x) => {
                return Err(x);
            },
        };
        let initializer: Option<Statement> = if self.check(TokenType::Semicolon) {
            self.advance();
            None
        } else if self.check(TokenType::Var) {
            proof {
                crate::model::lemma_tokens_model_len(self.tokens@);
                lemma_not_eof_bound(old(self).toks(), self.current as int);
            }
            self.advance();
            match self.var_declaration() {
                Ok(st) => Some(st),
                Err(x) => {
                    proof {
                        let o = spec_for_statement(old(self).toks(), old(self).current as int);
                        assert(strings_model(self.errors@) =~= strings_model(old(self).errors@)
                            + o.errs);
                    }
                    return Err(x);
                },
            }
        } else {
            match self.expression_statement() {
                Ok(st) => Some(st),
                Err(x) => {
                    proof {
                        let o = spec_for_statement(old(self).toks(), old(self).current as int);
                        assert(strings_model(self.errors@) =~= strings_model(old(self).errors@)
                            + o.errs);
                    }
                    return Err(x);
                },
            }
        };
        let condition: Option<Expr> = if !self.check(TokenType::Semicolon) && !self.is_at_end() {
            match self.expression() {
                Ok(e) => Some(e),
                Err(x) => {
                    proof {
                        let o = spec_for_statement(old(self).toks(), old(self).current as int);
                        assert(strings_model(self.errors@) =~= strings_model(old(self).errors@)
                            + o.errs);
                    }
                    return Err(x);
                },
            }
        } else {
            None
        };
        let c2 = match self.consume(TokenType::Semicolon, "Expect ';' after loop condition.") {
            Ok(t) => t,
            Err(x) => {
                proof {
                    let o = spec_for_statement(old(self).toks(), old(self).current as int);
                    assert(strings_model(self.errors@) =~= strings_model(old(self).errors@)
                        + o.errs);
                }
                return Err(x);
            },
        };
        let increment: Option<Expr> = if !self.check(TokenType::RightParen) && !self.is_at_end() {
            match self.expression() {
                Ok(e) => Some(e),
                Err(x) => {
                    proof {
                        let o = spec_for_statement(old(self).toks(), old(self).current as int);
                        assert(strings_model(self.errors@) =~= strings_model(old(self).errors@)
                            + o.errs);
                    }
                    return Err(x);
                },
            }
        } else {
            None
        };
        let c3 = match self.consume(TokenType::RightParen, "Expect ')' after for clauses.") {
            Ok(t) => t,
            Err(x) => {
                proof {
                    let o = spec_for_statement(old(self).toks(), old(self).current as int);
                    assert(strings_model(self.errors@) =~= strings_model(old(self).errors@)
                        + o.errs);
                }
                return Err(x);
            },
        };
        let body = match self.statement() {
            Ok(st) => st,
            Err(x) => {
                proof {
                    let o = spec_for_statement(old(self).toks(), old(self).current as int);
                    assert(strings_model(self.errors@) =~= strings_model(old(self).errors@)
                        + o.errs);
                }
                return Err(x);
            },
        };
        let ghost ginit = match &initializer {
            Some(st) => Some(stmt_model(*st)),
            None => None,
        };
        let ghost gcond = match &condition {
            Some(e) => Some(expr_model(*e)),
            None => None,
        };
        let ghost ginc = match &increment {
            Some(e) => Some(expr_model(*e)),
            None => None,
        };
        let ghost gbody = stmt_model(body);
        let body2 = match increment {
            Some(inc) => {
                let ghost gincv = expr_model(inc);
                let es = Statement::Expression(Expression { expression: Box::new(inc) });
                proof {
                    assert(stmt_model(es) == GStmt::Expression(Box::new(gincv)));
                }
                let mut ss: Vec<Statement> = Vec::new();
                ss.push(body);
                ss.push(es);
                let b = Statement::Block(Block { statements: ss });
                proof {
                    assert(stmts_model(b->Block_0.statements@) =~= seq![
                        gbody,
                        GStmt::Expression(Box::new(gincv)),
                    ]) by {
                        let v = b->Block_0.statements@;
                        assert(v.drop_last().drop_last() =~= Seq::<Statement>::empty());
                        assert(stmts_model(v.drop_last().drop_last()) =~= Seq::<GStmt>::empty());
                        assert(stmts_model(v.drop_last()) =~= seq![gbody]);
                    }
                    assert(stmt_model(b) == GStmt::Block(
                        seq![gbody, GStmt::Expression(Box::new(gincv))],
                    ));
                }
                b
            },
            None => body,
        };
        let ghost gbody2 = stmt_model(body2);
        let cond2 = match condition {
            Some(e) => e,
            None => literal_bool(true),
        };
        let ghost gcond2 = expr_model(cond2);
        let w = Statement::While(While { condition: Box::new(cond2), body: Box::new(body2) });
        proof {
            assert(stmt_model(w) == GStmt::While(Box::new(gcond2), Box::new(gbody2)));
        }
        let ghost gw = stmt_model(w);
        match initializer {
            Some(init) => {
                let ghost ginitval = stmt_model(init);
                let mut ss: Vec<Statement> = Vec::new();
                ss.push(init);
                ss.push(w);
                let b = Statement::Block(Block { statements: ss });
                proof {
                    assert(stmts_model(b->Block_0.statements@) =~= seq![ginitval, gw]) by {
                        let v = b->Block_0.statements@;
                        assert(v.drop_last().drop_last() =~= Seq::<Statement>::empty());
                        assert(stmts_model(v.drop_last().drop_last()) =~= Seq::<GStmt>::empty());
                        assert(stmts_model(v.drop_last()) =~= seq![ginitval]);
                    }
                    assert(stmt_model(b) == GStmt::Block(seq![ginitval, gw]));
                    let o = spec_for_statement(old(self).toks(), old(self).current as int);
                    assert(strings_model(self.errors@) =~= strings_model(old(self).errors@)
                        + o.errs);
                    assert(stmt_model(b) == desugar_for(ginit, gcond, ginc, gbody));
                }
                Ok(b)
            },
            None => {
                proof {
                    let o = spec_for_statement(old(self).toks(), old(self).current as int);
                    assert(strings_model(self.errors@) =~= strings_model(old(self).errors@)
                        + o.errs);
                    assert(stmt_model(w) == desugar_for(ginit, gcond, ginc, gbody));
                }
                Ok(w)
            },
        }
    }

    /// statement: dispatch on the leading token.
    #[verifier::rlimit(100)]
    #[verifier::spinoff_prover]
    fn statement(&mut self) -> (r: Result<Statement, ParseError>)
        requires
            parser_ok(*old(self)),
        ensures
            ({
                let o = spec_statement(old(self).toks(), old(self).current as int);
                &&& (match (r, o.r) {
                    (Ok(st), Ok(g)) => stmt_model(st) == g,
                    (Err(x), Err(y)) => true,
                    _ => false,
                })
                &&& final(self).current as int == o.i
                &&& strings_model(final(self).errors@) == strings_model(old(self).errors@) + o.errs
            }),
            final(self).tokens == old(self).tokens,
            parser_ok(*final(self)),
            old(self).current <= final(self).current,
            r is Ok ==> old(self).current < final(self).current,
        decreases old(self).tokens@.len() - old(self).current, 56int,
    {
        proof {
            crate::model::lemma_tokens_model_len(self.tokens@);
            reveal(spec_statement);
        }
        if self.check(TokenType::If) {
            proof {
                crate::model::lemma_tokens_model_len(self.tokens@);
                lemma_not_eof_bound(old(self).toks(), self.current as int);
            }
            self.advance();
            self.if_statement()
        } else if self.check(TokenType::Print) {
            proof {
                crate::model::lemma_tokens_model_len(self.tokens@);
                lemma_not_eof_bound(old(self).toks(), self.current as int);
            }
            self.advance();
            self.print_statement()
        } else if self.check(TokenType::LeftBrace) {
            proof {
                crate::model::lemma_tokens_model_len(self.tokens@);
                lemma_not_eof_bound(old(self).toks(), self.current as int);
            }
            self.advance();
            match self.block() {
                Ok(ss) => Ok(Statement::Block(Block { statements: ss })),
                Err(x) => Err(x),
            }
        } else if self.check(TokenType::While) {
            proof {
                crate::model::lemma_tokens_model_len(self.tokens@);
                lemma_not_eof_bound(old(self).toks(), self.current as int);
            }
            self.advance();
            self.while_statement()
        } else if self.check(TokenType::For) {
            proof {
                crate::model::lemma_tokens_model_len(self.tokens@);
                lemma_not_eof_bound(old(self).toks(), self.current as int);
            }
            self.advance();
            self.for_statement()
        } else if self.check(TokenType::Return) {
            proof {
                crate::model::lemma_tokens_model_len(self.tokens@);
                lemma_not_eof_bound(old(self).toks(), self.current as int);
            }
            let keyword = self.advance();
            self.return_statement(keyword)
        } else {
            self.expression_statement()
        }
    }

    /// declaration: a function or variable declaration, or a statement.
    #[verifier::rlimit(100)]
    #[verifier::spinoff_prover]
    fn declaration(&mut self) -> (r: Result<Statement, ParseError>)
        requires
            parser_ok(*old(self)),
        ensures
            ({
                let o = spec_declaration(old(self).toks(), old(self).current as int);
                &&& (match (r, o.r) {
                    (Ok(st), Ok(g)) => stmt_model(st) == g,
                    (Err(x), Err(y)) => true,
                    _ => false,
                })
                &&& final(self).current as int == o.i
                &&& strings_model(final(self).errors@) == strings_model(old(self).errors@) + o.errs
            }),
            final(self).tokens == old(self).tokens,
            parser_ok(*final(self)),
            old(self).current <= final(self).current,
            r is Ok ==> old(self).current < final(self).current,
        decreases old(self).tokens@.len() - old(self).current, 57int,
    {
        proof {
            crate::model::lemma_tokens_model_len(self.tokens@);
            reveal(spec_declaration);
        }
        if self.check(TokenType::Fun) {
            proof {
                crate::model::lemma_tokens_model_len(self.tokens@);
                lemma_not_eof_bound(old(self).toks(), self.current as int);
            }
            self.advance();
            self.function()
        } else if self.check(TokenType::Var) {
            proof {
                crate::model::lemma_tokens_model_len(self.tokens@);
                lemma_not_eof_bound(old(self).toks(), self.current as int);
            }
            self.advance();
            self.var_declaration()
        } else {
            self.statement()
        }
    }

    /// Panic-mode recovery: discard tokens to the next likely declaration
    /// boundary.
    #[verifier::rlimit(100)]
    #[verifier::spinoff_prover]
    fn synchronize(&mut self)
        requires
            parser_ok(*old(self)),
        ensures
            final(self).current as int == spec_synchronize(
                old(self).toks(),
                old(self).current as int,
            ),
            final(self).tokens == old(self).tokens,
            final(self).errors == old(self).errors,
            parser_ok(*final(self)),
            old(self).current <= final(self).current,
    {
        proof {
            crate::model::lemma_tokens_model_len(self.tokens@);
            reveal(spec_synchronize);
            reveal(spec_sync_loop);
        }
        let ghost t0 = old(self).toks();
        let ghost cur0 = old(self).current as int;
        if self.is_at_end() {
            return ;
        }
        proof {
            lemma_not_eof_bound(t0, cur0);
        }
        self.advance();
        let ghost target = spec_synchronize(t0, cur0);
        proof {
            assert(target == spec_sync_loop(t0, cur0 + 1));
        }
        while !self.is_at_end()
            invariant
                parser_ok(*self),
                self.tokens == old(self).tokens,
                self.errors == old(self).errors,
                t0 == self.toks(),
                t0 == old(self).toks(),
                cur0 == old(self).current as int,
                1 <= (self.current as int) < t0.len(),
                cur0 <= self.current,
                target == spec_sync_loop(t0, self.current as int),
                target == spec_synchronize(t0, cur0),
            decreases t0.len() - self.current,
        {
            proof {
                crate::model::lemma_tokens_model_len(self.tokens@);
                crate::model::lemma_tokens_model_index(self.tokens@, self.current as int - 1);
                crate::model::lemma_tokens_model_index(self.tokens@, self.current as int);
                reveal(spec_sync_loop);
            }
            if self.tokens[self.current - 1].token_type == TokenType::Semicolon {
                return ;
            }
            let k = self.tokens[self.current].token_type;
            if k == TokenType::Class || k == TokenType::Fun || k == TokenType::Var || k
                == TokenType::For || k == TokenType::If || k == TokenType::While || k
                == TokenType::Print || k == TokenType::Return {
                return ;
            }
            proof {
                lemma_not_eof_bound(t0, self.current as int);
            }
            self.advance();
        }
        proof {
            reveal(spec_sync_loop);
        }
    }

    /// program: the declarations that parse, with panic-mode recovery
    /// realigning the stream after each failure; diagnostics collect in the
    /// error sink.
    #[verifier::rlimit(100)]
    #[verifier::spinoff_prover]
    pub fn parse(&mut self) -> (r: Vec<Statement>)
        requires
            parser_ok(*old(self)),
        ensures
            ({
                let o = spec_parse(old(self).toks(), old(self).current as int);
                &&& stmts_model(r@) == o.stmts
                &&& final(self).current as int == o.i
                &&& strings_model(final(self).errors@) == strings_model(old(self).errors@) + o.errs
            }),
            final(self).tokens == old(self).tokens,
            parser_ok(*final(self)),
    {
        proof {
            crate::model::lemma_tokens_model_len(self.tokens@);
            reveal(spec_parse);
        }
        let ghost t0 = old(self).toks();
        let ghost full = spec_parse(t0, old(self).current as int);
        let mut statements: Vec<Statement> = Vec::new();
        proof {
            assert(stmts_model(Seq::<Statement>::empty()) =~= Seq::<GStmt>::empty());
            assert(strings_model(self.errors@) =~= strings_model(old(self).errors@)
                + Seq::<Seq<char>>::empty());
        }
        while !self.is_at_end()
            invariant
                parser_ok(*self),
                self.tokens == old(self).tokens,
                t0 == self.toks(),
                full == spec_parse(t0, old(self).current as int),
                ({
                    let restr = spec_parse(t0, self.current as int);
                    &&& full.stmts == stmts_model(statements@) + restr.stmts
                    &&& full.i == restr.i
                    &&& strings_model(old(self).errors@) + full.errs == strings_model(
                        self.errors@,
                    ) + restr.errs
                }),
            decreases self.tokens@.len() - self.current,
        {
            proof {
                crate::model::lemma_tokens_model_len(self.tokens@);
                reveal(spec_parse);
            }
            let ghost curi = self.current as int;
            let ghost errs_before = strings_model(self.errors@);
            let ghost stmts_before = statements@;
            proof {
                crate::model::lemma_tokens_model_index(self.tokens@, curi);
            }
            match self.declaration() {
                Ok(st) => {
                    let ghost gst = stmt_model(st);
                    statements.push(st);
                    proof {
                        crate::model::lemma_stmts_model_push(stmts_before, statements@.last());
                        let d = spec_declaration(t0, curi);
                        let restr = spec_parse(t0, curi);
                        let restr2 = spec_parse(t0, self.current as int);
                        assert(restr.stmts == seq![gst] + restr2.stmts);
                        assert(stmts_model(stmts_before).push(gst) =~= stmts_model(stmts_before)
                            + seq![gst]);
                        assert((stmts_model(stmts_before) + seq![gst]) + restr2.stmts
                            =~= stmts_model(stmts_before) + (seq![gst] + restr2.stmts));
                        lemma_diag_concat_assoc(errs_before, d.errs, restr2.errs);
                        assert(strings_model(old(self).errors@) + full.errs =~= strings_model(
                            self.errors@,
                        ) + restr2.errs);
                    }
                },
                Err(x) => {
                    let ghost mid = self.current as int;
                    self.synchronize();
                    proof {
                        reveal(spec_synchronize);
                        reveal(spec_sync_loop);
                        let d = spec_declaration(t0, curi);
                        lemma_sync_bounds(t0, mid);
                        if mid == curi {
                            lemma_sync_loop_bounds(t0, curi + 1);
                        }
                        assert(curi < self.current as int);
                        let restr = spec_parse(t0, curi);
                        let restr2 = spec_parse(t0, self.current as int);
                        lemma_diag_concat_assoc(errs_before, d.errs, restr2.errs);
                        assert(strings_model(old(self).errors@) + full.errs =~= strings_model(
                            self.errors@,
                        ) + restr2.errs);
                    }
                },
            }
        }
        proof {
            reveal(spec_parse);
            crate::model::lemma_tokens_model_index(self.tokens@, self.current as int);
            let restr = spec_parse(t0, self.current as int);
            assert(restr.stmts =~= Seq::<GStmt>::empty());
            assert(restr.errs =~= Seq::<Seq<char>>::empty());
            assert(full.stmts =~= stmts_model(statements@));
            assert(strings_model(self.errors@) =~= strings_model(old(self).errors@) + full.errs);
        }
        statements
    }

    /// A single expression, for the expression-printing and single-
    /// expression evaluation commands; failures leave their diagnostics in
    /// the error sink.
    #[verifier::rlimit(100)]
    #[verifier::spinoff_prover]
    pub fn parse_expression(&mut self) -> (r: Option<Expr>)
        requires
            parser_ok(*old(self)),
        ensures
            ({
                let o = spec_expression(old(self).toks(), old(self).current as int);
                &&& (match (r, o.r) {
                    (Some(e), Ok(g)) => expr_model(e) == g,
                    (None, Err(y)) => true,
                    _ => false,
                })
                &&& final(self).current as int == o.i
                &&& strings_model(final(self).errors@) == strings_model(old(self).errors@) + o.errs
            }),
            final(self).tokens == old(self).tokens,
            parser_ok(*final(self)),
    {
        match self.expression() {
            Ok(e) => Some(e),
            Err(x) => None,
        }
    }

    /// expression: an assignment.
    pub fn expression(&mut self) -> (r: Result<Expr, ParseError>)
        requires
            parser_ok(*old(self)),
        ensures
            ({
                let o = spec_expression(old(self).toks(), old(self).current as int);
                &&& (match (r, o.r) {
                    (Ok(e), Ok(g)) => expr_model(e) == g,
                    (Err(x), Err(y)) => true,
                    _ => false,
                })
                &&& final(self).current as int == o.i
                &&& strings_model(final(self).errors@) == strings_model(old(self).errors@) + o.errs
            }),
            final(self).tokens == old(self).tokens,
            parser_ok(*final(self)),
            old(self).current <= final(self).current,
            r is Ok ==> old(self).current < final(self).current,
        decreases old(self).tokens@.len() - old(self).current, 51int,
    {
        proof {
            crate::model::lemma_tokens_model_len(self.tokens@);
            reveal(spec_expression);
            reveal(spec_assignment);
        }
        self.assignment()
    }
}

/// program: declarations until the EOF token; a failing declaration is
/// dropped and the stream realigned.
#[verifier::opaque]
pub open spec fn spec_parse(toks: Seq<GToken>, i: int) -> PProgram
    decreases toks.len() - i, 41int,
        when toks_wf(toks) && 0 <= i < toks.len()
{
    if toks[i].kind == TokenType::EOF {
        PProgram { stmts: Seq::empty(), i, errs: Seq::empty() }
    } else {
        let d = spec_declaration(toks, i);
        match d.r {
            Ok(g) => {
                if i < d.i < toks.len() {
                    let rest = spec_parse(toks, d.i);
                    PProgram {
                        stmts: seq![g] + rest.stmts,
                        i: rest.i,
                        errs: d.errs + rest.errs,
                    }
                } else {
                    PProgram { stmts: seq![g], i: d.i, errs: d.errs }
                }
            },
            Err(u) => {
                let si = if i <= d.i < toks.len() {
                    d.i
                } else {
                    i
                };
                let j2 = spec_synchronize(toks, si);
                if i < j2 < toks.len() {
                    let rest = spec_parse(toks, j2);
                    PProgram { stmts: rest.stmts, i: rest.i, errs: d.errs + rest.errs }
                } else {
                    PProgram { stmts: Seq::empty(), i: j2, errs: d.errs }
                }
            },
        }
    }
}

} // verus!
