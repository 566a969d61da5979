//! The evaluator: dynamically typed value semantics, short-circuit logical
//! operators, lexical scoping, and non-local returns caught at call
//! boundaries.
use crate::diag::{spec_nat_string, u64_to_string};
use crate::environment::{
    chain_assign, chain_lookup, define_bind, env_model, parents_wf, Environment, GBind, GFrame,
};
use crate::environment::spec_undefined_variable;
use crate::lox_callable::{LoxCallables, LoxFunction, NativeFn};
use crate::model::{
    lemma_stmts_model_index, lemma_stmts_model_len,
    expr_model, exprs_model, lemma_exprs_model_index, lemma_exprs_model_len,
    lemma_lexemes_model_index, lemma_lexemes_model_len, lemma_param_names_lexemes,
    lemma_strings_model_push, lemma_values_model_index, lemma_values_model_len,
    lemma_values_model_prepend, lexemes_model, param_names, stmt_model, stmts_model, strings_model,
    token_model, value_model, values_model, GCallable, GExpr, GStmt, GToken, GVal,
};
use crate::numeric::{
    add_bits, div_bits, ieee_eq_bits, ieee_le_bits, ieee_lt_bits, mul_bits, neg_bits, num_add,
    num_div, num_eq, num_le, num_lt, num_mul, num_neg, num_sub, number_to_string,
    spec_number_string, sub_bits,
};
use crate::expression::Expr;
use crate::statement::Statement;
use crate::token::{duplicate_value, LiteralType, Token, TokenType};
use vstd::prelude::*;
use vstd::string::StringExecFns;

verus! {

/// A runtime failure: the token it is reported at, and its message.
pub struct RuntimeError {
    pub token: Token,
    pub message: String,
}

impl RuntimeError {
    pub fn new(token: &Token, message: &str) -> (r: RuntimeError)
        ensures
            token_model(r.token) == token_model(*token),
            r.message@ == message@,
    {
        RuntimeError { token: token.duplicate(), message: message.to_owned() }
    }
}

/// The payload of a `return` statement in flight.
pub struct Return {
    pub value: Option<LiteralType>,
}

impl Return {
    pub fn new(value: Option<LiteralType>) -> (r: Return)
        ensures
            r.value == value,
    {
        Return { value }
    }
}

/// What unwinds statement execution: a genuine runtime error, a `return`
/// travelling to the nearest call boundary, or exhaustion of the step
/// budget the evaluator was given.
pub enum RuntimeException {
    RuntimeError(RuntimeError),
    Return(Return),
    Exhausted,
}

/// Model of a runtime exception.
pub ghost enum GExc {
    Failure { token: GToken, message: Seq<char> },
    Ret(Option<GVal>),
    Stop,
}

/// Model of a runtime exception value.
pub open spec fn exc_model(e: RuntimeException) -> GExc {
    match e {
        RuntimeException::RuntimeError(e) => GExc::Failure {
            token: token_model(e.token),
            message: e.message@,
        },
        RuntimeException::Return(r) => GExc::Ret(value_model(r.value)),
        RuntimeException::Exhausted => GExc::Stop,
    }
}

/// Model of an evaluation result.
pub open spec fn eval_result_model(r: Result<Option<LiteralType>, RuntimeException>) -> Result<
    Option<GVal>,
    GExc,
> {
    match r {
        Ok(v) => Ok(value_model(v)),
        Err(e) => Err(exc_model(e)),
    }
}

/// Model of an execution result.
pub open spec fn exec_result_model(r: Result<(), RuntimeException>) -> Result<(), GExc> {
    match r {
        Ok(u) => Ok(u),
        Err(e) => Err(exc_model(e)),
    }
}

/// Model of the evaluator's state: the frame store, the current frame, the
/// lines printed so far, and the one host clock reading that every call of
/// the `clock` intrinsic reports.
pub ghost struct GState {
    pub frames: Seq<GFrame>,
    pub env: int,
    pub output: Seq<Seq<char>>,
    pub clock: u64,
}

/// A state whose frame chain is acyclic and whose current frame exists.
pub open spec fn st_ok(st: GState) -> bool {
    &&& parents_wf(st.frames)
    &&& 0 <= st.env < st.frames.len()
}

/// A runtime failure at a token.
pub open spec fn fail(token: GToken, message: Seq<char>) -> GExc {
    GExc::Failure { token, message }
}

/// Truthiness: `false` and nil are falsey; every other value is truthy.
pub open spec fn truthy(v: Option<GVal>) -> bool {
    match v {
        None => false,
        Some(GVal::Bool(b)) => b,
        _ => true,
    }
}

/// Dynamic equality: values of different variants are never equal, nil
/// equals only nil, numbers compare as IEEE-754 values, strings by their
/// characters, and callables by name, parameters, body and captured frame.
pub open spec fn gval_eq(a: Option<GVal>, b: Option<GVal>) -> bool {
    match (a, b) {
        (None, None) => true,
        (Some(GVal::Str(x)), Some(GVal::Str(y))) => x == y,
        (Some(GVal::Num(x)), Some(GVal::Num(y))) => ieee_eq_bits(x, y),
        (Some(GVal::Bool(x)), Some(GVal::Bool(y))) => x == y,
        (Some(GVal::Callable(x)), Some(GVal::Callable(y))) => x == y,
        _ => false,
    }
}

/// How a value prints: `nil`, bare booleans, `nan`/`inf`/`-inf` or the
/// decimal digits for numbers, raw characters for strings, `<fn NAME>` for
/// user functions and `<native fn>` for intrinsics.
pub open spec fn spec_stringify(v: Option<GVal>) -> Seq<char> {
    match v {
        None => "nil"@,
        Some(GVal::Str(s)) => s,
        Some(GVal::Bool(b)) => if b {
            "true"@
        } else {
            "false"@
        },
        Some(GVal::Num(n)) => spec_number_string(n),
        Some(GVal::Callable(GCallable::Fun { name, .. })) => "<fn "@ + name + ">"@,
        Some(GVal::Callable(GCallable::Clock)) => "<native fn>"@,
    }
}

/// The number of arguments a callable accepts.
pub open spec fn gcallable_arity(c: GCallable) -> nat {
    match c {
        GCallable::Fun { params, .. } => params.len(),
        GCallable::Clock => 0,
    }
}

/// The message of an arity failure.
pub open spec fn spec_arity_message(arity: nat, got: nat) -> Seq<char> {
    "Expected "@ + spec_nat_string(arity) + " arguments but got "@ + spec_nat_string(got) + "."@
}

/// Parameters bound to arguments by position, by successive `define`s.
pub open spec fn bind_args(
    binds: Seq<GBind>,
    params: Seq<Seq<char>>,
    args: Seq<Option<GVal>>,
) -> Seq<GBind>
    decreases params.len(),
{
    if params.len() == 0 {
        binds
    } else {
        bind_args(define_bind(binds, params[0], args[0]), params.drop_first(), args.drop_first())
    }
}

/// Binding one more parameter defines it into the result of binding the
/// others.
pub proof fn lemma_bind_args_snoc(
    binds: Seq<GBind>,
    params: Seq<Seq<char>>,
    args: Seq<Option<GVal>>,
    p: Seq<char>,
    v: Option<GVal>,
)
    requires
        params.len() == args.len(),
    ensures
        bind_args(binds, params.push(p), args.push(v)) == define_bind(
            bind_args(binds, params, args),
            p,
            v,
        ),
    decreases params.len(),
{
    if params.len() == 0 {
        assert(params.push(p)[0] == p);
        assert(args.push(v)[0] == v);
        assert(params.push(p).drop_first() =~= Seq::<Seq<char>>::empty());
        assert(args.push(v).drop_first() =~= Seq::<Option<GVal>>::empty());
        assert(bind_args(binds, params, args) == binds);
        assert(bind_args(binds, params.push(p), args.push(v)) == bind_args(
            define_bind(binds, p, v),
            params.push(p).drop_first(),
            args.push(v).drop_first(),
        ));
        assert(bind_args(
            define_bind(binds, p, v),
            params.push(p).drop_first(),
            args.push(v).drop_first(),
        ) == define_bind(binds, p, v));
    } else {
        assert(params.push(p)[0] == params[0]);
        assert(args.push(v)[0] == args[0]);
        assert(params.push(p).drop_first() =~= params.drop_first().push(p));
        assert(args.push(v).drop_first() =~= args.drop_first().push(v));
        lemma_bind_args_snoc(
            define_bind(binds, params[0], args[0]),
            params.drop_first(),
            args.drop_first(),
            p,
            v,
        );
        assert(bind_args(binds, params.push(p), args.push(v)) == bind_args(
            define_bind(binds, params[0], args[0]),
            params.drop_first().push(p),
            args.drop_first().push(v),
        ));
        assert(bind_args(binds, params, args) == bind_args(
            define_bind(binds, params[0], args[0]),
            params.drop_first(),
            args.drop_first(),
        ));
    }
}

/// What evaluating an infix operator's two operand values gives: arithmetic
/// and comparisons demand numbers, `+` also concatenates two strings,
/// `==`/`!=` use dynamic equality, and division by zero is an IEEE-754
/// infinity or NaN, not an error.
pub open spec fn binary_result(op: GToken, l: Option<GVal>, r: Option<GVal>) -> Result<
    Option<GVal>,
    GExc,
> {
    match op.kind {
        TokenType::Star => match (l, r) {
            (Some(GVal::Num(a)), Some(GVal::Num(b))) => Ok(Some(GVal::Num(mul_bits(a, b)))),
            _ => Err(fail(op, "Operand must be a number."@)),
        },
        TokenType::Slash => match (l, r) {
            (Some(GVal::Num(a)), Some(GVal::Num(b))) => Ok(Some(GVal::Num(div_bits(a, b)))),
            _ => Err(fail(op, "Operand must be a number."@)),
        },
        TokenType::Minus => match (l, r) {
            (Some(GVal::Num(a)), Some(GVal::Num(b))) => Ok(Some(GVal::Num(sub_bits(a, b)))),
            _ => Err(fail(op, "Operand must be a number."@)),
        },
        TokenType::Plus => match (l, r) {
            (Some(GVal::Num(a)), Some(GVal::Num(b))) => Ok(Some(GVal::Num(add_bits(a, b)))),
            (Some(GVal::Str(a)), Some(GVal::Str(b))) => Ok(Some(GVal::Str(a + b))),
            _ => Err(fail(op, "Operands must be two numbers or two strings."@)),
        },
        TokenType::Greater => match (l, r) {
            (Some(GVal::Num(a)), Some(GVal::Num(b))) => Ok(Some(GVal::Bool(ieee_lt_bits(b, a)))),
            _ => Err(fail(op, "Operand must be a number."@)),
        },
        TokenType::GreaterEqual => match (l, r) {
            (Some(GVal::Num(a)), Some(GVal::Num(b))) => Ok(Some(GVal::Bool(ieee_le_bits(b, a)))),
            _ => Err(fail(op, "Operand must be a number."@)),
        },
        TokenType::Less => match (l, r) {
            (Some(GVal::Num(a)), Some(GVal::Num(b))) => Ok(Some(GVal::Bool(ieee_lt_bits(a, b)))),
            _ => Err(fail(op, "Operand must be a number."@)),
        },
        TokenType::LessEqual => match (l, r) {
            (Some(GVal::Num(a)), Some(GVal::Num(b))) => Ok(Some(GVal::Bool(ieee_le_bits(a, b)))),
            _ => Err(fail(op, "Operand must be a number."@)),
        },
        TokenType::EqualEqual => Ok(Some(GVal::Bool(gval_eq(l, r)))),
        TokenType::BangEqual => Ok(Some(GVal::Bool(!gval_eq(l, r)))),
        _ => Err(fail(op, "Invalid operator when evaluating binary."@)),
    }
}

/// What evaluating a prefix operator's operand value gives: `-` demands a
/// number and negates it; `!` negates truthiness.
pub open spec fn unary_result(op: GToken, v: Option<GVal>) -> Result<Option<GVal>, GExc> {
    match op.kind {
        TokenType::Minus => match v {
            Some(GVal::Num(n)) => Ok(Some(GVal::Num(neg_bits(n)))),
            _ => Err(fail(op, "Operand must be a number."@)),
        },
        TokenType::Bang => Ok(Some(GVal::Bool(!truthy(v)))),
        _ => Ok(None),
    }
}

/// The big-step semantics of expression evaluation, with `fuel` bounding
/// how many function calls and loop iterations may still happen.
pub open spec fn spec_eval(e: GExpr, st: GState, fuel: nat) -> (Result<Option<GVal>, GExc>, GState)
    decreases fuel, e, 0int,
{
    match e {
        GExpr::Literal(v) => (Ok(v), st),
        GExpr::Grouping(g) => spec_eval(*g, st, fuel),
        GExpr::Unary(op, r) => {
            let (rr, st1) = spec_eval(*r, st, fuel);
            match rr {
                Err(x) => (Err(x), st1),
                Ok(v) => (unary_result(op, v), st1),
            }
        },
        GExpr::Binary(l, op, r) => {
            let (lr, st1) = spec_eval(*l, st, fuel);
            match lr {
                Err(x) => (Err(x), st1),
                Ok(lv) => {
                    let (rr, st2) = spec_eval(*r, st1, fuel);
                    match rr {
                        Err(x) => (Err(x), st2),
                        Ok(rv) => (binary_result(op, lv, rv), st2),
                    }
                },
            }
        },
        GExpr::Variable(name) => match chain_lookup(st.frames, st.env, name.lexeme) {
            Some(v) => (Ok(v), st),
            None => (Err(fail(name, spec_undefined_variable(name.lexeme))), st),
        },
        GExpr::Assign(name, value) => {
            let (vr, st1) = spec_eval(*value, st, fuel);
            match vr {
                Err(x) => (Err(x), st1),
                Ok(v) => match chain_assign(st1.frames, st1.env, name.lexeme, v) {
                    Some(frames2) => (Ok(v), GState { frames: frames2, ..st1 }),
                    None => (Err(fail(name, spec_undefined_variable(name.lexeme))), st1),
                },
            }
        },
        GExpr::Logical(l, op, r) => {
            let (lr, st1) = spec_eval(*l, st, fuel);
            match lr {
                Err(x) => (Err(x), st1),
                Ok(lv) => {
                    if op.kind == TokenType::Or {
                        if truthy(lv) {
                            (Ok(lv), st1)
                        } else {
                            spec_eval(*r, st1, fuel)
                        }
                    } else if op.kind == TokenType::And {
                        if !truthy(lv) {
                            (Ok(lv), st1)
                        } else {
                            spec_eval(*r, st1, fuel)
                        }
                    } else {
                        (Err(fail(op, "Invalid operator when evaluating logical."@)), st1)
                    }
                },
            }
        },
        GExpr::Call(callee, paren, args) => {
            let (cr, st1) = spec_eval(*callee, st, fuel);
            match cr {
                Err(x) => (Err(x), st1),
                Ok(cv) => {
                    let (ar, st2) = spec_eval_args(args, st1, fuel);
                    match ar {
                        Err(x) => (Err(x), st2),
                        Ok(argv) => match cv {
                            Some(GVal::Callable(c)) => {
                                if argv.len() != gcallable_arity(c) {
                                    (
                                        Err(
                                            fail(
                                                paren,
                                                spec_arity_message(gcallable_arity(c), argv.len()),
                                            ),
                                        ),
                                        st2,
                                    )
                                } else {
                                    match c {
                                        GCallable::Clock => (Ok(Some(GVal::Num(st2.clock))), st2),
                                        GCallable::Fun { name, params, body, env } => {
                                            if !(0 <= env < st2.frames.len()) {
                                                (
                                                    Err(
                                                        fail(
                                                            paren,
                                                            "Can only call functions and classes."@,
                                                        ),
                                                    ),
                                                    st2,
                                                )
                                            } else if fuel == 0 {
                                                (Err(GExc::Stop), st2)
                                            } else {
                                                let fidx = st2.frames.len() as int;
                                                let frames3 = st2.frames.push(
                                                    GFrame {
                                                        enclosing: Some(env),
                                                        binds: bind_args(Seq::empty(), params, argv),
                                                    },
                                                );
                                                let st3 = GState { frames: frames3, ..st2 };
                                                let (r, st4) = spec_exec_block(
                                                    body,
                                                    fidx,
                                                    st3,
                                                    (fuel - 1) as nat,
                                                );
                                                match r {
                                                    Ok(u) => (Ok(None), st4),
                                                    Err(GExc::Ret(v)) => (Ok(v), st4),
                                                    Err(x) => (Err(x), st4),
                                                }
                                            }
                                        },
                                    }
                                }
                            },
                            _ => (Err(fail(paren, "Can only call functions and classes."@)), st2),
                        },
                    }
                },
            }
        },
    }
}

/// The semantics of evaluating an argument list left to right.
pub open spec fn spec_eval_args(es: Seq<GExpr>, st: GState, fuel: nat) -> (Result<
    Seq<Option<GVal>>,
    GExc,
>, GState)
    decreases fuel, es, 1int,
{
    if es.len() == 0 {
        (Ok(Seq::empty()), st)
    } else {
        let (r, st1) = spec_eval(es[0], st, fuel);
        match r {
            Err(x) => (Err(x), st1),
            Ok(v) => {
                let (rr, st2) = spec_eval_args(es.drop_first(), st1, fuel);
                match rr {
                    Err(x) => (Err(x), st2),
                    Ok(vs) => (Ok(seq![v] + vs), st2),
                }
            },
        }
    }
}

/// The big-step semantics of statement execution.
pub open spec fn spec_exec(s: GStmt, st: GState, fuel: nat) -> (Result<(), GExc>, GState)
    decreases fuel, s, 0int,
{
    match s {
        GStmt::Print(e) => {
            let (r, st1) = spec_eval(*e, st, fuel);
            match r {
                Err(x) => (Err(x), st1),
                Ok(v) => (Ok(()), GState { output: st1.output.push(spec_stringify(v)), ..st1 }),
            }
        },
        GStmt::Expression(e) => {
            let (r, st1) = spec_eval(*e, st, fuel);
            match r {
                Err(x) => (Err(x), st1),
                Ok(v) => (Ok(()), st1),
            }
        },
        GStmt::Var(name, init) => {
            let (r, st1) = match init {
                Some(e) => spec_eval(*e, st, fuel),
                None => (Ok(None), st),
            };
            match r {
                Err(x) => (Err(x), st1),
                Ok(v) => (Ok(()), define_in_current(st1, name.lexeme, v)),
            }
        },
        GStmt::Block(ss) => {
            let fidx = st.frames.len() as int;
            let frames1 = st.frames.push(GFrame { enclosing: Some(st.env), binds: Seq::empty() });
            let st1 = GState { frames: frames1, ..st };
            spec_exec_block(ss, fidx, st1, fuel)
        },
        GStmt::If(c, t, els) => {
            let (r, st1) = spec_eval(*c, st, fuel);
            match r {
                Err(x) => (Err(x), st1),
                Ok(v) => {
                    if truthy(v) {
                        spec_exec(*t, st1, fuel)
                    } else {
                        match els {
                            Some(s2) => spec_exec(*s2, st1, fuel),
                            None => (Ok(()), st1),
                        }
                    }
                },
            }
        },
        GStmt::While(c, b) => {
            let (r, st1) = spec_eval(*c, st, fuel);
            match r {
                Err(x) => (Err(x), st1),
                Ok(v) => {
                    if !truthy(v) {
                        (Ok(()), st1)
                    } else {
                        let (r2, st2) = spec_exec(*b, st1, fuel);
                        match r2 {
                            Err(x) => (Err(x), st2),
                            Ok(u) => {
                                if fuel == 0 {
                                    (Err(GExc::Stop), st2)
                                } else {
                                    spec_exec(s, st2, (fuel - 1) as nat)
                                }
                            },
                        }
                    }
                },
            }
        },
        GStmt::Function { name, params, body } => {
            let v = Some(
                GVal::Callable(
                    GCallable::Fun {
                        name: name.lexeme,
                        params: param_names(params),
                        body,
                        env: st.env,
                    },
                ),
            );
            (Ok(()), define_in_current(st, name.lexeme, v))
        },
        GStmt::Return(kw, value) => {
            let (r, st1) = match value {
                Some(e) => spec_eval(*e, st, fuel),
                None => (Ok(None), st),
            };
            match r {
                Err(x) => (Err(x), st1),
                Ok(v) => (Err(GExc::Ret(v)), st1),
            }
        },
    }
}

/// The state after `define(name, v)` in the current frame.
pub open spec fn define_in_current(st: GState, name: Seq<char>, v: Option<GVal>) -> GState {
    GState {
        frames: st.frames.update(
            st.env,
            GFrame {
                enclosing: st.frames[st.env].enclosing,
                binds: define_bind(st.frames[st.env].binds, name, v),
            },
        ),
        ..st
    }
}

/// The semantics of executing a statement list in order, stopping at the
/// first exception.
pub open spec fn spec_exec_seq(ss: Seq<GStmt>, st: GState, fuel: nat) -> (Result<(), GExc>, GState)
    decreases fuel, ss, 1int,
{
    if ss.len() == 0 {
        (Ok(()), st)
    } else {
        let (r, st1) = spec_exec(ss[0], st, fuel);
        match r {
            Err(x) => (Err(x), st1),
            Ok(u) => spec_exec_seq(ss.drop_first(), st1, fuel),
        }
    }
}

/// The semantics of a block body: run the statements with `env2` as the
/// current frame, and restore the caller's current frame on every path.
pub open spec fn spec_exec_block(ss: Seq<GStmt>, env2: int, st: GState, fuel: nat) -> (Result<
    (),
    GExc,
>, GState)
    decreases fuel, ss, 2int,
{
    let st1 = GState { env: env2, ..st };
    let (r, st2) = spec_exec_seq(ss, st1, fuel);
    (r, GState { env: st.env, ..st2 })
}

/// Evaluating an expression leaves the current frame as it was: every
/// block entered and every call made on the way restores it on exit, on
/// every control path.
///
/// Law: expression evaluation preserves the current-frame identity.
pub proof fn lemma_eval_preserves_env(e: GExpr, st: GState, fuel: nat)
    ensures
        spec_eval(e, st, fuel).1.env == st.env,
    decreases fuel, e, 0int,
{
    match e {
        GExpr::Literal(v) => {},
        GExpr::Grouping(g) => {
            lemma_eval_preserves_env(*g, st, fuel);
        },
        GExpr::Unary(op, r) => {
            lemma_eval_preserves_env(*r, st, fuel);
        },
        GExpr::Binary(l, op, r) => {
            lemma_eval_preserves_env(*l, st, fuel);
            let o1 = spec_eval(*l, st, fuel);
            if o1.0 is Ok {
                lemma_eval_preserves_env(*r, o1.1, fuel);
            }
        },
        GExpr::Variable(name) => {},
        GExpr::Assign(name, value) => {
            lemma_eval_preserves_env(*value, st, fuel);
        },
        GExpr::Logical(l, op, r) => {
            lemma_eval_preserves_env(*l, st, fuel);
            let o1 = spec_eval(*l, st, fuel);
            if o1.0 is Ok {
                lemma_eval_preserves_env(*r, o1.1, fuel);
            }
        },
        GExpr::Call(callee, paren, args) => {
            lemma_eval_preserves_env(*callee, st, fuel);
            let o1 = spec_eval(*callee, st, fuel);
            if o1.0 is Ok {
                lemma_eval_args_preserves_env(args, o1.1, fuel);
                let o2 = spec_eval_args(args, o1.1, fuel);
                if o2.0 is Ok {
                    match o1.0->Ok_0 {
                        Some(GVal::Callable(c)) => match c {
                            GCallable::Fun { name, params, body, env } => {
                                let argv = o2.0->Ok_0;
                                if argv.len() == params.len() && 0 <= env < o2.1.frames.len()
                                    && fuel != 0 {
                                    let fidx = o2.1.frames.len() as int;
                                    let frames3 = o2.1.frames.push(
                                        GFrame {
                                            enclosing: Some(env),
                                            binds: bind_args(Seq::empty(), params, argv),
                                        },
                                    );
                                    let st3 = GState { frames: frames3, ..o2.1 };
                                    assert(spec_exec_block(body, fidx, st3, (fuel - 1) as nat).1.env
                                        == st3.env);
                                }
                            },
                            GCallable::Clock => {},
                        },
                        _ => {},
                    }
                }
            }
        },
    }
}

/// Evaluating an argument list leaves the current frame as it was.
///
/// Law: argument evaluation preserves the current-frame identity.
pub proof fn lemma_eval_args_preserves_env(es: Seq<GExpr>, st: GState, fuel: nat)
    ensures
        spec_eval_args(es, st, fuel).1.env == st.env,
    decreases fuel, es, 1int,
{
    if es.len() != 0 {
        lemma_eval_preserves_env(es[0], st, fuel);
        let o1 = spec_eval(es[0], st, fuel);
        if o1.0 is Ok {
            lemma_eval_args_preserves_env(es.drop_first(), o1.1, fuel);
        }
    }
}

/// Executing a statement leaves the current frame as it was, whether it
/// completes normally, raises a runtime error, or returns: block and call
/// execution restore the frame on every exit path.
///
/// Law: statement execution preserves the current-frame identity.
pub proof fn lemma_exec_preserves_env(s: GStmt, st: GState, fuel: nat)
    ensures
        spec_exec(s, st, fuel).1.env == st.env,
    decreases fuel, s, 0int,
{
    match s {
        GStmt::Print(e) => {
            lemma_eval_preserves_env(*e, st, fuel);
        },
        GStmt::Expression(e) => {
            lemma_eval_preserves_env(*e, st, fuel);
        },
        GStmt::Var(name, init) => {
            match init {
                Some(e) => {
                    lemma_eval_preserves_env(*e, st, fuel);
                },
                None => {},
            }
        },
        GStmt::Block(ss) => {
            let fidx = st.frames.len() as int;
            let frames1 = st.frames.push(GFrame { enclosing: Some(st.env), binds: Seq::empty() });
            let st1 = GState { frames: frames1, ..st };
            assert(spec_exec_block(ss, fidx, st1, fuel).1.env == st1.env);
        },
        GStmt::If(c, t, els) => {
            lemma_eval_preserves_env(*c, st, fuel);
            let o1 = spec_eval(*c, st, fuel);
            if o1.0 is Ok {
                if truthy(o1.0->Ok_0) {
                    lemma_exec_preserves_env(*t, o1.1, fuel);
                } else {
                    match els {
                        Some(s2) => {
                            lemma_exec_preserves_env(*s2, o1.1, fuel);
                        },
                        None => {},
                    }
                }
            }
        },
        GStmt::While(c, b) => {
            lemma_eval_preserves_env(*c, st, fuel);
            let o1 = spec_eval(*c, st, fuel);
            if o1.0 is Ok && truthy(o1.0->Ok_0) {
                lemma_exec_preserves_env(*b, o1.1, fuel);
                let o2 = spec_exec(*b, o1.1, fuel);
                if o2.0 is Ok && fuel != 0 {
                    lemma_exec_preserves_env(s, o2.1, (fuel - 1) as nat);
                }
            }
        },
        GStmt::Function { name, params, body } => {},
        GStmt::Return(kw, value) => {
            match value {
                Some(e) => {
                    lemma_eval_preserves_env(*e, st, fuel);
                },
                None => {},
            }
        },
    }
}

/// Executing a statement list leaves the current frame as it was.
///
/// Law: program execution preserves the current-frame identity.
pub proof fn lemma_exec_seq_preserves_env(ss: Seq<GStmt>, st: GState, fuel: nat)
    ensures
        spec_exec_seq(ss, st, fuel).1.env == st.env,
    decreases fuel, ss, 1int,
{
    if ss.len() != 0 {
        lemma_exec_preserves_env(ss[0], st, fuel);
        let o1 = spec_exec(ss[0], st, fuel);
        if o1.0 is Ok {
            lemma_exec_seq_preserves_env(ss.drop_first(), o1.1, fuel);
        }
    }
}

/// Model of an argument-list evaluation result.
pub open spec fn args_result_model(r: Result<Vec<Option<LiteralType>>, RuntimeException>) -> Result<
    Seq<Option<GVal>>,
    GExc,
> {
    match r {
        Ok(vs) => Ok(values_model(vs@)),
        Err(e) => Err(exc_model(e)),
    }
}

/// Whether two values are equal under the language's dynamic equality.
pub fn values_equal(a: &Option<LiteralType>, b: &Option<LiteralType>) -> (r: bool)
    ensures
        r == gval_eq(value_model(*a), value_model(*b)),
{
    match (a, b) {
        (None, None) => true,
        (Some(LiteralType::String(x)), Some(LiteralType::String(y))) => *x == *y,
        (Some(LiteralType::Number(x)), Some(LiteralType::Number(y))) => num_eq(*x, *y),
        (Some(LiteralType::Boolean(x)), Some(LiteralType::Boolean(y))) => *x == *y,
        (Some(LiteralType::LoxCallable(x)), Some(LiteralType::LoxCallable(y))) => x.same_as(y),
        _ => false,
    }
}

/// What a prefix operator gives on an operand value.
fn apply_unary(op: &Token, v: Option<LiteralType>) -> (r: Result<
    Option<LiteralType>,
    RuntimeException,
>)
    ensures
        eval_result_model(r) == unary_result(token_model(*op), value_model(v)),
{
    match op.token_type {
        TokenType::Minus => match v {
            Some(LiteralType::Number(n)) => Ok(Some(LiteralType::Number(num_neg(n)))),
            _ => Err(
                RuntimeException::RuntimeError(RuntimeError::new(op, "Operand must be a number.")),
            ),
        },
        TokenType::Bang => {
            let t = match &v {
                None => false,
                Some(LiteralType::Boolean(b)) => *b,
                _ => true,
            };
            Ok(Some(LiteralType::Boolean(!t)))
        },
        _ => Ok(None),
    }
}

/// What an infix operator gives on two operand values.
fn apply_binary(op: &Token, l: Option<LiteralType>, r: Option<LiteralType>) -> (out: Result<
    Option<LiteralType>,
    RuntimeException,
>)
    ensures
        eval_result_model(out) == binary_result(token_model(*op), value_model(l), value_model(r)),
{
    match op.token_type {
        TokenType::Star => match (l, r) {
            (Some(LiteralType::Number(a)), Some(LiteralType::Number(b))) => Ok(
                Some(LiteralType::Number(num_mul(a, b))),
            ),
            _ => Err(
                RuntimeException::RuntimeError(RuntimeError::new(op, "Operand must be a number.")),
            ),
        },
        TokenType::Slash => match (l, r) {
            (Some(LiteralType::Number(a)), Some(LiteralType::Number(b))) => Ok(
                Some(LiteralType::Number(num_div(a, b))),
            ),
            _ => Err(
                RuntimeException::RuntimeError(RuntimeError::new(op, "Operand must be a number.")),
            ),
        },
        TokenType::Minus => match (l, r) {
            (Some(LiteralType::Number(a)), Some(LiteralType::Number(b))) => Ok(
                Some(LiteralType::Number(num_sub(a, b))),
            ),
            _ => Err(
                RuntimeException::RuntimeError(RuntimeError::new(op, "Operand must be a number.")),
            ),
        },
        TokenType::Plus => match (l, r) {
            (Some(LiteralType::Number(a)), Some(LiteralType::Number(b))) => Ok(
                Some(LiteralType::Number(num_add(a, b))),
            ),
            (Some(LiteralType::String(a)), Some(LiteralType::String(b))) => Ok(
                Some(LiteralType::String(a.concat(b.as_str()))),
            ),
            _ => Err(
                RuntimeException::RuntimeError(
                    RuntimeError::new(op, "Operands must be two numbers or two strings."),
                ),
            ),
        },
        TokenType::Greater => match (l, r) {
            (Some(LiteralType::Number(a)), Some(LiteralType::Number(b))) => Ok(
                Some(LiteralType::Boolean(num_lt(b, a))),
            ),
            _ => Err(
                RuntimeException::RuntimeError(RuntimeError::new(op, "Operand must be a number.")),
            ),
        },
        TokenType::GreaterEqual => match (l, r) {
            (Some(LiteralType::Number(a)), Some(LiteralType::Number(b))) => Ok(
                Some(LiteralType::Boolean(num_le(b, a))),
            ),
            _ => Err(
                RuntimeException::RuntimeError(RuntimeError::new(op, "Operand must be a number.")),
            ),
        },
        TokenType::Less => match (l, r) {
            (Some(LiteralType::Number(a)), Some(LiteralType::Number(b))) => Ok(
                Some(LiteralType::Boolean(num_lt(a, b))),
            ),
            _ => Err(
                RuntimeException::RuntimeError(RuntimeError::new(op, "Operand must be a number.")),
            ),
        },
        TokenType::LessEqual => match (l, r) {
            (Some(LiteralType::Number(a)), Some(LiteralType::Number(b))) => Ok(
                Some(LiteralType::Boolean(num_le(a, b))),
            ),
            _ => Err(
                RuntimeException::RuntimeError(RuntimeError::new(op, "Operand must be a number.")),
            ),
        },
        TokenType::EqualEqual => Ok(Some(LiteralType::Boolean(values_equal(&l, &r)))),
        TokenType::BangEqual => Ok(Some(LiteralType::Boolean(!values_equal(&l, &r)))),
        _ => Err(
            RuntimeException::RuntimeError(
                RuntimeError::new(op, "Invalid operator when evaluating binary."),
            ),
        ),
    }
}

/// The evaluator: the frame store, the index of the current frame, the
/// lines printed so far, and the clock reading handed to `clock`.
pub struct Interpreter {
    pub globals: usize,
    pub environment: usize,
    pub store: Environment,
    pub output: Vec<String>,
    pub clock_bits: u64,
}

/// Model of the evaluator's state.
pub open spec fn state_model(i: Interpreter) -> GState {
    GState {
        frames: env_model(i.store),
        env: i.environment as int,
        output: strings_model(i.output@),
        clock: i.clock_bits,
    }
}

impl Interpreter {
    /// A fresh interpreter: one global frame holding the `clock` intrinsic.
    /// `clock_bits` is the binary64 pattern of seconds since the Unix
    /// epoch, read by the host when the interpreter is created; every call
    /// of `clock` reports this one reading, so a program cannot observe
    /// time passing within a run (a per-call host read has no place in the
    /// evaluator's deterministic model).
    pub fn new(clock_bits: u64) -> (r: Interpreter)
        ensures
            state_model(r) == (GState {
                frames: seq![
                    GFrame {
                        enclosing: None,
                        binds: seq![
                            GBind {
                                name: "clock"@,
                                value: Some(GVal::Callable(GCallable::Clock)),
                            },
                        ],
                    },
                ],
                env: 0int,
                output: Seq::empty(),
                clock: clock_bits,
            }),
            st_ok(state_model(r)),
    {
        let mut store = Environment::new();
        store.define(
            0,
            String::from_str("clock"),
            Some(LiteralType::LoxCallable(LoxCallables::Native(NativeFn::Clock))),
        );
        let r = Interpreter {
            globals: 0,
            environment: 0,
            store,
            output: Vec::new(),
            clock_bits,
        };
        proof {
            let m = state_model(r);
            assert(m.frames =~= seq![
                GFrame {
                    enclosing: None,
                    binds: seq![
                        GBind { name: "clock"@, value: Some(GVal::Callable(GCallable::Clock)) },
                    ],
                },
            ]);
            assert(m.output =~= Seq::<Seq<char>>::empty());
        }
        r
    }

    /// Truthiness of a value.
    pub fn is_truthy(&self, value: &Option<LiteralType>) -> (r: bool)
        ensures
            r == truthy(value_model(*value)),
    {
        match value {
            None => false,
            Some(LiteralType::Boolean(b)) => *b,
            _ => true,
        }
    }

    /// The printed form of a value.
    pub fn stringify(&self, value: &Option<LiteralType>) -> (r: String)
        ensures
            r@ == spec_stringify(value_model(*value)),
    {
        match value {
            None => String::from_str("nil"),
            Some(LiteralType::String(s)) => s.clone(),
            Some(LiteralType::Boolean(b)) => if *b {
                String::from_str("true")
            } else {
                String::from_str("false")
            },
            Some(LiteralType::Number(n)) => number_to_string(*n),
            Some(LiteralType::LoxCallable(LoxCallables::LoxFunction(f))) => {
                let mut s = String::from_str("<fn ");
                s.append(f.declaration.name.lexeme.as_str());
                s.append(">");
                proof {
                    assert(s@ =~= "<fn "@ + f.declaration.name.lexeme@ + ">"@);
                }
                s
            },
            Some(LiteralType::LoxCallable(LoxCallables::Native(NativeFn::Clock))) => String::from_str(
                "<native fn>",
            ),
        }
    }

    /// Evaluate one expression, as `spec_eval` describes.
    fn evaluate(&mut self, expression: &Expr, fuel: u64) -> (r: Result<
        Option<LiteralType>,
        RuntimeException,
    >)
        requires
            st_ok(state_model(*old(self))),
        ensures
            ({
                let o = spec_eval(expr_model(*expression), state_model(*old(self)), fuel as nat);
                &&& eval_result_model(r) == o.0
                &&& state_model(*final(self)) == o.1
            }),
            st_ok(state_model(*final(self))),
            state_model(*final(self)).frames.len() >= state_model(*old(self)).frames.len(),
        decreases fuel, *expression, 0int,
    {
        match expression {
            Expr::Literal(l) => Ok(duplicate_value(&l.value)),
            Expr::Grouping(g) => self.evaluate(&g.expression, fuel),
            Expr::Unary(u) => {
                let right = match self.evaluate(&u.right, fuel) {
                    Ok(v) => v,
                    Err(e) => {
                        return Err(e);
                    },
                };
                apply_unary(&u.operator, right)
            },
            Expr::Binary(b) => {
                let left = match self.evaluate(&b.left, fuel) {
                    Ok(v) => v,
                    Err(e) => {
                        return Err(e);
                    },
                };
                let right = match self.evaluate(&b.right, fuel) {
                    Ok(v) => v,
                    Err(e) => {
                        return Err(e);
                    },
                };
                apply_binary(&b.operator, left, right)
            },
            Expr::Variable(v) => match self.store.get(self.environment, &v.name) {
                Ok(value) => Ok(value),
                Err(e) => Err(RuntimeException::RuntimeError(e)),
            },
            Expr::Assign(a) => {
                let value = match self.evaluate(&a.value, fuel) {
                    Ok(v) => v,
                    Err(e) => {
                        return Err(e);
                    },
                };
                match self.store.assign(self.environment, &a.name, duplicate_value(&value)) {
                    Ok(u) => Ok(value),
                    Err(e) => Err(RuntimeException::RuntimeError(e)),
                }
            },
            Expr::Logical(l) => {
                let left = match self.evaluate(&l.left, fuel) {
                    Ok(v) => v,
                    Err(e) => {
                        return Err(e);
                    },
                };
                let left_truthy = self.is_truthy(&left);
                if l.operator.token_type == TokenType::Or {
                    if left_truthy {
                        Ok(left)
                    } else {
                        self.evaluate(&l.right, fuel)
                    }
                } else if l.operator.token_type == TokenType::And {
                    if !left_truthy {
                        Ok(left)
                    } else {
                        self.evaluate(&l.right, fuel)
                    }
                } else {
                    Err(
                        RuntimeException::RuntimeError(
                            RuntimeError::new(
                                &l.operator,
                                "Invalid operator when evaluating logical.",
                            ),
                        ),
                    )
                }
            },
            Expr::Call(c) => {
                let callee = match self.evaluate(&c.callee, fuel) {
                    Ok(v) => v,
                    Err(e) => {
                        return Err(e);
                    },
                };
                proof {
                    lemma_exprs_model_len(c.arguments@);
                    assert(exprs_model(c.arguments@).subrange(0, c.arguments@.len() as int)
                        =~= exprs_model(c.arguments@));
                }
                let argv = match self.eval_args(&c.arguments, 0, fuel) {
                    Ok(v) => v,
                    Err(e) => {
                        return Err(e);
                    },
                };
                let ghost st2 = state_model(*self);
                proof {
                    lemma_values_model_len(argv@);
                }
                match callee {
                    Some(LiteralType::LoxCallable(callable)) => {
                        let arity = callable.arity();
                        proof {
                            match &callable {
                                LoxCallables::LoxFunction(fd) => {
                                    lemma_lexemes_model_len(fd.declaration.params@);
                                },
                                _ => {},
                            }
                        }
                        if argv.len() != arity {
                            let mut msg = String::from_str("Expected ");
                            msg.append(u64_to_string(arity as u64).as_str());
                            msg.append(" arguments but got ");
                            msg.append(u64_to_string(argv.len() as u64).as_str());
                            msg.append(".");
                            proof {
                                assert(msg@ =~= spec_arity_message(
                                    arity as nat,
                                    argv@.len() as nat,
                                ));
                            }
                            return Err(
                                RuntimeException::RuntimeError(
                                    RuntimeError { token: c.paren.duplicate(), message: msg },
                                ),
                            );
                        }
                        match callable {
                            LoxCallables::Native(NativeFn::Clock) => Ok(
                                Some(LiteralType::Number(self.clock_bits)),
                            ),
                            LoxCallables::LoxFunction(f) => {
                                if !(f.closure < self.store.len()) {
                                    return Err(
                                        RuntimeException::RuntimeError(
                                            RuntimeError::new(
                                                &c.paren,
                                                "Can only call functions and classes.",
                                            ),
                                        ),
                                    );
                                }
                                if fuel == 0 {
                                    return Err(RuntimeException::Exhausted);
                                }
                                let fidx = self.store.push_frame(f.closure);
                                let ghost lexp = lexemes_model(f.declaration.params@);
                                let ghost argm = values_model(argv@);
                                let n = f.declaration.params.len();
                                proof {
                                    lemma_lexemes_model_len(f.declaration.params@);
                                    assert(lexp.take(0) =~= Seq::<Seq<char>>::empty());
                                    assert(argm.take(0) =~= Seq::<Option<GVal>>::empty());
                                }
                                let mut k: usize = 0;
                                while k < n
                                    invariant
                                        n == f.declaration.params@.len(),
                                        n == argv@.len(),
                                        n == lexp.len(),
                                        n == argm.len(),
                                        0 <= k <= n,
                                        lexp == lexemes_model(f.declaration.params@),
                                        argm == values_model(argv@),
                                        fidx == st2.frames.len(),
                                        f.closure < st2.frames.len(),
                                        env_model(self.store) == st2.frames.push(
                                            GFrame {
                                                enclosing: Some(f.closure as int),
                                                binds: bind_args(
                                                    Seq::empty(),
                                                    lexp.take(k as int),
                                                    argm.take(k as int),
                                                ),
                                            },
                                        ),
                                        parents_wf(env_model(self.store)),
                                        self.environment == st2.env,
                                        strings_model(self.output@) == st2.output,
                                        self.clock_bits == st2.clock,
                                    decreases n - k,
                                {
                                    proof {
                                        lemma_lexemes_model_index(f.declaration.params@, k as int);
                                        lemma_values_model_index(argv@, k as int);
                                    }
                                    let pname = f.declaration.params[k].lexeme.clone();
                                    let pval = duplicate_value(&argv[k]);
                                    let ghost before = env_model(self.store);
                                    let ghost gpn = pname@;
                                    let ghost gpv = value_model(pval);
                                    self.store.define(fidx, pname, pval);
                                    proof {
                                        let fk = GFrame {
                                            enclosing: Some(f.closure as int),
                                            binds: bind_args(
                                                Seq::empty(),
                                                lexp.take(k as int),
                                                argm.take(k as int),
                                            ),
                                        };
                                        assert(before[fidx as int] == fk);
                                        lemma_bind_args_snoc(
                                            Seq::empty(),
                                            lexp.take(k as int),
                                            argm.take(k as int),
                                            lexp[k as int],
                                            argm[k as int],
                                        );
                                        assert(lexp.take(k as int + 1) =~= lexp.take(
                                            k as int,
                                        ).push(lexp[k as int]));
                                        assert(argm.take(k as int + 1) =~= argm.take(
                                            k as int,
                                        ).push(argm[k as int]));
                                        let fk1 = GFrame {
                                            enclosing: Some(f.closure as int),
                                            binds: bind_args(
                                                Seq::empty(),
                                                lexp.take(k as int + 1),
                                                argm.take(k as int + 1),
                                            ),
                                        };
                                        assert(env_model(self.store) =~= st2.frames.push(fk1));
                                    }
                                    k += 1;
                                }
                                proof {
                                    assert(lexp.take(n as int) =~= lexp);
                                    assert(argm.take(n as int) =~= argm);
                                }
                                let res = self.execute_block(&f.declaration.body, fidx, fuel - 1);
                                match res {
                                    Ok(u) => Ok(None),
                                    Err(RuntimeException::Return(ret)) => Ok(ret.value),
                                    Err(e) => Err(e),
                                }
                            },
                        }
                    },
                    _ => Err(
                        RuntimeException::RuntimeError(
                            RuntimeError::new(&c.paren, "Can only call functions and classes."),
                        ),
                    ),
                }
            },
        }
    }

    /// Evaluate the arguments from index `i` on, left to right.
    fn eval_args(&mut self, args: &Vec<Expr>, i: usize, fuel: u64) -> (r: Result<
        Vec<Option<LiteralType>>,
        RuntimeException,
    >)
        requires
            st_ok(state_model(*old(self))),
            i <= args@.len(),
        ensures
            ({
                let o = spec_eval_args(
                    exprs_model(args@).subrange(i as int, args@.len() as int),
                    state_model(*old(self)),
                    fuel as nat,
                );
                &&& args_result_model(r) == o.0
                &&& state_model(*final(self)) == o.1
            }),
            st_ok(state_model(*final(self))),
            state_model(*final(self)).frames.len() >= state_model(*old(self)).frames.len(),
        decreases fuel, *args, args@.len() - i as int,
    {
        proof {
            lemma_exprs_model_len(args@);
        }
        let ghost suffix = exprs_model(args@).subrange(i as int, args@.len() as int);
        if i == args.len() {
            proof {
                assert(suffix =~= Seq::<GExpr>::empty());
                assert(values_model(Seq::<Option<LiteralType>>::empty()) =~= Seq::<
                    Option<GVal>,
                >::empty());
            }
            let out: Vec<Option<LiteralType>> = Vec::new();
            Ok(out)
        } else {
            proof {
                lemma_exprs_model_index(args@, i as int);
                assert(suffix[0] == expr_model(args@[i as int]));
                assert(suffix.drop_first() =~= exprs_model(args@).subrange(
                    i as int + 1,
                    args@.len() as int,
                ));
            }
            let v = match self.evaluate(&args[i], fuel) {
                Ok(v) => v,
                Err(e) => {
                    return Err(e);
                },
            };
            let mut rest = match self.eval_args(args, i + 1, fuel) {
                Ok(vs) => vs,
                Err(e) => {
                    return Err(e);
                },
            };
            let ghost grest = rest@;
            let ghost gv = value_model(v);
            rest.insert(0, v);
            proof {
                lemma_values_model_prepend(grest, rest@[0]);
                assert(rest@ == grest.insert(0, rest@[0]));
            }
            Ok(rest)
        }
    }

    /// Execute one statement, as `spec_exec` describes.
    fn execute(&mut self, statement: &Statement, fuel: u64) -> (r: Result<(), RuntimeException>)
        requires
            st_ok(state_model(*old(self))),
        ensures
            ({
                let o = spec_exec(stmt_model(*statement), state_model(*old(self)), fuel as nat);
                &&& exec_result_model(r) == o.0
                &&& state_model(*final(self)) == o.1
            }),
            st_ok(state_model(*final(self))),
            state_model(*final(self)).frames.len() >= state_model(*old(self)).frames.len(),
        decreases fuel, *statement, 0int,
    {
        match statement {
            Statement::Print(p) => {
                let value = match self.evaluate(&p.expression, fuel) {
                    Ok(v) => v,
                    Err(e) => {
                        return Err(e);
                    },
                };
                let line = self.stringify(&value);
                let ghost gout = self.output@;
                self.output.push(line);
                proof {
                    lemma_strings_model_push(gout, self.output@.last());
                    assert(self.output@ == gout.push(self.output@.last()));
                }
                Ok(())
            },
            Statement::Expression(e) => {
                match self.evaluate(&e.expression, fuel) {
                    Ok(v) => Ok(()),
                    Err(e) => Err(e),
                }
            },
            Statement::Var(v) => {
                let value = match &v.initializer {
                    Some(e) => match self.evaluate(e, fuel) {
                        Ok(val) => val,
                        Err(e) => {
                            return Err(e);
                        },
                    },
                    None => None,
                };
                let ghost st1 = state_model(*self);
                let ghost preframes = env_model(self.store);
                let nm = v.name.lexeme.clone();
                let ghost gnm = nm@;
                self.store.define(self.environment, nm, value);
                proof {
                    let o = spec_exec(stmt_model(*statement), state_model(*old(self)), fuel as nat);
                    assert(preframes == st1.frames);
                    assert(self.environment as int == st1.env);
                    assert(gnm == token_model(v.name).lexeme);
                    assert(env_model(self.store) == st1.frames.update(
                        st1.env,
                        GFrame {
                            enclosing: st1.frames[st1.env].enclosing,
                            binds: define_bind(st1.frames[st1.env].binds, gnm, value_model(value)),
                        },
                    ));
                    assert(o.1 == define_in_current(st1, token_model(v.name).lexeme, value_model(value)));
                    assert(state_model(*self).frames == o.1.frames);
                }
                Ok(())
            },
            Statement::Block(b) => {
                let fidx = self.store.push_frame(self.environment);
                self.execute_block(&b.statements, fidx, fuel)
            },
            Statement::If(i) => {
                let value = match self.evaluate(&i.condition, fuel) {
                    Ok(v) => v,
                    Err(e) => {
                        return Err(e);
                    },
                };
                if self.is_truthy(&value) {
                    self.execute(&i.then_branch, fuel)
                } else {
                    match &i.else_branch {
                        Some(s2) => self.execute(s2, fuel),
                        None => Ok(()),
                    }
                }
            },
            Statement::While(w) => {
                let ghost sm = stmt_model(*statement);
                let ghost st0 = state_model(*old(self));
                let mut f = fuel;
                loop
                    invariant
                        st_ok(state_model(*self)),
                        state_model(*self).frames.len() >= st0.frames.len(),
                        st0 == state_model(*old(self)),
                        sm == stmt_model(*statement),
                        *statement == Statement::While(*w),
                        sm is While,
                        f <= fuel,
                        spec_exec(sm, st0, fuel as nat) == spec_exec(
                            sm,
                            state_model(*self),
                            f as nat,
                        ),
                    decreases f,
                {
                    let ghost sti = state_model(*self);
                    let ghost fi = f as nat;
                    let value = match self.evaluate(&w.condition, f) {
                        Ok(v) => v,
                        Err(e) => {
                            proof {
                                assert(spec_exec(sm, sti, fi) == (
                                    Err::<(), GExc>(exc_model(e)),
                                    state_model(*self),
                                ));
                            }
                            return Err(e);
                        },
                    };
                    if !self.is_truthy(&value) {
                        proof {
                            assert(spec_exec(sm, sti, fi) == (
                                Ok::<(), GExc>(()),
                                state_model(*self),
                            ));
                        }
                        return Ok(());
                    }
                    match self.execute(&w.body, f) {
                        Err(e) => {
                            proof {
                                assert(spec_exec(sm, sti, fi) == (
                                    Err::<(), GExc>(exc_model(e)),
                                    state_model(*self),
                                ));
                            }
                            return Err(e);
                        },
                        Ok(u) => {},
                    }
                    if f == 0 {
                        proof {
                            assert(spec_exec(sm, sti, fi) == (
                                Err::<(), GExc>(GExc::Stop),
                                state_model(*self),
                            ));
                        }
                        return Err(RuntimeException::Exhausted);
                    }
                    proof {
                        assert(spec_exec(sm, sti, fi) == spec_exec(
                            sm,
                            state_model(*self),
                            (f - 1) as nat,
                        ));
                    }
                    f = f - 1;
                }
            },
            Statement::Function(f) => {
                let fun = LoxFunction { declaration: f.duplicate(), closure: self.environment };
                let value = Some(
                    LiteralType::LoxCallable(LoxCallables::LoxFunction(Box::new(fun))),
                );
                proof {
                    lemma_param_names_lexemes(f.params@);
                }
                self.store.define(self.environment, f.name.lexeme.clone(), value);
                Ok(())
            },
            Statement::Return(ret) => {
                let value = match &ret.value {
                    Some(e) => match self.evaluate(e, fuel) {
                        Ok(v) => v,
                        Err(e) => {
                            return Err(e);
                        },
                    },
                    None => None,
                };
                Err(RuntimeException::Return(Return { value }))
            },
        }
    }

    /// Execute the statements from index `i` on, stopping at the first
    /// exception.
    fn execute_seq(&mut self, statements: &Vec<Statement>, i: usize, fuel: u64) -> (r: Result<
        (),
        RuntimeException,
    >)
        requires
            st_ok(state_model(*old(self))),
            i <= statements@.len(),
        ensures
            ({
                let o = spec_exec_seq(
                    stmts_model(statements@).subrange(i as int, statements@.len() as int),
                    state_model(*old(self)),
                    fuel as nat,
                );
                &&& exec_result_model(r) == o.0
                &&& state_model(*final(self)) == o.1
            }),
            st_ok(state_model(*final(self))),
            state_model(*final(self)).frames.len() >= state_model(*old(self)).frames.len(),
        decreases fuel, *statements, statements@.len() - i as int,
    {
        proof {
            lemma_stmts_model_len(statements@);
        }
        let ghost suffix = stmts_model(statements@).subrange(i as int, statements@.len() as int);
        if i == statements.len() {
            proof {
                assert(suffix =~= Seq::<GStmt>::empty());
            }
            Ok(())
        } else {
            proof {
                lemma_stmts_model_index(statements@, i as int);
                assert(suffix[0] == stmt_model(statements@[i as int]));
                assert(suffix.drop_first() =~= stmts_model(statements@).subrange(
                    i as int + 1,
                    statements@.len() as int,
                ));
            }
            match self.execute(&statements[i], fuel) {
                Err(e) => Err(e),
                Ok(u) => self.execute_seq(statements, i + 1, fuel),
            }
        }
    }

    /// Execute a block's statements with `environment` as the current
    /// frame, restoring the caller's frame on every exit path.
    pub fn execute_block(&mut self, statements: &Vec<Statement>, environment: usize, fuel: u64) -> (r:
        Result<(), RuntimeException>)
        requires
            st_ok(state_model(*old(self))),
            environment < state_model(*old(self)).frames.len(),
        ensures
            ({
                let o = spec_exec_block(
                    stmts_model(statements@),
                    environment as int,
                    state_model(*old(self)),
                    fuel as nat,
                );
                &&& exec_result_model(r) == o.0
                &&& state_model(*final(self)) == o.1
            }),
            st_ok(state_model(*final(self))),
            state_model(*final(self)).frames.len() >= state_model(*old(self)).frames.len(),
        decreases fuel, *statements, statements@.len() as int + 1,
    {
        let previous = self.environment;
        self.environment = environment;
        proof {
            lemma_stmts_model_len(statements@);
            assert(stmts_model(statements@).subrange(0, statements@.len() as int) =~= stmts_model(
                statements@,
            ));
        }
        let r = self.execute_seq(statements, 0, fuel);
        self.environment = previous;
        r
    }

    /// Execute a program: run its statements in order, stopping at and
    /// returning the first exception, with printed lines collected in
    /// `output`.
    pub fn interpret(&mut self, statements: &Vec<Statement>, fuel: u64) -> (r: Option<
        RuntimeException,
    >)
        requires
            st_ok(state_model(*old(self))),
        ensures
            ({
                let o = spec_exec_seq(
                    stmts_model(statements@),
                    state_model(*old(self)),
                    fuel as nat,
                );
                &&& (match r {
                    None => o.0 is Ok,
                    Some(e) => o.0 == Err::<(), GExc>(exc_model(e)),
                })
                &&& state_model(*final(self)) == o.1
            }),
            st_ok(state_model(*final(self))),
    {
        proof {
            lemma_stmts_model_len(statements@);
            assert(stmts_model(statements@).subrange(0, statements@.len() as int) =~= stmts_model(
                statements@,
            ));
        }
        match self.execute_seq(statements, 0, fuel) {
            Ok(u) => None,
            Err(e) => Some(e),
        }
    }

    /// Evaluate a single expression and give back its printed form.
    pub fn interpret_expression(&mut self, expression: &Expr, fuel: u64) -> (r: Result<
        String,
        RuntimeException,
    >)
        requires
            st_ok(state_model(*old(self))),
        ensures
            ({
                let o = spec_eval(expr_model(*expression), state_model(*old(self)), fuel as nat);
                &&& (match (r, o.0) {
                    (Ok(s), Ok(v)) => s@ == spec_stringify(v),
                    (Err(e), Err(g)) => exc_model(e) == g,
                    _ => false,
                })
                &&& state_model(*final(self)) == o.1
            }),
            st_ok(state_model(*final(self))),
    {
        match self.evaluate(expression, fuel) {
            Ok(v) => Ok(self.stringify(&v)),
            Err(e) => Err(e),
        }
    }
}

} // verus!
