//! Callable values: user functions with their captured scope, and the
//! host intrinsics installed in the global scope.
use crate::model::{callable_model, lemma_lexemes_model_index, lemma_lexemes_model_len,
    lexemes_model};
use crate::statement::Function;
use crate::token::Token;
use vstd::prelude::*;

verus! {

/// A user function value: its declaration and the index of the
/// environment frame that was current when it was declared.
pub struct LoxFunction {
    pub declaration: Function,
    pub closure: usize,
}

impl LoxFunction {
    pub fn new(declaration: Function, closure: usize) -> (r: LoxFunction)
        ensures
            r.declaration == declaration,
            r.closure == closure,
    {
        LoxFunction { declaration, closure }
    }

    /// The number of arguments the function accepts.
    pub fn arity(&self) -> (r: usize)
        ensures
            r == self.declaration.params@.len(),
    {
        self.declaration.params.len()
    }
}

/// A host intrinsic. `Clock` reports seconds since the Unix epoch as of
/// the one host reading taken when the interpreter is created.
pub enum NativeFn {
    Clock,
}

/// Any callable value.
pub enum LoxCallables {
    LoxFunction(Box<LoxFunction>),
    Native(NativeFn),
}

impl LoxCallables {
    /// The number of arguments the callable accepts.
    pub fn arity(&self) -> (r: usize)
        ensures
            r == self.spec_arity(),
    {
        match self {
            LoxCallables::LoxFunction(f) => f.arity(),
            LoxCallables::Native(NativeFn::Clock) => 0,
        }
    }

    /// What `arity` returns.
    pub open spec fn spec_arity(&self) -> nat {
        match self {
            LoxCallables::LoxFunction(f) => f.declaration.params@.len(),
            LoxCallables::Native(NativeFn::Clock) => 0,
        }
    }

    /// A copy of the callable with the same model.
    pub fn duplicate(&self) -> (r: LoxCallables)
        ensures
            callable_model(r) == callable_model(*self),
        decreases *self,
    {
        match self {
            LoxCallables::LoxFunction(f) => LoxCallables::LoxFunction(
                Box::new(
                    LoxFunction { declaration: f.declaration.duplicate(), closure: f.closure },
                ),
            ),
            LoxCallables::Native(NativeFn::Clock) => LoxCallables::Native(NativeFn::Clock),
        }
    }

    /// Whether two callables have the same model: for user functions, the
    /// same name, parameter names, body and captured frame.
    pub fn same_as(&self, other: &LoxCallables) -> (r: bool)
        ensures
            r == (callable_model(*self) == callable_model(*other)),
        decreases *self,
    {
        match (self, other) {
            (LoxCallables::LoxFunction(f), LoxCallables::LoxFunction(g)) => f.closure == g.closure
                && f.declaration.name.lexeme == g.declaration.name.lexeme && params_match(
                &f.declaration.params,
                &g.declaration.params,
            ) && crate::statement::stmts_eq(&f.declaration.body, &g.declaration.body),
            (LoxCallables::Native(NativeFn::Clock), LoxCallables::Native(NativeFn::Clock)) => true,
            _ => false,
        }
    }
}

/// Whether two parameter lists carry the same names.
pub fn params_match(a: &Vec<Token>, b: &Vec<Token>) -> (r: bool)
    ensures
        r == (lexemes_model(a@) == lexemes_model(b@)),
{
    proof {
        lemma_lexemes_model_len(a@);
        lemma_lexemes_model_len(b@);
    }
    if a.len() != b.len() {
        return false;
    }
    let n = a.len();
    let mut i: usize = 0;
    while i < n
        invariant
            n == a.len() == b.len(),
            0 <= i <= n,
            forall|j: int| 0 <= j < i ==> #[trigger] a@[j].lexeme@ == b@[j].lexeme@,
        decreases n - i,
    {
        let pa = &a[i];
        let pb = &b[i];
        if !(pa.lexeme == pb.lexeme) {
            proof {
                lemma_lexemes_model_index(a@, i as int);
                lemma_lexemes_model_index(b@, i as int);
            }
            return false;
        }
        i += 1;
    }
    proof {
        lemma_lexemes_model_len(a@);
        lemma_lexemes_model_len(b@);
        assert forall|j: int| 0 <= j < n implies #[trigger] lexemes_model(a@)[j] == lexemes_model(
            b@,
        )[j] by {
            lemma_lexemes_model_index(a@, j);
            lemma_lexemes_model_index(b@, j);
        }
        assert(lexemes_model(a@) =~= lexemes_model(b@));
    }
    true
}

} // verus!
