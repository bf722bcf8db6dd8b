//! Statements: the tree, its mathematical model, and its execution.

use crate::environment::{define, Environment, Scopes};
use crate::error::{RuntimeError, RuntimeErrorView};
use crate::expr::{
    evaluate, governs, has_arithmetic, total, Arithmetic, BinaryOp, Expr, ExprView, Literal, Value,
};
use crate::tokens::{Token, TokenView};
use vstd::prelude::*;

verus! {

/// A variable declaration: the name's token and the initializer, if any.
#[derive(Debug, PartialEq, Eq)]
pub struct Var {
    token: Token,
    initializer: Option<Expr>,
}

/// A statement tree. A block owns its statements.
#[derive(Debug, PartialEq, Eq)]
pub enum Stmt {
    Expr(Expr),
    Print(Expr),
    Block(Vec<Stmt>),
    Var(Var),
}

/// Mathematical model of a statement tree.
pub enum StmtView {
    Expr(ExprView),
    Print(ExprView),
    Block(Seq<StmtView>),
    Var(TokenView, Option<ExprView>),
}

impl Var {
    pub closed spec fn model(&self) -> StmtView {
        StmtView::Var(
            self.token@,
            match self.initializer {
                Some(expr) => Some(expr@),
                None => None,
            },
        )
    }

    /// A declaration without an initializer.
    pub fn new(token: Token) -> (var: Self)
        ensures
            var.model() == StmtView::Var(token@, None),
    {
        Self { token, initializer: None }
    }

    /// A declaration with an initializer.
    pub fn with_init(token: Token, initializer: Expr) -> (var: Self)
        ensures
            var.model() == StmtView::Var(token@, Some(initializer@)),
    {
        Self { token, initializer: Some(initializer) }
    }
}

impl View for Var {
    type V = StmtView;

    open spec fn view(&self) -> StmtView {
        self.model()
    }
}

impl Stmt {
    /// The mathematical model of the tree.
    pub open spec fn model(&self) -> StmtView
        decreases self,
    {
        match self {
            Stmt::Expr(expr) => StmtView::Expr(expr@),
            Stmt::Print(expr) => StmtView::Print(expr@),
            Stmt::Block(stmts) => StmtView::Block(
                Seq::new(
                    stmts@.len(),
                    |i: int|
                        if 0 <= i < stmts@.len() {
                            stmts@[i].model()
                        } else {
                            arbitrary()
                        },
                ),
            ),
            Stmt::Var(var) => var.model(),
        }
    }
}

/// The models of a sequence of statements, in order.
pub open spec fn stmt_views(stmts: Seq<Stmt>) -> Seq<StmtView> {
    Seq::new(stmts.len(), |i: int| stmts[i]@)
}

/// The model of a block is the block of the models of its statements.
pub proof fn lemma_block_view(stmts: Vec<Stmt>)
    ensures
        Stmt::Block(stmts)@ == StmtView::Block(stmt_views(stmts@)),
{
    assert(Stmt::Block(stmts)@->Block_0 =~= stmt_views(stmts@));
}

impl View for Stmt {
    type V = StmtView;

    open spec fn view(&self) -> StmtView {
        self.model()
    }
}

/// The models of a sequence of values, in order.
pub open spec fn value_views(values: Seq<Literal>) -> Seq<Value> {
    Seq::new(values.len(), |i: int| values[i]@)
}

/// Whether an expression of the statement holds one of the operators `+`,
/// `-`, `*` and `/`.
pub open spec fn stmt_has_arithmetic(stmt: StmtView) -> bool
    decreases stmt, 0int,
{
    match stmt {
        StmtView::Expr(expr) => has_arithmetic(expr),
        StmtView::Print(expr) => has_arithmetic(expr),
        StmtView::Block(stmts) => any_has_arithmetic(stmts, 0),
        StmtView::Var(_, None) => false,
        StmtView::Var(_, Some(initializer)) => has_arithmetic(initializer),
    }
}

/// The same of one of the statements from the `i`-th on.
pub open spec fn any_has_arithmetic(stmts: Seq<StmtView>, i: int) -> bool
    decreases stmts, stmts.len() - i,
{
    0 <= i < stmts.len() && (stmt_has_arithmetic(stmts[i]) || any_has_arithmetic(stmts, i + 1))
}

/// What an execution leaves behind: whether it failed, the scopes as they
/// then are, and all that has been printed so far.
pub struct Executed {
    pub result: Result<(), RuntimeErrorView>,
    pub scopes: Scopes,
    pub printed: Seq<Value>,
}

/// The effect of a statement on the scopes and on what has been printed.
/// A block runs in a new innermost scope, which is gone after it, also
/// when a statement of the block fails.
pub open spec fn execute(k: Arithmetic, stmt: StmtView, scopes: Scopes, printed: Seq<Value>) -> Executed
    decreases stmt, 0int,
{
    match stmt {
        StmtView::Expr(expr) => {
            let evaluated = evaluate(k, expr, scopes);
            Executed {
                result: match evaluated.result {
                    Ok(_) => Ok(()),
                    Err(error) => Err(error),
                },
                scopes: evaluated.scopes,
                printed,
            }
        },
        StmtView::Print(expr) => {
            let evaluated = evaluate(k, expr, scopes);
            match evaluated.result {
                Ok(value) => Executed {
                    result: Ok(()),
                    scopes: evaluated.scopes,
                    printed: printed.push(value),
                },
                Err(error) => Executed { result: Err(error), scopes: evaluated.scopes, printed },
            }
        },
        StmtView::Block(stmts) => {
            let inner = execute_from(k, stmts, 0, scopes.push(Map::empty()), printed);
            Executed { result: inner.result, scopes: inner.scopes.drop_last(), printed: inner.printed }
        },
        StmtView::Var(name, None) => Executed {
            result: Ok(()),
            scopes: define(scopes, name.lexeme, Value::Absence),
            printed,
        },
        StmtView::Var(name, Some(initializer)) => {
            let evaluated = evaluate(k, initializer, scopes);
            match evaluated.result {
                Ok(value) => Executed {
                    result: Ok(()),
                    scopes: define(evaluated.scopes, name.lexeme, value),
                    printed,
                },
                Err(error) => Executed { result: Err(error), scopes: evaluated.scopes, printed },
            }
        },
    }
}

/// The effect of the statements from the `i`-th on, in order, up to the
/// first that fails.
pub open spec fn execute_from(
    k: Arithmetic,
    stmts: Seq<StmtView>,
    i: int,
    scopes: Scopes,
    printed: Seq<Value>,
) -> Executed
    decreases stmts, stmts.len() - i,
{
    if 0 <= i < stmts.len() {
        let first = execute(k, stmts[i], scopes, printed);
        match first.result {
            Ok(_) => execute_from(k, stmts, i + 1, first.scopes, first.printed),
            Err(_) => first,
        }
    } else {
        Executed { result: Ok(()), scopes, printed }
    }
}

/// Whether `after` has the scopes of `before` with the same names in each,
/// but for the innermost, which may bind more names.
pub open spec fn extends(after: Scopes, before: Scopes) -> bool {
    &&& after.len() == before.len()
    &&& forall|i: int| 0 <= i < before.len() - 1 ==> (#[trigger] after[i]).dom() == before[i].dom()
    &&& before.len() > 0 ==> before.last().dom().subset_of(after.last().dom())
}

/// Execution never leaves a scope behind and declares only in the
/// innermost scope: afterwards there are as many scopes as before, each
/// enclosing scope binds the names it bound before, and the innermost
/// binds at least those. What was printed before stays printed.
pub proof fn lemma_execute_extends(k: Arithmetic, stmt: StmtView, scopes: Scopes, printed: Seq<Value>)
    requires
        scopes.len() > 0,
    ensures
        extends(execute(k, stmt, scopes, printed).scopes, scopes),
        printed.is_prefix_of(execute(k, stmt, scopes, printed).printed),
    decreases stmt, 0int,
{
    let after = execute(k, stmt, scopes, printed);
    match stmt {
        StmtView::Expr(expr) => {
            crate::expr::lemma_evaluate_keeps_names(k, expr, scopes);
        },
        StmtView::Print(expr) => {
            crate::expr::lemma_evaluate_keeps_names(k, expr, scopes);
        },
        StmtView::Block(stmts) => {
            let entered = scopes.push(Map::empty());
            lemma_execute_from_extends(k, stmts, 0, entered, printed);
            let inner = execute_from(k, stmts, 0, entered, printed);
            assert forall|i: int| 0 <= i < scopes.len() - 1 implies (#[trigger] after.scopes[i]).dom()
                == scopes[i].dom() by {
                assert(inner.scopes[i].dom() == entered[i].dom());
            }
            assert(inner.scopes[scopes.len() - 1].dom() == entered[scopes.len() - 1].dom());
        },
        StmtView::Var(name, None) => {},
        StmtView::Var(name, Some(initializer)) => {
            crate::expr::lemma_evaluate_keeps_names(k, initializer, scopes);
            let evaluated = evaluate(k, initializer, scopes);
            assert(evaluated.scopes[scopes.len() - 1].dom() == scopes[scopes.len() - 1].dom());
        },
    }
}

/// The same of a sequence of statements.
pub proof fn lemma_execute_from_extends(
    k: Arithmetic,
    stmts: Seq<StmtView>,
    i: int,
    scopes: Scopes,
    printed: Seq<Value>,
)
    requires
        scopes.len() > 0,
    ensures
        extends(execute_from(k, stmts, i, scopes, printed).scopes, scopes),
        printed.is_prefix_of(execute_from(k, stmts, i, scopes, printed).printed),
    decreases stmts, stmts.len() - i,
{
    if 0 <= i < stmts.len() {
        lemma_execute_extends(k, stmts[i], scopes, printed);
        let first = execute(k, stmts[i], scopes, printed);
        if first.result is Ok {
            lemma_execute_from_extends(k, stmts, i + 1, first.scopes, first.printed);
            let all = execute_from(k, stmts, i + 1, first.scopes, first.printed);
            assert forall|j: int| 0 <= j < scopes.len() - 1 implies (#[trigger] all.scopes[j]).dom()
                == scopes[j].dom() by {
                assert(first.scopes[j].dom() == scopes[j].dom());
            }
        }
    }
}

/// A block declares nothing outside itself: after it every scope binds
/// the names it bound before the block, the innermost too.
pub proof fn lemma_block_declares_nothing(
    k: Arithmetic,
    stmts: Seq<StmtView>,
    scopes: Scopes,
    printed: Seq<Value>,
)
    requires
        scopes.len() > 0,
    ensures
        ({
            let after = execute(k, StmtView::Block(stmts), scopes, printed).scopes;
            &&& after.len() == scopes.len()
            &&& forall|i: int| 0 <= i < scopes.len() ==> (#[trigger] after[i]).dom() == scopes[i].dom()
        }),
{
    let entered = scopes.push(Map::empty());
    lemma_execute_from_extends(k, stmts, 0, entered, printed);
    let inner = execute_from(k, stmts, 0, entered, printed);
    let after = execute(k, StmtView::Block(stmts), scopes, printed).scopes;
    assert forall|i: int| 0 <= i < scopes.len() implies (#[trigger] after[i]).dom() == scopes[i].dom() by {
        assert(inner.scopes[i].dom() == entered[i].dom());
    }
}

/// The model of an execution's result.
pub open spec fn outcome_view(result: Result<(), RuntimeError>) -> Result<(), RuntimeErrorView> {
    match result {
        Ok(_) => Ok(()),
        Err(error) => Err(error@),
    }
}

impl Stmt {
    /// Executes the statement in `env`. What it prints is appended to
    /// `out`, value by value. The arithmetic on numbers is done by `arith`.
    /// The outcome is that of [`execute`], for every `k` that `arith`
    /// computes, and for every `k` at all where the statement holds no
    /// arithmetic operator.
    pub fn interpret_stmt<F: Fn(BinaryOp, u64, u64) -> u64>(
        &self,
        env: &mut Environment,
        arith: &F,
        out: &mut Vec<Literal>,
    ) -> (result: Result<(), RuntimeError>)
        requires
            old(env).wf(),
            total(arith),
        ensures
            final(env).wf(),
            final(env)@.len() == old(env)@.len(),
            forall|k: Arithmetic| #[trigger]
                governs(arith, k, stmt_has_arithmetic(self@)) ==> {
                    let executed = execute(k, self@, old(env)@, value_views(old(out)@));
                    &&& outcome_view(result) == executed.result
                    &&& final(env)@ == executed.scopes
                    &&& value_views(final(out)@) == executed.printed
                },
        decreases self,
    {
        match self {
            Stmt::Expr(expr) => {
                assert forall|k: Arithmetic| #[trigger]
                    governs(arith, k, stmt_has_arithmetic(self@)) implies governs(
                    arith,
                    k,
                    has_arithmetic(expr@),
                ) by {}
                expr.interpret_ast(env, arith)?;
                Ok(())
            },
            Stmt::Print(expr) => {
                assert forall|k: Arithmetic| #[trigger]
                    governs(arith, k, stmt_has_arithmetic(self@)) implies governs(
                    arith,
                    k,
                    has_arithmetic(expr@),
                ) by {}
                let value = expr.interpret_ast(env, arith)?;
                proof {
                    assert(value_views(out@.push(value)) =~= value_views(out@).push(value@));
                }
                out.push(value);
                Ok(())
            },
            Stmt::Block(stmts) => {
                let ghost scopes0 = env@;
                let ghost printed0 = value_views(out@);
                proof {
                    env.lemma_has_scope();
                }
                env.begin_scope();
                let ghost inner0 = env@;
                let ghost models = self@->Block_0;
                let mut i: usize = 0;
                while i < stmts.len()
                    invariant
                        env.wf(),
                        total(arith),
                        i <= stmts.len(),
                        scopes0 == old(env)@,
                        printed0 == value_views(old(out)@),
                        scopes0.len() >= 1,
                        env@.len() == scopes0.len() + 1,
                        inner0 == scopes0.push(Map::empty()),
                        self@ == StmtView::Block(models),
                        *self == Stmt::Block(*stmts),
                        models.len() == stmts@.len(),
                        forall|j: int| 0 <= j < stmts@.len() ==> models[j] == #[trigger] stmts@[j]@,
                        forall|k: Arithmetic| #[trigger]
                            governs(arith, k, stmt_has_arithmetic(self@)) ==> governs(
                                arith,
                                k,
                                any_has_arithmetic(models, i as int),
                            ) && execute_from(k, models, 0, inner0, printed0) == execute_from(
                                k,
                                models,
                                i as int,
                                env@,
                                value_views(out@),
                            ),
                    decreases stmts.len() - i,
                {
                    assert forall|k: Arithmetic| #[trigger]
                        governs(arith, k, stmt_has_arithmetic(self@)) implies governs(
                        arith,
                        k,
                        stmt_has_arithmetic(stmts@[i as int]@),
                    ) && governs(arith, k, any_has_arithmetic(models, i + 1)) by {
                        assert(governs(arith, k, any_has_arithmetic(models, i as int)));
                    }
                    match stmts[i].interpret_stmt(env, arith, out) {
                        Ok(_) => {},
                        Err(error) => {
                            let ghost failed = env@;
                            env.end_scope();
                            assert(env@ == failed.drop_last());
                            return Err(error);
                        },
                    }
                    i += 1;
                }
                let ghost done = env@;
                env.end_scope();
                assert(env@ == done.drop_last());
                Ok(())
            },
            Stmt::Var(var) => {
                match &var.initializer {
                    Some(expr) => {
                        assert forall|k: Arithmetic| #[trigger]
                            governs(arith, k, stmt_has_arithmetic(self@)) implies governs(
                            arith,
                            k,
                            has_arithmetic(expr@),
                        ) by {}
                        let val = expr.interpret_ast(env, arith)?;
                        env.define(var.token.lexeme.clone(), val);
                    },
                    None => {
                        env.define(var.token.lexeme.clone(), Literal::Nil);
                    },
                }
                Ok(())
            },
        }
    }
}

} // verus!
