//! The interpreter: folds a statement sequence against the environment,
//! dispatching per variant, pushing and popping a scope around each block,
//! and driving `if`/`while` control flow.
//!
//! The specification-level interpreter `exec_stmt` is a fueled big-step
//! semantics: fuel is spent once per `while` iteration, and `None` means
//! the fuel ran out.  For a given statement and environment the outcome is
//! the same under every sufficient fuel (`lemma_stmt_fuel_mono`), so
//! "there is a fuel under which the run yields this outcome" pins the
//! outcome down.  The executable interpreter is verified against it; the
//! one caveat is a `while` loop that runs for more than `u64::MAX`
//! iterations, where execution stops with a distinguished error.  That
//! error is itself conditioned: it may be reported only of a statement
//! that `stmt_stalls`, one whose fueled run completes under no fuel up to
//! `u64::MAX`, so for every program that terminates within the budget the
//! contracts force the semantics' own outcome.

use vstd::prelude::*;

use crate::environment::{env_define, env_wf, EnvV, Environment};
use crate::expr::{eval_expr, lemma_eval_len};
use crate::statement::{lemma_stmts_view, stmt_view, stmts_view, Statement, StmtV};
use crate::value::{lit_text, truthy, LitV, LiteralValue};
use crate::LoxErr;

verus! {

broadcast use vstd::std_specs::vec::group_vec_axioms;

/// The lines the interpreter writes, in order.
pub type OutV = Seq<Seq<char>>;

/// The message of a failed assertion; it aborts the run.
pub open spec fn assertion_failed_msg() -> Seq<char> {
    "Assertion Failed"@
}

/// The message when an assertion evaluates to something other than a
/// boolean value.
pub open spec fn assert_not_boolean_msg() -> Seq<char> {
    "Assert expression must evaluate to a boolean"@
}

/// The message when an `if` condition evaluates to something other than a
/// boolean value.
pub open spec fn if_not_boolean_msg() -> Seq<char> {
    "Error should not ever get to this point"@
}

/// The message when a single loop runs for more than `u64::MAX` iterations
/// and the interpreter gives up; a machine limit.
pub open spec fn loop_limit_msg() -> Seq<char> {
    "Loop iteration limit reached"@
}

/// One statement, executed in `env` with `fuel`: the environment afterwards,
/// the output written, and normal completion or the aborting error.  `None`
/// when the fuel does not cover the `while` iterations taken.
pub open spec fn exec_stmt(s: StmtV, env: EnvV, fuel: nat) -> Option<
    (EnvV, OutV, Result<(), Seq<char>>),
>
    decreases fuel, s, 0int,
{
    match s {
        StmtV::Expression { expression } => {
            let (r, env1) = eval_expr(expression, env);
            match r {
                Ok(v) => Some((env1, Seq::empty(), Ok::<(), Seq<char>>(()))),
                Err(m) => Some((env1, Seq::empty(), Err(m))),
            }
        },
        StmtV::Print { expression } => {
            let (r, env1) = eval_expr(expression, env);
            match r {
                Ok(v) => Some((env1, seq![lit_text(v)], Ok::<(), Seq<char>>(()))),
                Err(m) => Some((env1, Seq::empty(), Err(m))),
            }
        },
        StmtV::Var { indentifier, expression } => {
            let (r, env1) = eval_expr(expression, env);
            match r {
                Ok(v) => Some((env_define(env1, indentifier, v), Seq::empty(), Ok::<(), Seq<char>>(()))),
                Err(m) => Some((env1, Seq::empty(), Err(m))),
            }
        },
        StmtV::Assert { expression_a } => {
            let (r, env1) = eval_expr(expression_a, env);
            match r {
                Ok(v) => match v {
                    LitV::True => Some((env1, Seq::empty(), Ok::<(), Seq<char>>(()))),
                    LitV::False => Some((env1, Seq::empty(), Err(assertion_failed_msg()))),
                    _ => Some((env1, Seq::empty(), Err(assert_not_boolean_msg()))),
                },
                Err(m) => Some((env1, seq![m], Ok::<(), Seq<char>>(()))),
            }
        },
        StmtV::Block { statements } => {
            match exec_stmts_from(statements, 0, env.push(Map::empty()), fuel) {
                None => None,
                Some((env1, out, r)) => Some((env1.drop_last(), out, r)),
            }
        },
        StmtV::If { conditional, happy_path, sad_path } => {
            let (r, env1) = eval_expr(conditional, env);
            match r {
                Ok(v) => match v {
                    LitV::True => exec_stmt(*happy_path, env1, fuel),
                    LitV::False => match sad_path {
                        Some(sp) => exec_stmt(*sp, env1, fuel),
                        None => Some((env1, Seq::empty(), Ok::<(), Seq<char>>(()))),
                    },
                    _ => Some((env1, Seq::empty(), Err(if_not_boolean_msg()))),
                },
                Err(m) => Some((env1, Seq::empty(), Err(m))),
            }
        },
        StmtV::While { predicate, happy_path } => {
            if fuel == 0 {
                None
            } else {
                let (r, env1) = eval_expr(predicate, env);
                match r {
                    Ok(v) => if !truthy(v) {
                        Some((env1, Seq::empty(), Ok::<(), Seq<char>>(())))
                    } else {
                        match exec_stmt(*happy_path, env1, fuel) {
                            None => None,
                            Some((env2, out2, r2)) => match r2 {
                                Err(m) => Some((env2, out2, Err(m))),
                                Ok(u) => match exec_stmt(s, env2, (fuel - 1) as nat) {
                                    None => None,
                                    Some((env3, out3, r3)) => Some((env3, out2 + out3, r3)),
                                },
                            },
                        }
                    },
                    Err(m) => Some((env1, Seq::empty(), Err(m))),
                }
            }
        },
    }
}

/// The statements of `ss` from index `i` on, executed in order; an aborting
/// error stops the run.
pub open spec fn exec_stmts_from(ss: Seq<StmtV>, i: int, env: EnvV, fuel: nat) -> Option<
    (EnvV, OutV, Result<(), Seq<char>>),
>
    decreases fuel, ss, ss.len() - i,
{
    if i < 0 || i >= ss.len() {
        Some((env, Seq::empty(), Ok::<(), Seq<char>>(())))
    } else {
        match exec_stmt(ss[i], env, fuel) {
            None => None,
            Some((env1, out1, r1)) => match r1 {
                Err(m) => Some((env1, out1, Err(m))),
                Ok(u) => match exec_stmts_from(ss, i + 1, env1, fuel) {
                    None => None,
                    Some((env2, out2, r2)) => Some((env2, out1 + out2, r2)),
                },
            },
        }
    }
}

/// A whole program: its statements executed in order from the first.
pub open spec fn run_stmts(ss: Seq<StmtV>, env: EnvV, fuel: nat) -> Option<
    (EnvV, OutV, Result<(), Seq<char>>),
> {
    exec_stmts_from(ss, 0, env, fuel)
}

/// No fuel the interpreter is prepared to spend completes `s` from `env`:
/// the fueled run is still unfinished at every fuel up to `u64::MAX`.
/// Fuel is spent only by `while` iterations, so this can hold only of a
/// statement that actually reaches a loop running at least that long; a
/// `while`-free statement completes under any fuel (`lemma_while_free_total`).
pub open spec fn stmt_stalls(s: StmtV, env: EnvV) -> bool {
    forall|f: nat| f <= u64::MAX ==> #[trigger] exec_stmt(s, env, f) is None
}

/// The whole-program form of `stmt_stalls`.
pub open spec fn program_stalls(ss: Seq<StmtV>, env: EnvV) -> bool {
    forall|f: nat| f <= u64::MAX ==> #[trigger] run_stmts(ss, env, f) is None
}

/// An outcome reached under some fuel is reached under every larger fuel.
pub proof fn lemma_stmt_fuel_mono(s: StmtV, env: EnvV, f1: nat, f2: nat)
    requires
        f1 <= f2,
        exec_stmt(s, env, f1) is Some,
    ensures
        exec_stmt(s, env, f2) == exec_stmt(s, env, f1),
    decreases f1, s, 0int,
{
    match s {
        StmtV::Block { statements } => {
            lemma_stmts_fuel_mono(statements, 0, env.push(Map::empty()), f1, f2);
        },
        StmtV::If { conditional, happy_path, sad_path } => {
            let (r, env1) = eval_expr(conditional, env);
            match r {
                Ok(v) => match v {
                    LitV::True => {
                        lemma_stmt_fuel_mono(*happy_path, env1, f1, f2);
                    },
                    LitV::False => match sad_path {
                        Some(sp) => {
                            lemma_stmt_fuel_mono(*sp, env1, f1, f2);
                        },
                        None => {},
                    },
                    _ => {},
                },
                Err(m) => {},
            }
        },
        StmtV::While { predicate, happy_path } => {
            let (r, env1) = eval_expr(predicate, env);
            if r is Ok && truthy(r->Ok_0) {
                lemma_stmt_fuel_mono(*happy_path, env1, f1, f2);
                let b = exec_stmt(*happy_path, env1, f1);
                if b->Some_0.2 is Ok {
                    if exec_stmt(s, b->Some_0.0, (f1 - 1) as nat) is Some {
                        lemma_stmt_fuel_mono(s, b->Some_0.0, (f1 - 1) as nat, (f2 - 1) as nat);
                    }
                }
            }
        },
        _ => {},
    }
}

/// An outcome of a statement sequence reached under some fuel is reached
/// under every larger fuel.
pub proof fn lemma_stmts_fuel_mono(ss: Seq<StmtV>, i: int, env: EnvV, f1: nat, f2: nat)
    requires
        f1 <= f2,
        exec_stmts_from(ss, i, env, f1) is Some,
    ensures
        exec_stmts_from(ss, i, env, f2) == exec_stmts_from(ss, i, env, f1),
    decreases f1, ss, ss.len() - i,
{
    if 0 <= i < ss.len() {
        lemma_stmt_fuel_mono(ss[i], env, f1, f2);
        let h = exec_stmt(ss[i], env, f1);
        if h->Some_0.2 is Ok {
            if exec_stmts_from(ss, i + 1, h->Some_0.0, f1) is Some {
                lemma_stmts_fuel_mono(ss, i + 1, h->Some_0.0, f1, f2);
            }
        }
    }
}

/// Execution never changes the number of scopes on the chain.
pub proof fn lemma_stmt_len(s: StmtV, env: EnvV, fuel: nat)
    requires
        env_wf(env),
    ensures
        exec_stmt(s, env, fuel) matches Some(t) ==> t.0.len() == env.len(),
    decreases fuel, s, 0int,
{
    match s {
        StmtV::Expression { expression } => {
            lemma_eval_len(expression, env);
        },
        StmtV::Print { expression } => {
            lemma_eval_len(expression, env);
        },
        StmtV::Var { indentifier, expression } => {
            lemma_eval_len(expression, env);
        },
        StmtV::Assert { expression_a } => {
            lemma_eval_len(expression_a, env);
        },
        StmtV::Block { statements } => {
            lemma_stmts_len(statements, 0, env.push(Map::empty()), fuel);
        },
        StmtV::If { conditional, happy_path, sad_path } => {
            lemma_eval_len(conditional, env);
            let (r, env1) = eval_expr(conditional, env);
            match r {
                Ok(v) => match v {
                    LitV::True => {
                        lemma_stmt_len(*happy_path, env1, fuel);
                    },
                    LitV::False => match sad_path {
                        Some(sp) => {
                            lemma_stmt_len(*sp, env1, fuel);
                        },
                        None => {},
                    },
                    _ => {},
                },
                Err(m) => {},
            }
        },
        StmtV::While { predicate, happy_path } => {
            if fuel > 0 {
                lemma_eval_len(predicate, env);
                let (r, env1) = eval_expr(predicate, env);
                if r is Ok && truthy(r->Ok_0) {
                    lemma_stmt_len(*happy_path, env1, fuel);
                    let b = exec_stmt(*happy_path, env1, fuel);
                    if b is Some && b->Some_0.2 is Ok {
                        lemma_stmt_len(s, b->Some_0.0, (fuel - 1) as nat);
                    }
                }
            }
        },
    }
}

/// Execution of a sequence never changes the number of scopes.
pub proof fn lemma_stmts_len(ss: Seq<StmtV>, i: int, env: EnvV, fuel: nat)
    requires
        env_wf(env),
    ensures
        exec_stmts_from(ss, i, env, fuel) matches Some(t) ==> t.0.len() == env.len(),
    decreases fuel, ss, ss.len() - i,
{
    if 0 <= i < ss.len() {
        lemma_stmt_len(ss[i], env, fuel);
        let h = exec_stmt(ss[i], env, fuel);
        if h is Some && h->Some_0.2 is Ok {
            lemma_stmts_len(ss, i + 1, h->Some_0.0, fuel);
        }
    }
}

/// The fueled semantics is deterministic: any two completed runs of the
/// same statement in the same environment agree, whatever their fuels.
pub proof fn lemma_stmt_deterministic(s: StmtV, env: EnvV, f1: nat, f2: nat)
    requires
        exec_stmt(s, env, f1) is Some,
        exec_stmt(s, env, f2) is Some,
    ensures
        exec_stmt(s, env, f1) == exec_stmt(s, env, f2),
{
    if f1 <= f2 {
        lemma_stmt_fuel_mono(s, env, f1, f2);
    } else {
        lemma_stmt_fuel_mono(s, env, f2, f1);
    }
}

/// Determinism for whole programs: any two completed runs agree.
pub proof fn lemma_run_deterministic(ss: Seq<StmtV>, env: EnvV, f1: nat, f2: nat)
    requires
        run_stmts(ss, env, f1) is Some,
        run_stmts(ss, env, f2) is Some,
    ensures
        run_stmts(ss, env, f1) == run_stmts(ss, env, f2),
{
    if f1 <= f2 {
        lemma_stmts_fuel_mono(ss, 0, env, f1, f2);
    } else {
        lemma_stmts_fuel_mono(ss, 0, env, f2, f1);
    }
}


/// The views of the lines of an output vector.
pub open spec fn out_v(v: Seq<String>) -> OutV {
    v.map_values(|s: String| s@)
}

/// Executing `s` from `env0` can yield exactly this environment, output and
/// result: there is a fuel under which the fueled semantics says so.  By
/// `lemma_stmt_deterministic` this pins the outcome down.
pub open spec fn stmt_yields(
    s: StmtV,
    env0: EnvV,
    env1: EnvV,
    delta: OutV,
    r: Result<(), Seq<char>>,
) -> bool {
    exists|f: nat| exec_stmt(s, env0, f) == Some((env1, delta, r))
}

/// The sequence form of `stmt_yields`.
pub open spec fn stmts_yield(
    ss: Seq<StmtV>,
    i: int,
    env0: EnvV,
    env1: EnvV,
    delta: OutV,
    r: Result<(), Seq<char>>,
) -> bool {
    exists|f: nat| exec_stmts_from(ss, i, env0, f) == Some((env1, delta, r))
}

/// Chains two output extensions: the suffix past `base` is the suffix past
/// `base` up to `mid`, then the suffix past `mid`.
proof fn lemma_delta_chain(base: Seq<String>, mid: Seq<String>, cur: Seq<String>)
    requires
        base.len() <= mid.len() <= cur.len(),
        mid.subrange(0, base.len() as int) == base,
        cur.subrange(0, mid.len() as int) == mid,
    ensures
        cur.subrange(0, base.len() as int) == base,
        out_v(cur).skip(base.len() as int) == out_v(mid).skip(base.len() as int) + out_v(
            cur,
        ).skip(mid.len() as int),
{
    assert forall|k: int| 0 <= k < mid.len() implies cur[k] == mid[k] by {
        assert(cur.subrange(0, mid.len() as int)[k] == cur[k]);
    }
    assert forall|k: int| 0 <= k < base.len() implies mid[k] == base[k] by {
        assert(mid.subrange(0, base.len() as int)[k] == mid[k]);
    }
    assert(cur.subrange(0, base.len() as int) =~= base);
    assert(out_v(cur).skip(base.len() as int) =~= out_v(mid).skip(base.len() as int) + out_v(
        cur,
    ).skip(mid.len() as int));
}

/// How a statement run ends: normal completion, an aborting error, or the
/// interpreter's own iteration limit.
pub enum StmtOutcome {
    Done,
    Fault(LoxErr),
    Limit,
}

/// Executes one statement against the environment, appending any output to
/// `out`.  Outside the iteration limit, the outcome, the environment and
/// the appended output are exactly those of the fueled semantics; the
/// limit can be reported only of a statement whose fueled run is still
/// unfinished at every fuel up to `u64::MAX`.
#[verifier::loop_isolation(false)]
#[verifier::rlimit(100)]
pub fn exec_statement(s: &Statement, env: &mut Environment, out: &mut Vec<String>) -> (r:
    StmtOutcome)
    requires
        env_wf(old(env)@),
    ensures
        env_wf(final(env)@),
        final(env)@.len() == old(env)@.len(),
        old(out)@.len() <= final(out)@.len(),
        final(out)@.subrange(0, old(out)@.len() as int) == old(out)@,
        match r {
            StmtOutcome::Done => stmt_yields(
                s@,
                old(env)@,
                final(env)@,
                out_v(final(out)@).skip(old(out)@.len() as int),
                Ok(()),
            ),
            StmtOutcome::Fault(e) => stmt_yields(
                s@,
                old(env)@,
                final(env)@,
                out_v(final(out)@).skip(old(out)@.len() as int),
                Err(e@),
            ),
            StmtOutcome::Limit => stmt_stalls(s@, old(env)@),
        },
    decreases *s,
{
    let ghost env0 = env@;
    let ghost out0 = out@;
    match s {
        Statement::Expression { expression } => match expression.evaluate(env) {
            Ok(v) => {
                proof {
                    lemma_eval_len(expression@, env0);
                    assert(out_v(out@).skip(out0.len() as int) =~= Seq::<Seq<char>>::empty());
                    assert(out@.subrange(0, out0.len() as int) =~= out0);
                    assert(exec_stmt(s@, env0, 0) == Some(
                        (env@, Seq::<Seq<char>>::empty(), Ok::<(), Seq<char>>(())),
                    ));
                }
                StmtOutcome::Done
            },
            Err(e) => {
                proof {
                    lemma_eval_len(expression@, env0);
                    assert(out_v(out@).skip(out0.len() as int) =~= Seq::<Seq<char>>::empty());
                    assert(out@.subrange(0, out0.len() as int) =~= out0);
                    assert(exec_stmt(s@, env0, 0) == Some(
                        (env@, Seq::<Seq<char>>::empty(), Err::<(), Seq<char>>(e@)),
                    ));
                }
                StmtOutcome::Fault(e)
            },
        },
        Statement::Print { expression } => match expression.evaluate(env) {
            Ok(v) => {
                let line = v.to_string();
                out.push(line);
                proof {
                    lemma_eval_len(expression@, env0);
                    assert(out_v(out@).skip(out0.len() as int) =~= seq![lit_text(v@)]);
                    assert(out@.subrange(0, out0.len() as int) =~= out0);
                    assert(exec_stmt(s@, env0, 0) == Some(
                        (env@, seq![lit_text(v@)], Ok::<(), Seq<char>>(())),
                    ));
                }
                StmtOutcome::Done
            },
            Err(e) => {
                proof {
                    lemma_eval_len(expression@, env0);
                    assert(out_v(out@).skip(out0.len() as int) =~= Seq::<Seq<char>>::empty());
                    assert(out@.subrange(0, out0.len() as int) =~= out0);
                    assert(exec_stmt(s@, env0, 0) == Some(
                        (env@, Seq::<Seq<char>>::empty(), Err::<(), Seq<char>>(e@)),
                    ));
                }
                StmtOutcome::Fault(e)
            },
        },
        Statement::Var { indentifier, expression } => match expression.evaluate(env) {
            Ok(v) => {
                let ghost vv = v@;
                env.define(indentifier.clone(), v);
                proof {
                    lemma_eval_len(expression@, env0);
                    assert(out_v(out@).skip(out0.len() as int) =~= Seq::<Seq<char>>::empty());
                    assert(out@.subrange(0, out0.len() as int) =~= out0);
                    assert(exec_stmt(s@, env0, 0) == Some(
                        (env@, Seq::<Seq<char>>::empty(), Ok::<(), Seq<char>>(())),
                    ));
                }
                StmtOutcome::Done
            },
            Err(e) => {
                proof {
                    lemma_eval_len(expression@, env0);
                    assert(out_v(out@).skip(out0.len() as int) =~= Seq::<Seq<char>>::empty());
                    assert(out@.subrange(0, out0.len() as int) =~= out0);
                    assert(exec_stmt(s@, env0, 0) == Some(
                        (env@, Seq::<Seq<char>>::empty(), Err::<(), Seq<char>>(e@)),
                    ));
                }
                StmtOutcome::Fault(e)
            },
        },
        Statement::Assert { expression_a } => match expression_a.evaluate(env) {
            Ok(v) => {
                proof {
                    lemma_eval_len(expression_a@, env0);
                    assert(out_v(out@).skip(out0.len() as int) =~= Seq::<Seq<char>>::empty());
                    assert(out@.subrange(0, out0.len() as int) =~= out0);
                }
                match v {
                    LiteralValue::True => {
                        proof {
                            assert(exec_stmt(s@, env0, 0) == Some(
                                (env@, Seq::<Seq<char>>::empty(), Ok::<(), Seq<char>>(())),
                            ));
                        }
                        StmtOutcome::Done
                    },
                    LiteralValue::False => {
                        proof {
                            assert(exec_stmt(s@, env0, 0) == Some(
                                (
                                    env@,
                                    Seq::<Seq<char>>::empty(),
                                    Err::<(), Seq<char>>(assertion_failed_msg()),
                                ),
                            ));
                        }
                        StmtOutcome::Fault(
                            LoxErr { msg: "Assertion Failed".to_owned() },
                        )
                    },
                    _ => {
                        proof {
                            assert(exec_stmt(s@, env0, 0) == Some(
                                (
                                    env@,
                                    Seq::<Seq<char>>::empty(),
                                    Err::<(), Seq<char>>(assert_not_boolean_msg()),
                                ),
                            ));
                        }
                        StmtOutcome::Fault(
                            LoxErr {
                                msg: "Assert expression must evaluate to a boolean".to_owned(),
                            },
                        )
                    },
                }
            },
            Err(e) => {
                out.push(e.msg);
                proof {
                    lemma_eval_len(expression_a@, env0);
                    assert(out_v(out@).skip(out0.len() as int) =~= seq![e@]);
                    assert(out@.subrange(0, out0.len() as int) =~= out0);
                    assert(exec_stmt(s@, env0, 0) == Some(
                        (env@, seq![e@], Ok::<(), Seq<char>>(())),
                    ));
                }
                StmtOutcome::Done
            },
        },
        Statement::If { conditional, happy_path, sad_path } => {
            let c = match conditional.evaluate(env) {
                Ok(v) => v,
                Err(e) => {
                    proof {
                        lemma_eval_len(conditional@, env0);
                        assert(out_v(out@).skip(out0.len() as int) =~= Seq::<Seq<char>>::empty());
                        assert(out@.subrange(0, out0.len() as int) =~= out0);
                        assert(exec_stmt(s@, env0, 0) == Some(
                            (env@, Seq::<Seq<char>>::empty(), Err::<(), Seq<char>>(e@)),
                        ));
                    }
                    return StmtOutcome::Fault(e);
                },
            };
            let ghost env_mid = env@;
            proof {
                lemma_eval_len(conditional@, env0);
            }
            match c {
                LiteralValue::True => {
                    let r = exec_statement(happy_path, env, out);
                    proof {
                        let hv = stmt_view(**happy_path);
                        if r is Limit {
                            assert forall|f: nat| f <= u64::MAX implies #[trigger] exec_stmt(
                                s@,
                                env0,
                                f,
                            ) is None by {
                                assert(exec_stmt(hv, env_mid, f) is None);
                            }
                        } else {
                            let rr: Result<(), Seq<char>> = match &r {
                                StmtOutcome::Done => Ok(()),
                                StmtOutcome::Fault(e) => Err(e@),
                                StmtOutcome::Limit => Ok(()),
                            };
                            let d = out_v(out@).skip(out0.len() as int);
                            let fb = choose|f: nat|
                                exec_stmt(hv, env_mid, f) == Some((env@, d, rr));
                            assert(exec_stmt(s@, env0, fb) == Some((env@, d, rr)));
                        }
                    }
                    r
                },
                LiteralValue::False => match sad_path {
                    Some(sp) => {
                        let r = exec_statement(sp, env, out);
                        proof {
                            let hv = stmt_view(**sp);
                            if r is Limit {
                                assert forall|f: nat| f <= u64::MAX implies #[trigger] exec_stmt(
                                    s@,
                                    env0,
                                    f,
                                ) is None by {
                                    assert(exec_stmt(hv, env_mid, f) is None);
                                }
                            } else {
                                let rr: Result<(), Seq<char>> = match &r {
                                    StmtOutcome::Done => Ok(()),
                                    StmtOutcome::Fault(e) => Err(e@),
                                    StmtOutcome::Limit => Ok(()),
                                };
                                let d = out_v(out@).skip(out0.len() as int);
                                let fb = choose|f: nat|
                                    exec_stmt(hv, env_mid, f) == Some((env@, d, rr));
                                assert(exec_stmt(s@, env0, fb) == Some((env@, d, rr)));
                            }
                        }
                        r
                    },
                    None => {
                        proof {
                            assert(out_v(out@).skip(out0.len() as int) =~= Seq::<
                                Seq<char>,
                            >::empty());
                            assert(out@.subrange(0, out0.len() as int) =~= out0);
                            assert(exec_stmt(s@, env0, 0) == Some(
                                (env@, Seq::<Seq<char>>::empty(), Ok::<(), Seq<char>>(())),
                            ));
                        }
                        StmtOutcome::Done
                    },
                },
                _ => {
                    proof {
                        assert(out_v(out@).skip(out0.len() as int) =~= Seq::<Seq<char>>::empty());
                        assert(out@.subrange(0, out0.len() as int) =~= out0);
                        assert(exec_stmt(s@, env0, 0) == Some(
                            (
                                env@,
                                Seq::<Seq<char>>::empty(),
                                Err::<(), Seq<char>>(if_not_boolean_msg()),
                            ),
                        ));
                    }
                    StmtOutcome::Fault(
                        LoxErr { msg: "Error should not ever get to this point".to_owned() },
                    )
                },
            }
        },
        Statement::Block { statements } => {
            env.push_scope();
            let ghost ssv = stmts_view(statements@);
            let ghost envp = env@;
            proof {
                lemma_stmts_view(statements@);
                assert(s@ == StmtV::Block { statements: ssv });
                assert(envp == env0.push(Map::empty()));
            }
            let n = statements.len();
            let mut i: usize = 0;
            proof {
                assert forall|f: nat| #[trigger] exec_stmts_from(ssv, i as int, env@, f) is Some
                    implies {
                    let t = exec_stmts_from(ssv, i as int, env@, f)->Some_0;
                    stmts_yield(
                        ssv,
                        0,
                        envp,
                        t.0,
                        out_v(out@).skip(out0.len() as int) + t.1,
                        t.2,
                    )
                } by {
                    let t = exec_stmts_from(ssv, i as int, env@, f)->Some_0;
                    assert(out_v(out@).skip(out0.len() as int) + t.1 =~= t.1);
                    assert(exec_stmts_from(ssv, 0, envp, f) == Some((t.0, t.1, t.2)));
                }
            }
            while i < n
                invariant
                    i <= n,
                    n == statements@.len(),
                    ssv == stmts_view(statements@),
                    ssv.len() == n,
                    forall|j: int| 0 <= j < n ==> ssv[j] == stmt_view(statements@[j]),
                    env_wf(env@),
                    env@.len() == env0.len() + 1,
                    envp == env0.push(Map::<Seq<char>, crate::value::LitV>::empty()),
                    out0.len() <= out@.len(),
                    out@.subrange(0, out0.len() as int) == out0,
                    forall|f: nat| #[trigger] exec_stmts_from(ssv, i as int, env@, f) is Some
                        ==> {
                        let t = exec_stmts_from(ssv, i as int, env@, f)->Some_0;
                        stmts_yield(
                            ssv,
                            0,
                            envp,
                            t.0,
                            out_v(out@).skip(out0.len() as int) + t.1,
                            t.2,
                        )
                    },
                    forall|f: nat| #[trigger] exec_stmts_from(ssv, 0, envp, f) is Some
                        ==> exec_stmts_from(ssv, i as int, env@, f) is Some,
                decreases n - i,
            {
                let ghost env_it = env@;
                let ghost out_it = out@;
                let r = exec_statement(&statements[i], env, out);
                proof {
                    lemma_delta_chain(out0, out_it, out@);
                }
                match r {
                    StmtOutcome::Done => {
                        proof {
                            let sv = stmt_view(statements@[i as int]);
                            let d = out_v(out@).skip(out_it.len() as int);
                            let fb = choose|f: nat|
                                exec_stmt(sv, env_it, f) == Some(
                                    (env@, d, Ok::<(), Seq<char>>(())),
                                );
                            assert forall|f: nat| #[trigger] exec_stmts_from(
                                ssv,
                                i + 1,
                                env@,
                                f,
                            ) is Some implies {
                                let t = exec_stmts_from(ssv, i + 1, env@, f)->Some_0;
                                stmts_yield(
                                    ssv,
                                    0,
                                    envp,
                                    t.0,
                                    out_v(out@).skip(out0.len() as int) + t.1,
                                    t.2,
                                )
                            } by {
                                let t = exec_stmts_from(ssv, i + 1, env@, f)->Some_0;
                                let bigf = if fb > f {
                                    fb
                                } else {
                                    f
                                };
                                lemma_stmt_fuel_mono(sv, env_it, fb, bigf);
                                lemma_stmts_fuel_mono(ssv, i + 1, env@, f, bigf);
                                assert(exec_stmts_from(ssv, i as int, env_it, bigf) == Some(
                                    (t.0, d + t.1, t.2),
                                ));
                                assert(out_v(out_it).skip(out0.len() as int) + (d + t.1) =~= out_v(
                                    out@,
                                ).skip(out0.len() as int) + t.1);
                            }
                            assert forall|f: nat| #[trigger] exec_stmts_from(ssv, 0, envp, f)
                                is Some implies exec_stmts_from(ssv, i + 1, env@, f) is Some by {
                                assert(exec_stmts_from(ssv, i as int, env_it, f) is Some);
                                assert(exec_stmt(sv, env_it, f) is Some);
                                lemma_stmt_deterministic(sv, env_it, f, fb);
                            }
                        }
                        i = i + 1;
                    },
                    StmtOutcome::Fault(e) => {
                        proof {
                            let sv = stmt_view(statements@[i as int]);
                            let d = out_v(out@).skip(out_it.len() as int);
                            let fb = choose|f: nat|
                                exec_stmt(sv, env_it, f) == Some((env@, d, Err::<(), Seq<char>>(e@)));
                            assert(exec_stmts_from(ssv, i as int, env_it, fb) == Some(
                                (env@, d, Err::<(), Seq<char>>(e@)),
                            ));
                            assert(out_v(out_it).skip(out0.len() as int) + d =~= out_v(out@).skip(
                                out0.len() as int,
                            ));
                            let fw = choose|f: nat|
                                exec_stmts_from(ssv, 0, envp, f) == Some(
                                    (env@, out_v(out@).skip(out0.len() as int), Err::<(), Seq<char>>(e@)),
                                );
                            lemma_stmts_len(ssv, 0, envp, fw);
                            assert(exec_stmt(s@, env0, fw) == Some(
                                (
                                    env@.drop_last(),
                                    out_v(out@).skip(out0.len() as int),
                                    Err::<(), Seq<char>>(e@),
                                ),
                            ));
                        }
                        env.pop_scope();
                        return StmtOutcome::Fault(e);
                    },
                    StmtOutcome::Limit => {
                        proof {
                            let sv = stmt_view(statements@[i as int]);
                            assert forall|f: nat| f <= u64::MAX implies #[trigger] exec_stmt(
                                s@,
                                env0,
                                f,
                            ) is None by {
                                if exec_stmts_from(ssv, 0, envp, f) is Some {
                                    assert(exec_stmts_from(ssv, i as int, env_it, f) is Some);
                                    assert(exec_stmt(sv, env_it, f) is None);
                                }
                            }
                        }
                        env.pop_scope();
                        return StmtOutcome::Limit;
                    },
                }
            }
            proof {
                assert(exec_stmts_from(ssv, n as int, env@, 0) == Some(
                    (env@, Seq::<Seq<char>>::empty(), Ok::<(), Seq<char>>(())),
                ));
                let fw = choose|f: nat|
                    exec_stmts_from(ssv, 0, envp, f) == Some(
                        (
                            env@,
                            out_v(out@).skip(out0.len() as int) + Seq::<Seq<char>>::empty(),
                            Ok::<(), Seq<char>>(()),
                        ),
                    );
                assert(out_v(out@).skip(out0.len() as int) + Seq::<Seq<char>>::empty() =~= out_v(
                    out@,
                ).skip(out0.len() as int));
                lemma_stmts_len(ssv, 0, envp, fw);
                assert(exec_stmt(s@, env0, fw) == Some(
                    (
                        env@.drop_last(),
                        out_v(out@).skip(out0.len() as int),
                        Ok::<(), Seq<char>>(()),
                    ),
                ));
            }
            env.pop_scope();
            StmtOutcome::Done
        },
        Statement::While { predicate, happy_path } => {
            let ghost wv = stmt_view(*s);
            let mut iter: u64 = 0;
            proof {
                assert forall|f: nat| #[trigger] exec_stmt(wv, env@, f) is Some implies {
                    let t = exec_stmt(wv, env@, f)->Some_0;
                    stmt_yields(wv, env0, t.0, out_v(out@).skip(out0.len() as int) + t.1, t.2)
                } by {
                    let t = exec_stmt(wv, env@, f)->Some_0;
                    assert(out_v(out@).skip(out0.len() as int) + t.1 =~= t.1);
                    assert(exec_stmt(wv, env0, f) == Some((t.0, t.1, t.2)));
                }
            }
            while iter < u64::MAX
                invariant
                    env_wf(env@),
                    env@.len() == env0.len(),
                    wv == stmt_view(*s),
                    out0.len() <= out@.len(),
                    out@.subrange(0, out0.len() as int) == out0,
                    forall|f: nat| #[trigger] exec_stmt(wv, env@, f) is Some ==> {
                        let t = exec_stmt(wv, env@, f)->Some_0;
                        stmt_yields(
                            wv,
                            env0,
                            t.0,
                            out_v(out@).skip(out0.len() as int) + t.1,
                            t.2,
                        )
                    },
                    forall|f: nat| #[trigger] exec_stmt(wv, env0, f) is Some ==> f >= iter as nat
                        && exec_stmt(wv, env@, (f - iter as nat) as nat) is Some,
                decreases u64::MAX - iter,
            {
                let ghost env_it = env@;
                let ghost out_it = out@;
                let c = match predicate.evaluate(env) {
                    Ok(v) => v,
                    Err(e) => {
                        proof {
                            lemma_eval_len(predicate@, env_it);
                            assert(exec_stmt(wv, env_it, 1) == Some(
                                (env@, Seq::<Seq<char>>::empty(), Err::<(), Seq<char>>(e@)),
                            ));
                            assert(out_v(out@).skip(out0.len() as int) + Seq::<
                                Seq<char>,
                            >::empty() =~= out_v(out@).skip(out0.len() as int));
                        }
                        return StmtOutcome::Fault(e);
                    },
                };
                proof {
                    lemma_eval_len(predicate@, env_it);
                }
                if !c.to_boolean() {
                    proof {
                        assert(exec_stmt(wv, env_it, 1) == Some(
                            (env@, Seq::<Seq<char>>::empty(), Ok::<(), Seq<char>>(())),
                        ));
                        assert(out_v(out@).skip(out0.len() as int) + Seq::<Seq<char>>::empty()
                            =~= out_v(out@).skip(out0.len() as int));
                    }
                    return StmtOutcome::Done;
                }
                let ghost env_mid = env@;
                let ghost out_mid = out@;
                let r = exec_statement(happy_path, env, out);
                proof {
                    lemma_delta_chain(out0, out_mid, out@);
                }
                match r {
                    StmtOutcome::Done => {
                        proof {
                            let hv = stmt_view(**happy_path);
                            let d = out_v(out@).skip(out_mid.len() as int);
                            let fb = choose|f: nat|
                                exec_stmt(hv, env_mid, f) == Some(
                                    (env@, d, Ok::<(), Seq<char>>(())),
                                );
                            assert forall|f: nat| #[trigger] exec_stmt(wv, env@, f) is Some
                                implies {
                                let t = exec_stmt(wv, env@, f)->Some_0;
                                stmt_yields(
                                    wv,
                                    env0,
                                    t.0,
                                    out_v(out@).skip(out0.len() as int) + t.1,
                                    t.2,
                                )
                            } by {
                                let t = exec_stmt(wv, env@, f)->Some_0;
                                let bigf = (if fb > f {
                                    fb
                                } else {
                                    f
                                }) + 1;
                                lemma_stmt_fuel_mono(hv, env_mid, fb, bigf);
                                lemma_stmt_fuel_mono(wv, env@, f, (bigf - 1) as nat);
                                assert(exec_stmt(wv, env_it, bigf) == Some(
                                    (t.0, d + t.1, t.2),
                                ));
                                assert(out_v(out_it).skip(out0.len() as int) + (d + t.1) =~=
                                    out_v(out@).skip(out0.len() as int) + t.1);
                            }
                            assert forall|f: nat| #[trigger] exec_stmt(wv, env0, f) is Some
                                implies f >= iter as nat + 1 && exec_stmt(
                                wv,
                                env@,
                                (f - (iter as nat + 1)) as nat,
                            ) is Some by {
                                let h = (f - iter as nat) as nat;
                                assert(exec_stmt(wv, env_it, h) is Some);
                                assert(exec_stmt(wv, env_it, 0) is None);
                                assert(exec_stmt(hv, env_mid, h) is Some);
                                lemma_stmt_deterministic(hv, env_mid, h, fb);
                                assert(exec_stmt(wv, env@, (h - 1) as nat) is Some);
                            }
                        }
                        iter = iter + 1;
                    },
                    StmtOutcome::Fault(e) => {
                        proof {
                            let hv = stmt_view(**happy_path);
                            let d = out_v(out@).skip(out_mid.len() as int);
                            let fb = choose|f: nat|
                                exec_stmt(hv, env_mid, f) == Some((env@, d, Err::<(), Seq<char>>(e@)));
                            let bigf = fb + 1;
                            lemma_stmt_fuel_mono(hv, env_mid, fb, bigf);
                            assert(exec_stmt(wv, env_it, bigf) == Some(
                                (env@, d, Err::<(), Seq<char>>(e@)),
                            ));
                            assert(out_v(out_it).skip(out0.len() as int) + d =~= out_v(out@).skip(
                                out0.len() as int,
                            ));
                        }
                        return StmtOutcome::Fault(e);
                    },
                    StmtOutcome::Limit => {
                        proof {
                            let hv = stmt_view(**happy_path);
                            assert forall|f: nat| f <= u64::MAX implies #[trigger] exec_stmt(
                                wv,
                                env0,
                                f,
                            ) is None by {
                                if exec_stmt(wv, env0, f) is Some {
                                    let h = (f - iter as nat) as nat;
                                    assert(exec_stmt(wv, env_it, h) is Some);
                                    assert(exec_stmt(wv, env_it, 0) is None);
                                    assert(exec_stmt(hv, env_mid, h) is None);
                                }
                            }
                        }
                        return StmtOutcome::Limit;
                    },
                }
            }
            proof {
                assert forall|f: nat| f <= u64::MAX implies #[trigger] exec_stmt(wv, env0, f)
                    is None by {
                    if exec_stmt(wv, env0, f) is Some {
                        assert(f >= iter as nat);
                        assert(exec_stmt(wv, env@, (f - iter as nat) as nat) is Some);
                        assert((f - iter as nat) as nat == 0);
                        assert(exec_stmt(wv, env@, 0) is None);
                    }
                }
            }
            StmtOutcome::Limit
        },
    }
}


/// The run completed the first `i` statements and stuck on statement `i`:
/// some fuel completes that prefix with `Ok`, the prefix's output opens the
/// produced output, and no fuel up to the budget completes statement `i`
/// from the state the prefix reached.
pub open spec fn stalled_at(ss: Seq<StmtV>, i: int, env0: EnvV, produced: OutV) -> bool {
    exists|f: nat, envm: EnvV, d1: OutV|
        run_stmts(#[trigger] ss.subrange(0, i), env0, f) == Some(
            (envm, d1, Ok::<(), Seq<char>>(())),
        ) && d1.is_prefix_of(produced) && stmt_stalls(ss[i], envm)
}

/// Running `p.push(x)` from `j` is running `p` from `j`, then `x`, under
/// one fuel.
pub proof fn lemma_stmts_snoc(p: Seq<StmtV>, x: StmtV, j: int, env: EnvV, fuel: nat)
    requires
        0 <= j <= p.len(),
    ensures
        exec_stmts_from(p.push(x), j, env, fuel) == (match exec_stmts_from(p, j, env, fuel) {
            None => None::<(EnvV, OutV, Result<(), Seq<char>>)>,
            Some(t) => match t.2 {
                Err(m) => Some(t),
                Ok(u) => match exec_stmt(x, t.0, fuel) {
                    None => None::<(EnvV, OutV, Result<(), Seq<char>>)>,
                    Some(t2) => Some((t2.0, t.1 + t2.1, t2.2)),
                },
            },
        }),
    decreases p.len() - j,
{
    if j == p.len() {
        assert(p.push(x)[j] == x);
        match exec_stmt(x, env, fuel) {
            None => {},
            Some(t2) => {
                assert(exec_stmts_from(p.push(x), j + 1, t2.0, fuel) == Some(
                    (t2.0, Seq::<Seq<char>>::empty(), Ok::<(), Seq<char>>(())),
                ));
                match t2.2 {
                    Err(m) => {},
                    Ok(u) => {
                        assert(t2.1 + Seq::<Seq<char>>::empty() =~= t2.1);
                        assert(Seq::<Seq<char>>::empty() + t2.1 =~= t2.1);
                    },
                }
            },
        }
    } else {
        assert(p.push(x)[j] == p[j]);
        match exec_stmt(p[j], env, fuel) {
            None => {},
            Some(h) => {
                match h.2 {
                    Err(m) => {},
                    Ok(u) => {
                        lemma_stmts_snoc(p, x, j + 1, h.0, fuel);
                        match exec_stmts_from(p, j + 1, h.0, fuel) {
                            None => {},
                            Some(t) => {
                                match t.2 {
                                    Err(m2) => {},
                                    Ok(u2) => {
                                        match exec_stmt(x, t.0, fuel) {
                                            None => {},
                                            Some(t2) => {
                                                assert(h.1 + (t.1 + t2.1) =~= (h.1 + t.1) + t2.1);
                                            },
                                        }
                                    },
                                }
                            },
                        }
                    },
                }
            },
        }
    }
}

/// One completed statement extends the completed-prefix facts: completions
/// of the rest from the new state map to whole-program yields with the new
/// output prefix, and any whole-program completion still completes the rest
/// from the new state.
proof fn lemma_prefix_step(
    ssv: Seq<StmtV>,
    i: int,
    env0: EnvV,
    env_it: EnvV,
    env_new: EnvV,
    d_pre: OutV,
    d: OutV,
)
    requires
        0 <= i < ssv.len(),
        stmt_yields(ssv[i], env_it, env_new, d, Ok(())),
        forall|f: nat| #[trigger] exec_stmts_from(ssv, i, env_it, f) is Some ==> {
            let t = exec_stmts_from(ssv, i, env_it, f)->Some_0;
            stmts_yield(ssv, 0, env0, t.0, d_pre + t.1, t.2)
        },
        forall|f: nat| #[trigger] exec_stmts_from(ssv, 0, env0, f) is Some
            ==> exec_stmts_from(ssv, i, env_it, f) is Some,
    ensures
        forall|f: nat| #[trigger] exec_stmts_from(ssv, i + 1, env_new, f) is Some ==> {
            let t = exec_stmts_from(ssv, i + 1, env_new, f)->Some_0;
            stmts_yield(ssv, 0, env0, t.0, (d_pre + d) + t.1, t.2)
        },
        forall|f: nat| #[trigger] exec_stmts_from(ssv, 0, env0, f) is Some
            ==> exec_stmts_from(ssv, i + 1, env_new, f) is Some,
{
    let fb = choose|f: nat|
        exec_stmt(ssv[i], env_it, f) == Some((env_new, d, Ok::<(), Seq<char>>(())));
    assert forall|f: nat| #[trigger] exec_stmts_from(ssv, i + 1, env_new, f) is Some implies {
        let t = exec_stmts_from(ssv, i + 1, env_new, f)->Some_0;
        stmts_yield(ssv, 0, env0, t.0, (d_pre + d) + t.1, t.2)
    } by {
        let t = exec_stmts_from(ssv, i + 1, env_new, f)->Some_0;
        let bigf = if fb > f {
            fb
        } else {
            f
        };
        lemma_stmt_fuel_mono(ssv[i], env_it, fb, bigf);
        lemma_stmts_fuel_mono(ssv, i + 1, env_new, f, bigf);
        assert(exec_stmts_from(ssv, i, env_it, bigf) == Some((t.0, d + t.1, t.2)));
        assert(d_pre + (d + t.1) =~= (d_pre + d) + t.1);
    }
    assert forall|f: nat| #[trigger] exec_stmts_from(ssv, 0, env0, f) is Some
        implies exec_stmts_from(ssv, i + 1, env_new, f) is Some by {
        assert(exec_stmts_from(ssv, i, env_it, f) is Some);
        assert(exec_stmt(ssv[i], env_it, f) is Some);
        lemma_stmt_deterministic(ssv[i], env_it, f, fb);
    }
}

/// Runs the statements in order against the environment, appending any
/// output to `out`.  Outside the iteration limit, the outcome is exactly
/// that of the fueled semantics; the limit can be reported only when the
/// fueled run is still unfinished at every fuel up to `u64::MAX`.
#[verifier::loop_isolation(false)]
#[verifier::rlimit(100)]
#[verifier::spinoff_prover]
pub fn run_statements(statements: &Vec<Statement>, env: &mut Environment, out: &mut Vec<String>) -> (r: StmtOutcome)
    requires
        env_wf(old(env)@),
    ensures
        env_wf(final(env)@),
        final(env)@.len() == old(env)@.len(),
        old(out)@.len() <= final(out)@.len(),
        final(out)@.subrange(0, old(out)@.len() as int) == old(out)@,
        match r {
            StmtOutcome::Done => exists|f: nat|
                run_stmts(stmts_view(statements@), old(env)@, f) == Some(
                    (
                        final(env)@,
                        out_v(final(out)@).skip(old(out)@.len() as int),
                        Ok::<(), Seq<char>>(()),
                    ),
                ),
            StmtOutcome::Fault(e) => exists|f: nat|
                run_stmts(stmts_view(statements@), old(env)@, f) == Some(
                    (
                        final(env)@,
                        out_v(final(out)@).skip(old(out)@.len() as int),
                        Err::<(), Seq<char>>(e@),
                    ),
                ),
            StmtOutcome::Limit => program_stalls(stmts_view(statements@), old(env)@) && exists|
                i: int,
            |
                0 <= i < stmts_view(statements@).len() && stalled_at(
                    stmts_view(statements@),
                    i,
                    old(env)@,
                    out_v(final(out)@).skip(old(out)@.len() as int),
                ),
        },
{
    let ghost ssv = stmts_view(statements@);
    let ghost env0 = old(env)@;
    let ghost out0 = old(out)@;
    proof {
        lemma_stmts_view(statements@);
        assert forall|f: nat| #[trigger] exec_stmts_from(ssv, 0, env@, f) is Some implies {
            let t = exec_stmts_from(ssv, 0, env@, f)->Some_0;
            stmts_yield(ssv, 0, env0, t.0, out_v(out@).skip(out0.len() as int) + t.1, t.2)
        } by {
            let t = exec_stmts_from(ssv, 0, env@, f)->Some_0;
            assert(out_v(out@).skip(out0.len() as int) + t.1 =~= t.1);
            assert(exec_stmts_from(ssv, 0, env0, f) == Some((t.0, t.1, t.2)));
        }
    }
    let n = statements.len();
    let mut i: usize = 0;
    proof {
        assert(ssv.subrange(0, 0) =~= Seq::<StmtV>::empty());
        assert(run_stmts(ssv.subrange(0, 0), env0, 0) == Some(
            (env0, Seq::<Seq<char>>::empty(), Ok::<(), Seq<char>>(())),
        ));
        assert(out_v(out@).skip(out0.len() as int) =~= Seq::<Seq<char>>::empty());
    }
    while i < n
        invariant
            i <= n,
            env_wf(env@),
            env@.len() == env0.len(),
            out0.len() <= out@.len(),
            out@.subrange(0, out0.len() as int) == out0,
            exists|f: nat|
                run_stmts(ssv.subrange(0, i as int), env0, f) == Some(
                    (env@, out_v(out@).skip(out0.len() as int), Ok::<(), Seq<char>>(())),
                ),
            forall|f: nat| #[trigger] exec_stmts_from(ssv, i as int, env@, f) is Some ==> {
                let t = exec_stmts_from(ssv, i as int, env@, f)->Some_0;
                stmts_yield(ssv, 0, env0, t.0, out_v(out@).skip(out0.len() as int) + t.1, t.2)
            },
            forall|f: nat| #[trigger] exec_stmts_from(ssv, 0, env0, f) is Some
                ==> exec_stmts_from(ssv, i as int, env@, f) is Some,
        decreases n - i,
    {
        let ghost env_it = env@;
        let ghost out_it = out@;
        let r = exec_statement(&statements[i], env, out);
        proof {
            lemma_delta_chain(out0, out_it, out@);
        }
        match r {
            StmtOutcome::Done => {
                proof {
                    let d = out_v(out@).skip(out_it.len() as int);
                    lemma_prefix_step(
                        ssv,
                        i as int,
                        env0,
                        env_it,
                        env@,
                        out_v(out_it).skip(out0.len() as int),
                        d,
                    );
                    assert(out_v(out_it).skip(out0.len() as int) + d =~= out_v(out@).skip(
                        out0.len() as int,
                    ));
                    let fb = choose|f: nat|
                        exec_stmt(ssv[i as int], env_it, f) == Some(
                            (env@, d, Ok::<(), Seq<char>>(())),
                        );
                    let fp = choose|f: nat|
                        run_stmts(ssv.subrange(0, i as int), env0, f) == Some(
                            (
                                env_it,
                                out_v(out_it).skip(out0.len() as int),
                                Ok::<(), Seq<char>>(()),
                            ),
                        );
                    let bigf = if fp > fb {
                        fp
                    } else {
                        fb
                    };
                    lemma_stmts_fuel_mono(ssv.subrange(0, i as int), 0, env0, fp, bigf);
                    lemma_stmt_fuel_mono(ssv[i as int], env_it, fb, bigf);
                    lemma_stmts_snoc(ssv.subrange(0, i as int), ssv[i as int], 0, env0, bigf);
                    assert(ssv.subrange(0, i as int).push(ssv[i as int]) =~= ssv.subrange(
                        0,
                        i + 1,
                    ));
                    assert(run_stmts(ssv.subrange(0, i + 1), env0, bigf) == Some(
                        (env@, out_v(out@).skip(out0.len() as int), Ok::<(), Seq<char>>(())),
                    ));
                }
                i = i + 1;
            },
            StmtOutcome::Fault(e) => {
                proof {
                    let sv = stmt_view(statements@[i as int]);
                    let d = out_v(out@).skip(out_it.len() as int);
                    let fb = choose|f: nat|
                        exec_stmt(sv, env_it, f) == Some((env@, d, Err::<(), Seq<char>>(e@)));
                    assert(exec_stmts_from(ssv, i as int, env_it, fb) == Some(
                        (env@, d, Err::<(), Seq<char>>(e@)),
                    ));
                    assert(out_v(out_it).skip(out0.len() as int) + d =~= out_v(out@).skip(
                        out0.len() as int,
                    ));
                    let fw = choose|f: nat|
                        exec_stmts_from(ssv, 0, env0, f) == Some(
                            (env@, out_v(out@).skip(out0.len() as int), Err::<(), Seq<char>>(e@)),
                        );
                    assert(run_stmts(ssv, env0, fw) == Some(
                        (env@, out_v(out@).skip(out0.len() as int), Err::<(), Seq<char>>(e@)),
                    ));
                }
                return StmtOutcome::Fault(e);
            },
            StmtOutcome::Limit => {
                proof {
                    let sv = stmt_view(statements@[i as int]);
                    assert forall|f: nat| f <= u64::MAX implies #[trigger] run_stmts(
                        ssv,
                        env0,
                        f,
                    ) is None by {
                        if exec_stmts_from(ssv, 0, env0, f) is Some {
                            assert(exec_stmts_from(ssv, i as int, env_it, f) is Some);
                            assert(exec_stmt(sv, env_it, f) is None);
                        }
                    }
                    let d_pre = out_v(out_it).skip(out0.len() as int);
                    let d_all = out_v(out@).skip(out0.len() as int);
                    assert(d_pre.is_prefix_of(d_all)) by {
                        assert(d_all.subrange(0, d_pre.len() as int) =~= d_pre);
                    }
                    let fp = choose|f: nat|
                        run_stmts(ssv.subrange(0, i as int), env0, f) == Some(
                            (env_it, d_pre, Ok::<(), Seq<char>>(())),
                        );
                    assert(stalled_at(ssv, i as int, env0, d_all));
                }
                return StmtOutcome::Limit;
            },
        }
    }
    proof {
        assert(exec_stmts_from(ssv, n as int, env@, 0) == Some(
            (env@, Seq::<Seq<char>>::empty(), Ok::<(), Seq<char>>(())),
        ));
        assert(out_v(out@).skip(out0.len() as int) + Seq::<Seq<char>>::empty() =~= out_v(
            out@,
        ).skip(out0.len() as int));
        let fw = choose|f: nat|
            exec_stmts_from(ssv, 0, env0, f) == Some(
                (env@, out_v(out@).skip(out0.len() as int), Ok::<(), Seq<char>>(())),
            );
        assert(run_stmts(ssv, env0, fw) == Some(
            (env@, out_v(out@).skip(out0.len() as int), Ok::<(), Seq<char>>(())),
        ));
    }
    StmtOutcome::Done
}

/// The interpreter: the persistent environment a program (or a REPL
/// session) runs against.
pub struct Interpreter {
    env: Environment,
}

impl View for Interpreter {
    type V = EnvV;

    closed spec fn view(&self) -> EnvV {
        self.env@
    }
}

impl Interpreter {
    /// A fresh interpreter: one empty global scope.
    pub fn new() -> (r: Self)
        ensures
            r@ =~= seq![Map::<Seq<char>, LitV>::empty()],
            env_wf(r@),
    {
        Interpreter { env: Environment::new() }
    }

    /// Interprets the statements in order against the environment: the
    /// lines printed and the final outcome are exactly those of the fueled
    /// semantics under some fuel.  The one exception is the interpreter's
    /// own iteration limit, reported as `loop_limit_msg`; it can be
    /// reported only of a program whose fueled run is still unfinished at
    /// every fuel up to `u64::MAX`, so a terminating program's outcome is
    /// always the semantics' own.
    pub fn interpret(&mut self, statements: Vec<Statement>) -> (r: (Vec<String>, Result<
        (),
        LoxErr,
    >))
        requires
            env_wf(old(self)@),
        ensures
            env_wf(final(self)@),
            match r.1 {
                Ok(u) => exists|f: nat|
                    run_stmts(stmts_view(statements@), old(self)@, f) == Some(
                        (final(self)@, out_v(r.0@), Ok::<(), Seq<char>>(())),
                    ),
                Err(e) => (e@ == loop_limit_msg() && program_stalls(
                    stmts_view(statements@),
                    old(self)@,
                ) && exists|i: int|
                    0 <= i < stmts_view(statements@).len() && stalled_at(
                        stmts_view(statements@),
                        i,
                        old(self)@,
                        out_v(r.0@),
                    )) || exists|f: nat|
                    run_stmts(stmts_view(statements@), old(self)@, f) == Some(
                        (final(self)@, out_v(r.0@), Err::<(), Seq<char>>(e@)),
                    ),
            },
    {
        let mut out: Vec<String> = Vec::new();
        let outcome = run_statements(&statements, &mut self.env, &mut out);
        proof {
            assert(out_v(out@).skip(0) =~= out_v(out@));
            if outcome is Limit {
                let ghost ssv = stmts_view(statements@);
                let wi = choose|i: int|
                    0 <= i < ssv.len() && stalled_at(ssv, i, old(self)@, out_v(out@).skip(0));
                assert(stalled_at(ssv, wi, old(self)@, out_v(out@)));
            }
        }
        match outcome {
            StmtOutcome::Done => (out, Ok(())),
            StmtOutcome::Fault(e) => (out, Err(e)),
            StmtOutcome::Limit => (
                out,
                Err(LoxErr { msg: "Loop iteration limit reached".to_owned() }),
            ),
        }
    }
}

} // verus!
