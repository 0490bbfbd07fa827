//! The laws of the library: properties that hold of the evaluator, the
//! environment and the interpreter, stated over the specification-level
//! semantics and proved here.  The environment's own laws (a defined name
//! reads back, assignment to an absent name changes nothing, assignment
//! writes the innermost binding scope) live beside it in `environment`.

use vstd::prelude::*;

use crate::environment::{env_wf, EnvV};
use crate::expr::{binary_result, eval_expr, ExprV};
use crate::float_bits::{div_bits, is_nan, is_negative, repeat_count};
use crate::interpreter::{exec_stmt, exec_stmts_from, program_stalls, run_stmts};
use crate::parser::parse_program;
use crate::statement::StmtV;
use crate::token::TokV;
use crate::text::seq_repeat;
use crate::token::TokenType;
use crate::value::{truthy, LitV};

verus! {

/// `e` contains no assignment, so evaluating it cannot mutate any binding.
pub open spec fn assignment_free(e: ExprV) -> bool
    decreases e,
{
    match e {
        ExprV::Binary { left, op, right } => assignment_free(*left) && assignment_free(*right),
        ExprV::Grouping { expression } => assignment_free(*expression),
        ExprV::LiteralExpr { literal } => true,
        ExprV::Unary { operator, right } => assignment_free(*right),
        ExprV::Var { identifier } => true,
        ExprV::Assignment { name, value } => false,
        ExprV::Logical { left, op, right } => assignment_free(*left) && assignment_free(*right),
    }
}

/// Evaluation of an assignment-free expression is referentially transparent
/// within one environment state: it leaves every binding exactly as it
/// found it (and, `eval_expr` being a function, two evaluations in the same
/// state agree).
pub proof fn lemma_pure_eval_preserves_env(e: ExprV, env: EnvV)
    requires
        assignment_free(e),
    ensures
        eval_expr(e, env).1 == env,
    decreases e,
{
    match e {
        ExprV::Binary { left, op, right } => {
            lemma_pure_eval_preserves_env(*left, env);
            lemma_pure_eval_preserves_env(*right, eval_expr(*left, env).1);
        },
        ExprV::Grouping { expression } => {
            lemma_pure_eval_preserves_env(*expression, env);
        },
        ExprV::Unary { operator, right } => {
            lemma_pure_eval_preserves_env(*right, env);
        },
        ExprV::Logical { left, op, right } => {
            lemma_pure_eval_preserves_env(*left, env);
            lemma_pure_eval_preserves_env(*right, eval_expr(*left, env).1);
        },
        _ => {},
    }
}

/// Short-circuit for `and`: when the left operand's truthiness is false,
/// the whole expression is `false` and the right operand is never touched —
/// the environment is exactly the one the left operand left behind.
pub proof fn lemma_short_circuit_and(left: ExprV, op: crate::token::TokV, right: ExprV, env: EnvV)
    requires
        op.token_type == TokenType::AND,
        eval_expr(left, env).0 matches Ok(v) && !truthy(v),
    ensures
        eval_expr(
            ExprV::Logical { left: Box::new(left), op, right: Box::new(right) },
            env,
        ) == (Ok::<LitV, Seq<char>>(LitV::False), eval_expr(left, env).1),
{
}

/// Short-circuit for `or`: when the left operand's truthiness is true, the
/// whole expression is `true` and the right operand is never touched.
pub proof fn lemma_short_circuit_or(left: ExprV, op: crate::token::TokV, right: ExprV, env: EnvV)
    requires
        op.token_type == TokenType::OR,
        eval_expr(left, env).0 matches Ok(v) && truthy(v),
    ensures
        eval_expr(
            ExprV::Logical { left: Box::new(left), op, right: Box::new(right) },
            env,
        ) == (Ok::<LitV, Seq<char>>(LitV::True), eval_expr(left, env).1),
{
}

/// Division of a number by a number never raises an error, zero divisor
/// included: the result is whatever IEEE division yields.  The division
/// wrapper's contract adds the zero-divisor values: NaN over a zero
/// divisor when the dividend is zero or NaN, otherwise an infinity whose
/// sign is the exclusive or of the operands' signs.
pub proof fn lemma_division_no_error(a: u64, b: u64)
    ensures
        binary_result(LitV::FValue(a), LitV::FValue(b), TokenType::SLASH) == Ok::<LitV, Seq<char>>(
            LitV::FValue(div_bits(a, b)),
        ),
{
}

/// String repetition by a negative or NaN count yields the empty string.
pub proof fn lemma_repeat_negative_or_nan(a: Seq<char>, b: u64)
    requires
        is_negative(b) || is_nan(b),
    ensures
        binary_result(LitV::StringValue(a), LitV::FValue(b), TokenType::STAR) == Ok::<
            LitV,
            Seq<char>,
        >(LitV::StringValue(Seq::empty())),
{
    assert(repeat_count(b) == 0);
    assert(seq_repeat(a, 0) =~= Seq::<char>::empty());
}

/// An empty program runs with no output, no error and an untouched
/// environment, under any fuel.
pub proof fn lemma_empty_program(env: EnvV, fuel: nat)
    ensures
        run_stmts(Seq::empty(), env, fuel) == Some(
            (env, Seq::<Seq<char>>::empty(), Ok::<(), Seq<char>>(())),
        ),
{
}

/// Block scope is hygienic: a block pushes one fresh scope, runs its body
/// there, and discards exactly that innermost scope on every exit path, so
/// a `var` declared inside the block is not visible after it.
pub proof fn lemma_block_hygiene(ss: Seq<StmtV>, env: EnvV, fuel: nat)
    requires
        env_wf(env),
    ensures
        exec_stmt(StmtV::Block { statements: ss }, env, fuel) matches Some(t) ==> {
            let inner = crate::interpreter::exec_stmts_from(
                ss,
                0,
                env.push(Map::empty()),
                fuel,
            );
            inner matches Some(u) && t.0 == u.0.drop_last() && t.0.len() == env.len()
        },
{
    crate::interpreter::lemma_stmts_len(ss, 0, env.push(Map::empty()), fuel);
}


/// Parsing is deterministic: for one token stream the specification parser
/// has a single answer, so any two results that `Parser::parse` can return
/// for it carry the same statements.
pub proof fn lemma_parsing_deterministic(toks: Seq<TokV>, a: Seq<StmtV>, b: Seq<StmtV>)
    requires
        a == parse_program(toks, 0).0,
        b == parse_program(toks, 0).0,
    ensures
        a == b,
{
}


/// `s` contains no `while` loop.
pub open spec fn while_free(s: StmtV) -> bool
    decreases s,
{
    match s {
        StmtV::Expression { expression } => true,
        StmtV::Print { expression } => true,
        StmtV::Var { indentifier, expression } => true,
        StmtV::Assert { expression_a } => true,
        StmtV::Block { statements } => while_free_from(statements, 0),
        StmtV::If { conditional, happy_path, sad_path } => while_free(*happy_path) && (match
        sad_path {
            Some(sp) => while_free(*sp),
            None => true,
        }),
        StmtV::While { predicate, happy_path } => false,
    }
}

/// No statement of `ss` from index `i` on contains a `while` loop.
pub open spec fn while_free_from(ss: Seq<StmtV>, i: int) -> bool
    decreases ss, ss.len() - i,
{
    if i < 0 || i >= ss.len() {
        true
    } else {
        while_free(ss[i]) && while_free_from(ss, i + 1)
    }
}

/// A statement without `while` completes under every fuel: only a loop can
/// exhaust the interpreter's iteration budget.
pub proof fn lemma_while_free_total(s: StmtV, env: EnvV, fuel: nat)
    requires
        while_free(s),
    ensures
        exec_stmt(s, env, fuel) is Some,
    decreases fuel, s, 0int,
{
    match s {
        StmtV::Block { statements } => {
            lemma_while_free_seq_total(statements, 0, env.push(Map::empty()), fuel);
        },
        StmtV::If { conditional, happy_path, sad_path } => {
            let (r, env1) = eval_expr(conditional, env);
            match r {
                Ok(v) => match v {
                    LitV::True => {
                        lemma_while_free_total(*happy_path, env1, fuel);
                    },
                    LitV::False => match sad_path {
                        Some(sp) => {
                            lemma_while_free_total(*sp, env1, fuel);
                        },
                        None => {},
                    },
                    _ => {},
                },
                Err(m) => {},
            }
        },
        _ => {},
    }
}

/// The sequence form of `lemma_while_free_total`.
pub proof fn lemma_while_free_seq_total(ss: Seq<StmtV>, i: int, env: EnvV, fuel: nat)
    requires
        while_free_from(ss, i),
    ensures
        exec_stmts_from(ss, i, env, fuel) is Some,
    decreases fuel, ss, ss.len() - i,
{
    if 0 <= i < ss.len() {
        lemma_while_free_total(ss[i], env, fuel);
        let h = exec_stmt(ss[i], env, fuel)->Some_0;
        if h.2 is Ok {
            lemma_while_free_seq_total(ss, i + 1, h.0, fuel);
        }
    }
}

/// A program without `while` never stalls, so the interpreter can never
/// report its iteration limit for it: by `Interpreter::interpret`'s
/// contract, such a program's outcome is always the fueled semantics' own.
pub proof fn lemma_while_free_never_stalls(ss: Seq<StmtV>, env: EnvV)
    requires
        while_free_from(ss, 0),
    ensures
        !program_stalls(ss, env),
{
    lemma_while_free_seq_total(ss, 0, env, 0);
    assert(run_stmts(ss, env, 0) is Some);
}

} // verus!
