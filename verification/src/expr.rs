//! Expressions: the expression AST, its S-expression rendering, and the
//! evaluator.  The specification-level evaluator `eval_expr` pins down, for
//! every expression and environment, both the outcome (value or error
//! message) and the environment after evaluation; the executable
//! `Expr::evaluate` is verified against it.

use vstd::prelude::*;

use crate::environment::{
    contains_name, env_assign, env_wf, lemma_env_assign_len, lookup, EnvV, Environment,
};
use crate::float_bits::{
    add_bits, div_bits, ieee_eq, ieee_le, ieee_lt, mul_bits, negated, num_add, num_div, num_eq,
    num_le, num_lt, num_mul, num_negate, num_repeat_count, num_sub, repeat_count, sub_bits,
};
use crate::text::{
    chars_of_str, concat_strings, lex_le, lex_lt, push_str_chars, repeat_string, seq_repeat,
    str_eq, str_lt, string_from_chars,
};
use crate::token::{TokV, Token};
use crate::token::TokenType;
use crate::value::{bool_lit, lit_text, truthy, LitV, LiteralValue};
use crate::LoxErr;

verus! {

/// The expression AST.  `Logical` carries `and`/`or`, which short-circuit;
/// every other operator lives in `Binary`.
pub enum Expr {
    Binary { left: Box<Expr>, op: Token, right: Box<Expr> },
    Grouping { expression: Box<Expr> },
    LiteralExpr { literal: LiteralValue },
    Unary { operator: Token, right: Box<Expr> },
    Var { identifier: String },
    Assignment { name: String, value: Box<Expr> },
    Logical { left: Box<Expr>, op: Token, right: Box<Expr> },
}

/// The mathematical shape of an expression.
#[verifier::ext_equal]
pub enum ExprV {
    Binary { left: Box<ExprV>, op: TokV, right: Box<ExprV> },
    Grouping { expression: Box<ExprV> },
    LiteralExpr { literal: LitV },
    Unary { operator: TokV, right: Box<ExprV> },
    Var { identifier: Seq<char> },
    Assignment { name: Seq<char>, value: Box<ExprV> },
    Logical { left: Box<ExprV>, op: TokV, right: Box<ExprV> },
}

/// The view of an expression.
pub open spec fn expr_view(e: Expr) -> ExprV
    decreases e,
{
    match e {
        Expr::Binary { left, op, right } => ExprV::Binary {
            left: Box::new(expr_view(*left)),
            op: op@,
            right: Box::new(expr_view(*right)),
        },
        Expr::Grouping { expression } => ExprV::Grouping {
            expression: Box::new(expr_view(*expression)),
        },
        Expr::LiteralExpr { literal } => ExprV::LiteralExpr { literal: literal@ },
        Expr::Unary { operator, right } => ExprV::Unary {
            operator: operator@,
            right: Box::new(expr_view(*right)),
        },
        Expr::Var { identifier } => ExprV::Var { identifier: identifier@ },
        Expr::Assignment { name, value } => ExprV::Assignment {
            name: name@,
            value: Box::new(expr_view(*value)),
        },
        Expr::Logical { left, op, right } => ExprV::Logical {
            left: Box::new(expr_view(*left)),
            op: op@,
            right: Box::new(expr_view(*right)),
        },
    }
}

impl View for Expr {
    type V = ExprV;

    open spec fn view(&self) -> ExprV {
        expr_view(*self)
    }
}

/// The message reported when a variable is read but not bound.
pub open spec fn undefined_var_msg(name: Seq<char>) -> Seq<char> {
    "Undefined Var "@ + name
}

/// The message reported when an assignment target is not bound.
pub open spec fn undeclared_var_msg(name: Seq<char>) -> Seq<char> {
    "Variable "@ + name + " has not been declared"@
}

/// The outcome of a unary operator on an evaluated operand.
pub open spec fn unary_result(v: LitV, t: TokenType) -> Result<LitV, Seq<char>> {
    match t {
        TokenType::MINUS => match v {
            LitV::FValue(b) => Ok(LitV::FValue(negated(b))),
            _ => Err("Unable to negate this expression"@),
        },
        TokenType::BANG => Ok(bool_lit(!truthy(v))),
        _ => Err("Invalid unary operator"@),
    }
}

/// The outcome of a binary (non-logical) operator on two evaluated
/// operands.  Numbers take arithmetic, comparison and equality; strings
/// take concatenation, comparison and equality; a string times a number is
/// repetition; every other pairing is a type error.
pub open spec fn binary_result(x: LitV, y: LitV, t: TokenType) -> Result<LitV, Seq<char>> {
    match (x, y) {
        (LitV::FValue(a), LitV::FValue(b)) => match t {
            TokenType::PLUS => Ok(LitV::FValue(add_bits(a, b))),
            TokenType::MINUS => Ok(LitV::FValue(sub_bits(a, b))),
            TokenType::STAR => Ok(LitV::FValue(mul_bits(a, b))),
            TokenType::SLASH => Ok(LitV::FValue(div_bits(a, b))),
            TokenType::GREATER => Ok(bool_lit(ieee_lt(b, a))),
            TokenType::GREATEREQUAL => Ok(bool_lit(ieee_le(b, a))),
            TokenType::LESS => Ok(bool_lit(ieee_lt(a, b))),
            TokenType::LESSEQUAL => Ok(bool_lit(ieee_le(a, b))),
            TokenType::EQUALEQUAL => Ok(bool_lit(ieee_eq(a, b))),
            TokenType::BANGEQUAL => Ok(bool_lit(!ieee_eq(a, b))),
            _ => Err("Invalid operands to binary operator"@),
        },
        (LitV::StringValue(a), LitV::StringValue(b)) => match t {
            TokenType::PLUS => Ok(LitV::StringValue(a + b)),
            TokenType::EQUALEQUAL => Ok(bool_lit(a == b)),
            TokenType::BANGEQUAL => Ok(bool_lit(a != b)),
            TokenType::LESS => Ok(bool_lit(lex_lt(a, b))),
            TokenType::LESSEQUAL => Ok(bool_lit(lex_le(a, b))),
            TokenType::GREATER => Ok(bool_lit(lex_lt(b, a))),
            TokenType::GREATEREQUAL => Ok(bool_lit(lex_le(b, a))),
            _ => Err("Invalid operands to binary operator"@),
        },
        (LitV::StringValue(a), LitV::FValue(b)) => match t {
            TokenType::STAR => Ok(LitV::StringValue(seq_repeat(a, repeat_count(b) as nat))),
            _ => Err("Invalid operands to binary operator"@),
        },
        _ => Err("Invalid operands to binary operator"@),
    }
}

/// The specification-level evaluator: the outcome and the environment after
/// evaluating `e` in `env`.  Operands evaluate left before right; `and` and
/// `or` short-circuit, so a falsy (resp. truthy) left operand yields the
/// result without touching the right operand or its effects.
pub open spec fn eval_expr(e: ExprV, env: EnvV) -> (Result<LitV, Seq<char>>, EnvV)
    decreases e,
{
    match e {
        ExprV::LiteralExpr { literal } => (Ok(literal), env),
        ExprV::Grouping { expression } => eval_expr(*expression, env),
        ExprV::Var { identifier } => (
            match lookup(env, identifier) {
                Some(v) => Ok(v),
                None => Err(undefined_var_msg(identifier)),
            },
            env,
        ),
        ExprV::Unary { operator, right } => {
            let (r, env1) = eval_expr(*right, env);
            match r {
                Ok(v) => (unary_result(v, operator.token_type), env1),
                Err(m) => (Err(m), env1),
            }
        },
        ExprV::Binary { left, op, right } => {
            let (lr, env1) = eval_expr(*left, env);
            match lr {
                Ok(lv) => {
                    let (rr, env2) = eval_expr(*right, env1);
                    match rr {
                        Ok(rv) => (binary_result(lv, rv, op.token_type), env2),
                        Err(m) => (Err(m), env2),
                    }
                },
                Err(m) => (Err(m), env1),
            }
        },
        ExprV::Assignment { name, value } => {
            let (vr, env1) = eval_expr(*value, env);
            match vr {
                Ok(v) => if contains_name(env1, name) {
                    (Ok(v), env_assign(env1, name, v))
                } else {
                    (Err(undeclared_var_msg(name)), env1)
                },
                Err(m) => (Err(m), env1),
            }
        },
        ExprV::Logical { left, op, right } => {
            let (lr, env1) = eval_expr(*left, env);
            match lr {
                Ok(lv) => match op.token_type {
                    TokenType::AND => if !truthy(lv) {
                        (Ok(LitV::False), env1)
                    } else {
                        let (rr, env2) = eval_expr(*right, env1);
                        match rr {
                            Ok(rv) => (Ok(bool_lit(truthy(rv))), env2),
                            Err(m) => (Err(m), env2),
                        }
                    },
                    TokenType::OR => if truthy(lv) {
                        (Ok(LitV::True), env1)
                    } else {
                        let (rr, env2) = eval_expr(*right, env1);
                        match rr {
                            Ok(rv) => (Ok(bool_lit(truthy(rv))), env2),
                            Err(m) => (Err(m), env2),
                        }
                    },
                    _ => (Err("Invalid token type for op"@), env1),
                },
                Err(m) => (Err(m), env1),
            }
        },
    }
}

/// Evaluation never changes the number of scopes on the chain.
pub proof fn lemma_eval_len(e: ExprV, env: EnvV)
    ensures
        eval_expr(e, env).1.len() == env.len(),
    decreases e,
{
    match e {
        ExprV::LiteralExpr { literal } => {},
        ExprV::Grouping { expression } => {
            lemma_eval_len(*expression, env);
        },
        ExprV::Var { identifier } => {},
        ExprV::Unary { operator, right } => {
            lemma_eval_len(*right, env);
        },
        ExprV::Binary { left, op, right } => {
            lemma_eval_len(*left, env);
            lemma_eval_len(*right, eval_expr(*left, env).1);
        },
        ExprV::Assignment { name, value } => {
            lemma_eval_len(*value, env);
            let (vr, env1) = eval_expr(*value, env);
            if vr is Ok && contains_name(env1, name) {
                lemma_env_assign_len(env1, name, vr->Ok_0);
            }
        },
        ExprV::Logical { left, op, right } => {
            lemma_eval_len(*left, env);
            lemma_eval_len(*right, eval_expr(*left, env).1);
        },
    }
}

/// The unary operator `t` applied to the evaluated operand `v`.
fn unary_op(v: LiteralValue, t: TokenType) -> (r: Result<LiteralValue, LoxErr>)
    ensures
        match r {
            Ok(out) => unary_result(v@, t) == Ok::<LitV, Seq<char>>(out@),
            Err(e) => unary_result(v@, t) == Err::<LitV, Seq<char>>(e@),
        },
{
    match t {
        TokenType::MINUS => match v {
            LiteralValue::FValue(b) => Ok(LiteralValue::FValue(num_negate(b))),
            _ => Err(LoxErr { msg: "Unable to negate this expression".to_owned() }),
        },
        TokenType::BANG => {
            let b = v.to_boolean();
            Ok(LiteralValue::from_bool(!b))
        },
        _ => Err(LoxErr { msg: "Invalid unary operator".to_owned() }),
    }
}

/// The binary operator `t` applied to the evaluated operands `x` and `y`.
fn binary_op(x: LiteralValue, y: LiteralValue, t: TokenType) -> (r: Result<LiteralValue, LoxErr>)
    ensures
        match r {
            Ok(out) => binary_result(x@, y@, t) == Ok::<LitV, Seq<char>>(out@),
            Err(e) => binary_result(x@, y@, t) == Err::<LitV, Seq<char>>(e@),
        },
{
    match (&x, &y) {
        (LiteralValue::FValue(a), LiteralValue::FValue(b)) => {
            let a = *a;
            let b = *b;
            match t {
                TokenType::PLUS => Ok(LiteralValue::FValue(num_add(a, b))),
                TokenType::MINUS => Ok(LiteralValue::FValue(num_sub(a, b))),
                TokenType::STAR => Ok(LiteralValue::FValue(num_mul(a, b))),
                TokenType::SLASH => Ok(LiteralValue::FValue(num_div(a, b))),
                TokenType::GREATER => Ok(LiteralValue::from_bool(num_lt(b, a))),
                TokenType::GREATEREQUAL => Ok(LiteralValue::from_bool(num_le(b, a))),
                TokenType::LESS => Ok(LiteralValue::from_bool(num_lt(a, b))),
                TokenType::LESSEQUAL => Ok(LiteralValue::from_bool(num_le(a, b))),
                TokenType::EQUALEQUAL => Ok(LiteralValue::from_bool(num_eq(a, b))),
                TokenType::BANGEQUAL => Ok(LiteralValue::from_bool(!num_eq(a, b))),
                _ => Err(LoxErr { msg: "Invalid operands to binary operator".to_owned() }),
            }
        },
        (LiteralValue::StringValue(a), LiteralValue::StringValue(b)) => match t {
            TokenType::PLUS => Ok(
                LiteralValue::StringValue(concat_strings(a.as_str(), b.as_str())),
            ),
            TokenType::EQUALEQUAL => Ok(LiteralValue::from_bool(str_eq(a.as_str(), b.as_str()))),
            TokenType::BANGEQUAL => Ok(LiteralValue::from_bool(!str_eq(a.as_str(), b.as_str()))),
            TokenType::LESS => Ok(LiteralValue::from_bool(str_lt(a.as_str(), b.as_str()))),
            TokenType::LESSEQUAL => Ok(
                LiteralValue::from_bool(str_lt(a.as_str(), b.as_str())
                    || str_eq(a.as_str(), b.as_str())),
            ),
            TokenType::GREATER => Ok(LiteralValue::from_bool(str_lt(b.as_str(), a.as_str()))),
            TokenType::GREATEREQUAL => Ok(
                LiteralValue::from_bool(str_lt(b.as_str(), a.as_str())
                    || str_eq(b.as_str(), a.as_str())),
            ),
            _ => Err(LoxErr { msg: "Invalid operands to binary operator".to_owned() }),
        },
        (LiteralValue::StringValue(a), LiteralValue::FValue(b)) => match t {
            TokenType::STAR => {
                let n = num_repeat_count(*b);
                Ok(LiteralValue::StringValue(repeat_string(a.as_str(), n)))
            },
            _ => Err(LoxErr { msg: "Invalid operands to binary operator".to_owned() }),
        },
        _ => Err(LoxErr { msg: "Invalid operands to binary operator".to_owned() }),
    }
}

impl Expr {
    /// Evaluates the expression against the environment.  The outcome and
    /// the state of the environment afterwards are exactly those of
    /// `eval_expr`.
    pub fn evaluate(&self, environment: &mut Environment) -> (r: Result<LiteralValue, LoxErr>)
        requires
            env_wf(old(environment)@),
        ensures
            final(environment)@ == eval_expr(self@, old(environment)@).1,
            env_wf(final(environment)@),
            match r {
                Ok(v) => eval_expr(self@, old(environment)@).0 == Ok::<LitV, Seq<char>>(v@),
                Err(e) => eval_expr(self@, old(environment)@).0 == Err::<LitV, Seq<char>>(e@),
            },
        decreases *self,
    {
        match self {
            Expr::LiteralExpr { literal } => Ok(literal.duplicate()),
            Expr::Grouping { expression } => expression.evaluate(environment),
            Expr::Var { identifier } => match environment.get(identifier.clone()) {
                Ok(v) => Ok(v),
                Err(_) => {
                    let mut m = chars_of_str("Undefined Var ");
                    push_str_chars(&mut m, identifier.as_str());
                    Err(LoxErr { msg: string_from_chars(&m) })
                },
            },
            Expr::Unary { operator, right } => {
                let rv = right.evaluate(environment)?;
                unary_op(rv, operator.token_type)
            },
            Expr::Binary { left, op, right } => {
                let lv = left.evaluate(environment)?;
                proof {
                    lemma_eval_len(expr_view(**left), old(environment)@);
                }
                let rv = right.evaluate(environment)?;
                binary_op(lv, rv, op.token_type)
            },
            Expr::Assignment { name, value } => {
                let v = value.evaluate(environment)?;
                let dup = v.duplicate();
                let ok = environment.assign(name.as_str(), dup);
                if ok {
                    Ok(v)
                } else {
                    proof {
                        crate::environment::lemma_assign_absent(
                            eval_expr(expr_view(**value), old(environment)@).1,
                            name@,
                            v@,
                        );
                    }
                    let mut m = chars_of_str("Variable ");
                    push_str_chars(&mut m, name.as_str());
                    push_str_chars(&mut m, " has not been declared");
                    Err(LoxErr { msg: string_from_chars(&m) })
                }
            },
            Expr::Logical { left, op, right } => {
                let lv = left.evaluate(environment)?;
                let lb = lv.to_boolean();
                match op.token_type {
                    TokenType::AND => {
                        if !lb {
                            Ok(LiteralValue::False)
                        } else {
                            proof {
                                lemma_eval_len(expr_view(**left), old(environment)@);
                            }
                            let rv = right.evaluate(environment)?;
                            let rb = rv.to_boolean();
                            Ok(LiteralValue::from_bool(rb))
                        }
                    },
                    TokenType::OR => {
                        if lb {
                            Ok(LiteralValue::True)
                        } else {
                            proof {
                                lemma_eval_len(expr_view(**left), old(environment)@);
                            }
                            let rv = right.evaluate(environment)?;
                            let rb = rv.to_boolean();
                            Ok(LiteralValue::from_bool(rb))
                        }
                    },
                    _ => Err(LoxErr { msg: "Invalid token type for op".to_owned() }),
                }
            },
        }
    }
}


/// The S-expression rendering of an expression: binary and unary nodes in
/// parentheses with the operator's lexeme first, groupings as `(group ...)`,
/// literals by their stringification, variables and assignments with a
/// leading `var`.
pub open spec fn render_expr(e: ExprV) -> Seq<char>
    decreases e,
{
    match e {
        ExprV::Logical { left, op, right } => op.lexeme + " "@ + render_expr(*left) + " "@
            + render_expr(*right),
        ExprV::Binary { left, op, right } => "("@ + op.lexeme + " "@ + render_expr(*left) + " "@
            + render_expr(*right) + ")"@,
        ExprV::Grouping { expression } => "(group "@ + render_expr(*expression) + ")"@,
        ExprV::LiteralExpr { literal } => lit_text(literal),
        ExprV::Unary { operator, right } => "("@ + operator.lexeme + " "@ + render_expr(*right)
            + ")"@,
        ExprV::Var { identifier } => "var "@ + identifier + " "@,
        ExprV::Assignment { name, value } => "var "@ + name + " = "@ + render_expr(*value),
    }
}

impl Expr {
    /// Appends the rendering of this expression to `out`.
    fn render_into(&self, out: &mut Vec<char>)
        ensures
            final(out)@ == old(out)@ + render_expr(self@),
        decreases *self,
    {
        match self {
            Expr::Logical { left, op, right } => {
                push_str_chars(out, op.lexeme.as_str());
                push_str_chars(out, " ");
                left.render_into(out);
                push_str_chars(out, " ");
                right.render_into(out);
                proof {
                    assert(out@ =~= old(out)@ + render_expr(self@));
                }
            },
            Expr::Binary { left, op, right } => {
                push_str_chars(out, "(");
                push_str_chars(out, op.lexeme.as_str());
                push_str_chars(out, " ");
                left.render_into(out);
                push_str_chars(out, " ");
                right.render_into(out);
                push_str_chars(out, ")");
                proof {
                    assert(out@ =~= old(out)@ + render_expr(self@));
                }
            },
            Expr::Grouping { expression } => {
                push_str_chars(out, "(group ");
                expression.render_into(out);
                push_str_chars(out, ")");
                proof {
                    assert(out@ =~= old(out)@ + render_expr(self@));
                }
            },
            Expr::LiteralExpr { literal } => {
                let t = literal.to_string();
                push_str_chars(out, t.as_str());
                proof {
                    assert(out@ =~= old(out)@ + render_expr(self@));
                }
            },
            Expr::Unary { operator, right } => {
                push_str_chars(out, "(");
                push_str_chars(out, operator.lexeme.as_str());
                push_str_chars(out, " ");
                right.render_into(out);
                push_str_chars(out, ")");
                proof {
                    assert(out@ =~= old(out)@ + render_expr(self@));
                }
            },
            Expr::Var { identifier } => {
                push_str_chars(out, "var ");
                push_str_chars(out, identifier.as_str());
                push_str_chars(out, " ");
                proof {
                    assert(out@ =~= old(out)@ + render_expr(self@));
                }
            },
            Expr::Assignment { name, value } => {
                push_str_chars(out, "var ");
                push_str_chars(out, name.as_str());
                push_str_chars(out, " = ");
                value.render_into(out);
                proof {
                    assert(out@ =~= old(out)@ + render_expr(self@));
                }
            },
        }
    }

    /// The S-expression rendering of the expression.
    pub fn to_string(&self) -> (r: String)
        ensures
            r@ == render_expr(self@),
    {
        let mut v: Vec<char> = Vec::new();
        self.render_into(&mut v);
        proof {
            assert(v@ =~= render_expr(self@));
        }
        string_from_chars(&v)
    }
}

} // verus!
