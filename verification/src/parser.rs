//! The parser: tokens to statements.  Recursive descent with precedence
//! climbing for expressions, assignment-target validation, `for` loops
//! desugared to `while`, and error recovery by synchronization.
//!
//! The specification parser pins down, for every token stream and start
//! position, the node parsed and the position after it — or the position at
//! which parsing failed, written `Err(j)`.  Guards of the form `j <= i`
//! keep the definitions well-founded; no production ever takes them, since
//! a successful parse always consumes at least one token.

use vstd::prelude::*;

use crate::expr::{Expr, ExprV};
use crate::statement::{Statement, StmtV};
use crate::token::{TokV, Token, TokenType};
use crate::value::{LitV, LiteralValue};
use crate::LoxErr;

verus! {

/// A parsed node and the position just after it, or the position at which
/// parsing failed.
pub type Parsed<T> = Result<(T, int), int>;

/// The tokens that may start a fresh statement; synchronization stops in
/// front of one.
pub open spec fn is_sync_boundary(t: TokenType) -> bool {
    t == TokenType::CLASS || t == TokenType::FUN || t == TokenType::VAR || t == TokenType::FOR || t
        == TokenType::IF || t == TokenType::WHILE || t == TokenType::PRINT || t
        == TokenType::RETURN
}

/// Where synchronization from position `i` stops: at the end, after a
/// semicolon, or in front of a statement keyword.
pub open spec fn sync_loop(toks: Seq<TokV>, i: int) -> int
    decreases toks.len() - i,
{
    if i < 1 {
        i
    } else if i >= toks.len() {
        toks.len() as int
    } else if toks[i].token_type == TokenType::EOF {
        i
    } else if toks[i - 1].token_type == TokenType::SEMICOLON {
        i
    } else if is_sync_boundary(toks[i].token_type) {
        i
    } else {
        sync_loop(toks, i + 1)
    }
}

/// The position synchronization reaches after an error at `j`: it first
/// discards one token, then scans for a statement boundary.
pub open spec fn sync_pos(toks: Seq<TokV>, j: int) -> int {
    sync_loop(toks, j + 1)
}

/// Synchronization never moves backwards, and never past the end.
pub proof fn lemma_sync_loop(toks: Seq<TokV>, i: int)
    requires
        1 <= i,
    ensures
        i <= toks.len() ==> i <= sync_loop(toks, i) <= toks.len(),
        i > toks.len() ==> sync_loop(toks, i) == toks.len(),
    decreases toks.len() - i,
{
    if 1 <= i < toks.len() && toks[i].token_type != TokenType::EOF && toks[i - 1].token_type
        != TokenType::SEMICOLON && !is_sync_boundary(toks[i].token_type) {
        lemma_sync_loop(toks, i + 1);
    }
}

/// primary := "true" | "false" | "nil" | NUMBER | STRING
///          | "(" expression ")" | IDENT
pub open spec fn parse_primary(toks: Seq<TokV>, i: int) -> Parsed<ExprV>
    decreases toks.len() - i, 2int,
{
    if i < 0 || i >= toks.len() {
        Err(i)
    } else {
        let t = toks[i].token_type;
        if t == TokenType::FALSE {
            Ok((ExprV::LiteralExpr { literal: LitV::False }, i + 1))
        } else if t == TokenType::TRUE {
            Ok((ExprV::LiteralExpr { literal: LitV::True }, i + 1))
        } else if t == TokenType::NIL {
            Ok((ExprV::LiteralExpr { literal: LitV::Nil }, i + 1))
        } else if t == TokenType::NUMBER || t == TokenType::STRINGLIT {
            match toks[i].literal {
                Some(l) => Ok((ExprV::LiteralExpr { literal: l }, i + 1)),
                None => Err(i),
            }
        } else if t == TokenType::IDENTIFIER {
            Ok((ExprV::Var { identifier: toks[i].lexeme }, i + 1))
        } else if t == TokenType::LEFTPAREN {
            match parse_expression(toks, i + 1) {
                Ok(p) => if p.1 < toks.len() && toks[p.1].token_type == TokenType::RIGHTPAREN {
                    Ok((ExprV::Grouping { expression: Box::new(p.0) }, p.1 + 1))
                } else {
                    Err(p.1)
                },
                Err(j) => Err(j),
            }
        } else {
            Err(i)
        }
    }
}

/// unary := ("!" | "-") unary | primary
pub open spec fn parse_unary(toks: Seq<TokV>, i: int) -> Parsed<ExprV>
    decreases toks.len() - i, 4int,
{
    if 0 <= i < toks.len() && (toks[i].token_type == TokenType::BANG || toks[i].token_type
        == TokenType::MINUS) {
        match parse_unary(toks, i + 1) {
            Ok(p) => Ok((ExprV::Unary { operator: toks[i], right: Box::new(p.0) }, p.1)),
            Err(j) => Err(j),
        }
    } else {
        parse_primary(toks, i)
    }
}

/// factor := unary (("*" | "/") unary)*
pub open spec fn parse_factor_rest(toks: Seq<TokV>, i: int, left: ExprV) -> Parsed<ExprV>
    decreases toks.len() - i, 5int,
{
    if 0 <= i < toks.len() && (toks[i].token_type == TokenType::SLASH || toks[i].token_type
        == TokenType::STAR) {
        match parse_unary(toks, i + 1) {
            Ok(p) => if p.1 <= i + 1 || p.1 > toks.len() {
                Err(p.1)
            } else {
                parse_factor_rest(
                    toks,
                    p.1,
                    ExprV::Binary { left: Box::new(left), op: toks[i], right: Box::new(p.0) },
                )
            },
            Err(j) => Err(j),
        }
    } else {
        Ok((left, i))
    }
}

/// The factor level: a unary, then any `*`/`/` chain, left-associated.
pub open spec fn parse_factor(toks: Seq<TokV>, i: int) -> Parsed<ExprV>
    decreases toks.len() - i, 6int,
{
    match parse_unary(toks, i) {
        Ok(p) => if p.1 <= i || p.1 > toks.len() {
            Err(p.1)
        } else {
            parse_factor_rest(toks, p.1, p.0)
        },
        Err(j) => Err(j),
    }
}

/// term := factor (("+" | "-") factor)*
pub open spec fn parse_term_rest(toks: Seq<TokV>, i: int, left: ExprV) -> Parsed<ExprV>
    decreases toks.len() - i, 7int,
{
    if 0 <= i < toks.len() && (toks[i].token_type == TokenType::MINUS || toks[i].token_type
        == TokenType::PLUS) {
        match parse_factor(toks, i + 1) {
            Ok(p) => if p.1 <= i + 1 || p.1 > toks.len() {
                Err(p.1)
            } else {
                parse_term_rest(
                    toks,
                    p.1,
                    ExprV::Binary { left: Box::new(left), op: toks[i], right: Box::new(p.0) },
                )
            },
            Err(j) => Err(j),
        }
    } else {
        Ok((left, i))
    }
}

/// The term level: a factor, then any `+`/`-` chain, left-associated.
pub open spec fn parse_term(toks: Seq<TokV>, i: int) -> Parsed<ExprV>
    decreases toks.len() - i, 8int,
{
    match parse_factor(toks, i) {
        Ok(p) => if p.1 <= i || p.1 > toks.len() {
            Err(p.1)
        } else {
            parse_term_rest(toks, p.1, p.0)
        },
        Err(j) => Err(j),
    }
}

/// comparison := term (("<" | "<=" | ">" | ">=") term)*
pub open spec fn parse_comparison_rest(toks: Seq<TokV>, i: int, left: ExprV) -> Parsed<ExprV>
    decreases toks.len() - i, 9int,
{
    if 0 <= i < toks.len() && (toks[i].token_type == TokenType::GREATER || toks[i].token_type
        == TokenType::GREATEREQUAL || toks[i].token_type == TokenType::LESS || toks[i].token_type
        == TokenType::LESSEQUAL) {
        match parse_term(toks, i + 1) {
            Ok(p) => if p.1 <= i + 1 || p.1 > toks.len() {
                Err(p.1)
            } else {
                parse_comparison_rest(
                    toks,
                    p.1,
                    ExprV::Binary { left: Box::new(left), op: toks[i], right: Box::new(p.0) },
                )
            },
            Err(j) => Err(j),
        }
    } else {
        Ok((left, i))
    }
}

/// The comparison level: a term, then any ordering chain, left-associated.
pub open spec fn parse_comparison(toks: Seq<TokV>, i: int) -> Parsed<ExprV>
    decreases toks.len() - i, 10int,
{
    match parse_term(toks, i) {
        Ok(p) => if p.1 <= i || p.1 > toks.len() {
            Err(p.1)
        } else {
            parse_comparison_rest(toks, p.1, p.0)
        },
        Err(j) => Err(j),
    }
}

/// equality := comparison (("!=" | "==") comparison)*
pub open spec fn parse_equality_rest(toks: Seq<TokV>, i: int, left: ExprV) -> Parsed<ExprV>
    decreases toks.len() - i, 11int,
{
    if 0 <= i < toks.len() && (toks[i].token_type == TokenType::BANGEQUAL || toks[i].token_type
        == TokenType::EQUALEQUAL) {
        match parse_comparison(toks, i + 1) {
            Ok(p) => if p.1 <= i + 1 || p.1 > toks.len() {
                Err(p.1)
            } else {
                parse_equality_rest(
                    toks,
                    p.1,
                    ExprV::Binary { left: Box::new(left), op: toks[i], right: Box::new(p.0) },
                )
            },
            Err(j) => Err(j),
        }
    } else {
        Ok((left, i))
    }
}

/// The equality level: a comparison, then any `==`/`!=` chain.
pub open spec fn parse_equality(toks: Seq<TokV>, i: int) -> Parsed<ExprV>
    decreases toks.len() - i, 12int,
{
    match parse_comparison(toks, i) {
        Ok(p) => if p.1 <= i || p.1 > toks.len() {
            Err(p.1)
        } else {
            parse_equality_rest(toks, p.1, p.0)
        },
        Err(j) => Err(j),
    }
}

/// logicAnd := equality ("and" equality)*
pub open spec fn parse_and_rest(toks: Seq<TokV>, i: int, left: ExprV) -> Parsed<ExprV>
    decreases toks.len() - i, 13int,
{
    if 0 <= i < toks.len() && toks[i].token_type == TokenType::AND {
        match parse_equality(toks, i + 1) {
            Ok(p) => if p.1 <= i + 1 || p.1 > toks.len() {
                Err(p.1)
            } else {
                parse_and_rest(
                    toks,
                    p.1,
                    ExprV::Logical { left: Box::new(left), op: toks[i], right: Box::new(p.0) },
                )
            },
            Err(j) => Err(j),
        }
    } else {
        Ok((left, i))
    }
}

/// The `and` level: an equality, then any `and` chain, left-associated.
pub open spec fn parse_and(toks: Seq<TokV>, i: int) -> Parsed<ExprV>
    decreases toks.len() - i, 14int,
{
    match parse_equality(toks, i) {
        Ok(p) => if p.1 <= i || p.1 > toks.len() {
            Err(p.1)
        } else {
            parse_and_rest(toks, p.1, p.0)
        },
        Err(j) => Err(j),
    }
}

/// logicOr := logicAnd ("or" logicAnd)*
pub open spec fn parse_or_rest(toks: Seq<TokV>, i: int, left: ExprV) -> Parsed<ExprV>
    decreases toks.len() - i, 15int,
{
    if 0 <= i < toks.len() && toks[i].token_type == TokenType::OR {
        match parse_and(toks, i + 1) {
            Ok(p) => if p.1 <= i + 1 || p.1 > toks.len() {
                Err(p.1)
            } else {
                parse_or_rest(
                    toks,
                    p.1,
                    ExprV::Logical { left: Box::new(left), op: toks[i], right: Box::new(p.0) },
                )
            },
            Err(j) => Err(j),
        }
    } else {
        Ok((left, i))
    }
}

/// The `or` level: an `and`, then any `or` chain, left-associated.
pub open spec fn parse_or(toks: Seq<TokV>, i: int) -> Parsed<ExprV>
    decreases toks.len() - i, 16int,
{
    match parse_and(toks, i) {
        Ok(p) => if p.1 <= i || p.1 > toks.len() {
            Err(p.1)
        } else {
            parse_or_rest(toks, p.1, p.0)
        },
        Err(j) => Err(j),
    }
}

/// assignment := IDENT "=" assignment | logicOr.  The left side parses as a
/// general expression; on `=` it must turn out to be a variable, else the
/// assignment target is invalid.
pub open spec fn parse_assignment(toks: Seq<TokV>, i: int) -> Parsed<ExprV>
    decreases toks.len() - i, 18int,
{
    match parse_or(toks, i) {
        Ok(p) => if p.1 < toks.len() && toks[p.1].token_type == TokenType::EQUAL {
            if p.1 < i {
                Err(p.1)
            } else {
                match parse_assignment(toks, p.1 + 1) {
                    Ok(q) => match p.0 {
                        ExprV::Var { identifier } => Ok(
                            (ExprV::Assignment { name: identifier, value: Box::new(q.0) }, q.1),
                        ),
                        _ => Err(q.1),
                    },
                    Err(j) => Err(j),
                }
            }
        } else {
            Ok(p)
        },
        Err(j) => Err(j),
    }
}

/// expression := assignment
#[verifier::opaque]
pub open spec fn parse_expression(toks: Seq<TokV>, i: int) -> Parsed<ExprV>
    decreases toks.len() - i, 20int,
{
    parse_assignment(toks, i)
}

/// One unfolding of `parse_expression`.
pub proof fn lemma_unfold_expression(toks: Seq<TokV>, i: int)
    ensures
        parse_expression(toks, i) == parse_assignment(toks, i),
{
    reveal(parse_expression);
}


/// varDecl := IDENT "=" expression ";" (the initializer is required).
pub open spec fn parse_var_decl(toks: Seq<TokV>, i: int) -> Parsed<StmtV>
    decreases toks.len() - i, 36int,
{
    if 0 <= i < toks.len() && toks[i].token_type == TokenType::IDENTIFIER {
        if i + 1 < toks.len() && toks[i + 1].token_type == TokenType::EQUAL {
            match parse_expression(toks, i + 2) {
                Ok(p) => if p.1 < toks.len() && toks[p.1].token_type == TokenType::SEMICOLON {
                    Ok((StmtV::Var { indentifier: toks[i].lexeme, expression: p.0 }, p.1 + 1))
                } else {
                    Err(p.1)
                },
                Err(j) => Err(j),
            }
        } else {
            Err(i + 1)
        }
    } else {
        Err(i)
    }
}

/// printStmt := "print" expression ";" (the keyword already consumed).
pub open spec fn parse_print(toks: Seq<TokV>, i: int) -> Parsed<StmtV>
    decreases toks.len() - i, 36int,
{
    match parse_expression(toks, i) {
        Ok(p) => if p.1 < toks.len() && toks[p.1].token_type == TokenType::SEMICOLON {
            Ok((StmtV::Print { expression: p.0 }, p.1 + 1))
        } else {
            Err(p.1)
        },
        Err(j) => Err(j),
    }
}

/// assertStmt := "assert" expression ";" (the keyword already consumed).
pub open spec fn parse_assert(toks: Seq<TokV>, i: int) -> Parsed<StmtV>
    decreases toks.len() - i, 36int,
{
    match parse_expression(toks, i) {
        Ok(p) => if p.1 < toks.len() && toks[p.1].token_type == TokenType::SEMICOLON {
            Ok((StmtV::Assert { expression_a: p.0 }, p.1 + 1))
        } else {
            Err(p.1)
        },
        Err(j) => Err(j),
    }
}

/// exprStmt := expression ";"
pub open spec fn parse_expr_statement(toks: Seq<TokV>, i: int) -> Parsed<StmtV>
    decreases toks.len() - i, 30int,
{
    match parse_expression(toks, i) {
        Ok(p) => if p.1 < toks.len() && toks[p.1].token_type == TokenType::SEMICOLON {
            Ok((StmtV::Expression { expression: p.0 }, p.1 + 1))
        } else {
            Err(p.1)
        },
        Err(j) => Err(j),
    }
}

/// ifStmt := "(" expression ")" statement ("else" statement)? (the `if`
/// keyword already consumed).
#[verifier::opaque]
pub open spec fn parse_if(toks: Seq<TokV>, i: int) -> Parsed<StmtV>
    decreases toks.len() - i, 36int,
{
    if 0 <= i < toks.len() && toks[i].token_type == TokenType::LEFTPAREN {
        match parse_expression(toks, i + 1) {
            Ok(p) => if p.1 < toks.len() && toks[p.1].token_type == TokenType::RIGHTPAREN {
                if p.1 < i {
                    Err(p.1)
                } else {
                    match parse_statement(toks, p.1 + 1) {
                        Ok(q) => if q.1 < toks.len() && toks[q.1].token_type == TokenType::ELSE {
                            if q.1 < i {
                                Err(q.1)
                            } else {
                                match parse_statement(toks, q.1 + 1) {
                                    Ok(e) => Ok(
                                        (
                                            StmtV::If {
                                                conditional: p.0,
                                                happy_path: Box::new(q.0),
                                                sad_path: Some(Box::new(e.0)),
                                            },
                                            e.1,
                                        ),
                                    ),
                                    Err(j) => Err(j),
                                }
                            }
                        } else {
                            Ok(
                                (
                                    StmtV::If {
                                        conditional: p.0,
                                        happy_path: Box::new(q.0),
                                        sad_path: None,
                                    },
                                    q.1,
                                ),
                            )
                        },
                        Err(j) => Err(j),
                    }
                }
            } else {
                Err(p.1)
            },
            Err(j) => Err(j),
        }
    } else {
        Err(i)
    }
}

/// whileStmt := "(" expression ")" statement (the `while` keyword already
/// consumed).
#[verifier::opaque]
pub open spec fn parse_while(toks: Seq<TokV>, i: int) -> Parsed<StmtV>
    decreases toks.len() - i, 36int,
{
    if 0 <= i < toks.len() && toks[i].token_type == TokenType::LEFTPAREN {
        match parse_expression(toks, i + 1) {
            Ok(p) => if p.1 < toks.len() && toks[p.1].token_type == TokenType::RIGHTPAREN {
                if p.1 < i {
                    Err(p.1)
                } else {
                    match parse_statement(toks, p.1 + 1) {
                        Ok(q) => Ok(
                            (StmtV::While { predicate: p.0, happy_path: Box::new(q.0) }, q.1),
                        ),
                        Err(j) => Err(j),
                    }
                }
            } else {
                Err(p.1)
            },
            Err(j) => Err(j),
        }
    } else {
        Err(i)
    }
}

/// forInit := "var" varDecl | exprStmt, or nothing; `i` is the position
/// of the `(`.
pub open spec fn parse_for_init(toks: Seq<TokV>, i: int) -> Parsed<Option<StmtV>>
    decreases toks.len() - i, 35int,
{
    if i < 0 || i >= toks.len() {
        Err(i)
    } else if i + 1 < toks.len() && toks[i + 1].token_type == TokenType::SEMICOLON {
        Ok((None, i + 2))
    } else if i + 1 < toks.len() && toks[i + 1].token_type == TokenType::VAR {
        match parse_var_decl(toks, i + 2) {
            Ok(p) => Ok((Some(p.0), p.1)),
            Err(j) => Err(j),
        }
    } else {
        match parse_expr_statement(toks, i + 1) {
            Ok(p) => Ok((Some(p.0), p.1)),
            Err(j) => Err(j),
        }
    }
}

/// The optional `for` condition, ended by `;`.
pub open spec fn parse_for_cond(toks: Seq<TokV>, j: int) -> Parsed<Option<ExprV>>
    decreases toks.len() - j, 22int,
{
    if j < 0 || j > toks.len() {
        Err(j)
    } else if j < toks.len() && toks[j].token_type == TokenType::SEMICOLON {
        Ok((None, j + 1))
    } else {
        match parse_expression(toks, j) {
            Ok(p) => if p.1 < toks.len() && toks[p.1].token_type == TokenType::SEMICOLON {
                Ok((Some(p.0), p.1 + 1))
            } else {
                Err(p.1)
            },
            Err(jj) => Err(jj),
        }
    }
}

/// The optional `for` increment, ended by `)`.
pub open spec fn parse_for_incr(toks: Seq<TokV>, k: int) -> Parsed<Option<ExprV>>
    decreases toks.len() - k, 22int,
{
    if k < 0 || k > toks.len() {
        Err(k)
    } else if k < toks.len() && toks[k].token_type == TokenType::RIGHTPAREN {
        Ok((None, k + 1))
    } else {
        match parse_expression(toks, k) {
            Ok(p) => if p.1 < toks.len() && toks[p.1].token_type == TokenType::RIGHTPAREN {
                Ok((Some(p.0), p.1 + 1))
            } else {
                Err(p.1)
            },
            Err(jj) => Err(jj),
        }
    }
}

/// The `for` rewrite: the body is followed by the increment inside a
/// block, a missing condition becomes `true`, and an initializer wraps the
/// loop in a block.
pub open spec fn for_desugar(
    init: Option<StmtV>,
    cond: Option<ExprV>,
    incr: Option<ExprV>,
    body: StmtV,
) -> StmtV {
    let body2 = match incr {
        Some(x) => StmtV::Block { statements: seq![body, StmtV::Expression { expression: x }] },
        None => body,
    };
    let condex = match cond {
        Some(c) => c,
        None => ExprV::LiteralExpr { literal: LitV::True },
    };
    let w = StmtV::While { predicate: condex, happy_path: Box::new(body2) };
    match init {
        Some(s0) => StmtV::Block { statements: seq![s0, w] },
        None => w,
    }
}

/// forStmt := "(" forInit? ";" expression? ";" expression? ")" statement,
/// rewritten to a `while` (the `for` keyword already consumed).
#[verifier::opaque]
pub open spec fn parse_for(toks: Seq<TokV>, i: int) -> Parsed<StmtV>
    decreases toks.len() - i, 36int,
{
    if 0 <= i < toks.len() && toks[i].token_type == TokenType::LEFTPAREN {
        match parse_for_init(toks, i) {
            Ok(ip) => if ip.1 <= i || ip.1 > toks.len() {
                Err(ip.1)
            } else {
                match parse_for_cond(toks, ip.1) {
                    Ok(cp) => if cp.1 <= i || cp.1 > toks.len() {
                        Err(cp.1)
                    } else {
                        match parse_for_incr(toks, cp.1) {
                            Ok(mp) => if mp.1 <= i || mp.1 > toks.len() {
                                Err(mp.1)
                            } else {
                                match parse_statement(toks, mp.1) {
                                    Ok(bp) => Ok((for_desugar(ip.0, cp.0, mp.0, bp.0), bp.1)),
                                    Err(j2) => Err(j2),
                                }
                            },
                            Err(j2) => Err(j2),
                        }
                    },
                    Err(j2) => Err(j2),
                }
            },
            Err(j2) => Err(j2),
        }
    } else {
        Err(i)
    }
}

/// statement := printStmt | assertStmt | blockStmt | ifStmt | whileStmt
///            | forStmt | exprStmt
#[verifier::opaque]
pub open spec fn parse_statement(toks: Seq<TokV>, i: int) -> Parsed<StmtV>
    decreases toks.len() - i, 38int,
{
    if i < 0 || i >= toks.len() {
        Err(i)
    } else {
        let t = toks[i].token_type;
        if t == TokenType::PRINT {
            parse_print(toks, i + 1)
        } else if t == TokenType::LEFTBRACE {
            parse_block(toks, i + 1, Seq::empty())
        } else if t == TokenType::ASSERT {
            parse_assert(toks, i + 1)
        } else if t == TokenType::IF {
            parse_if(toks, i + 1)
        } else if t == TokenType::WHILE {
            parse_while(toks, i + 1)
        } else if t == TokenType::FOR {
            parse_for(toks, i + 1)
        } else {
            parse_expr_statement(toks, i)
        }
    }
}

/// blockStmt := "{" declaration* "}" (the `{` already consumed); `acc`
/// holds the declarations parsed so far.
#[verifier::opaque]
pub open spec fn parse_block(toks: Seq<TokV>, i: int, acc: Seq<StmtV>) -> Parsed<StmtV>
    decreases toks.len() - i, 50int,
{
    if i < 0 || i >= toks.len() {
        Err(i)
    } else if toks[i].token_type == TokenType::RIGHTBRACE {
        Ok((StmtV::Block { statements: acc }, i + 1))
    } else if toks[i].token_type == TokenType::EOF {
        Err(i)
    } else {
        match parse_declaration(toks, i) {
            Ok(p) => if p.1 <= i || p.1 > toks.len() {
                Err(p.1)
            } else {
                parse_block(toks, p.1, acc.push(p.0))
            },
            Err(j) => Err(j),
        }
    }
}

/// declaration := "var" varDecl | statement
#[verifier::opaque]
pub open spec fn parse_declaration(toks: Seq<TokV>, i: int) -> Parsed<StmtV>
    decreases toks.len() - i, 40int,
{
    if 0 <= i < toks.len() && toks[i].token_type == TokenType::VAR {
        parse_var_decl(toks, i + 1)
    } else {
        parse_statement(toks, i)
    }
}

/// program := declaration*, with recovery: a failed declaration is dropped,
/// the parser synchronizes to the next statement boundary, and the error is
/// counted.  The result is the successfully parsed statements and the
/// number of errors.
#[verifier::opaque]
pub open spec fn parse_program(toks: Seq<TokV>, i: int) -> (Seq<StmtV>, nat)
    decreases toks.len() - i, 60int,
{
    if i < 0 || i >= toks.len() || toks[i].token_type == TokenType::EOF {
        (Seq::empty(), 0)
    } else {
        match parse_declaration(toks, i) {
            Ok(p) => if p.1 <= i || p.1 > toks.len() {
                (Seq::empty(), 1)
            } else {
                let r = parse_program(toks, p.1);
                (seq![p.0] + r.0, r.1)
            },
            Err(j) => {
                let k = sync_pos(toks, if j < i {
                    i
                } else {
                    j
                });
                if k <= i || k > toks.len() {
                    (Seq::empty(), 1)
                } else {
                    let r = parse_program(toks, k);
                    (r.0, (r.1 + 1) as nat)
                }
            },
        }
    }
}


/// The views of a token vector.
pub open spec fn toks_v(v: Seq<Token>) -> Seq<TokV> {
    v.map_values(|t: Token| t@)
}

/// The views of a statement vector.
pub open spec fn stmts_v(v: Seq<Statement>) -> Seq<StmtV> {
    crate::statement::stmts_view(v)
}

/// The parser's progress: the token views and the position of the next
/// token to consider.
pub struct ParserV {
    pub tokens: Seq<TokV>,
    pub current: nat,
}

/// The parser: the token stream and a cursor into it.
pub struct Parser {
    tokens: Vec<Token>,
    current: usize,
}

impl View for Parser {
    type V = ParserV;

    closed spec fn view(&self) -> ParserV {
        ParserV { tokens: toks_v(self.tokens@), current: self.current as nat }
    }
}

impl Parser {
    /// A parser at the start of the token stream.
    pub fn new(tokens: Vec<Token>) -> (r: Self)
        ensures
            r@.tokens == toks_v(tokens@),
            r@.current == 0,
    {
        Parser { tokens, current: 0 }
    }

    /// Whether the cursor stands at the end: past the last token, or on the
    /// EOF token.
    fn is_at_end(&self) -> (r: bool)
        ensures
            r == (self@.current >= self@.tokens.len() || self@.tokens[self@.current as int].token_type
                == TokenType::EOF),
    {
        self.current >= self.tokens.len() || self.tokens[self.current].token_type == TokenType::EOF
    }

    /// Whether the next token has the given kind.
    fn check(&self, ttype: TokenType) -> (r: bool)
        ensures
            r == (self@.current < self@.tokens.len() && self@.tokens[self@.current as int].token_type
                == ttype),
    {
        self.current < self.tokens.len() && self.tokens[self.current].token_type == ttype
    }

    /// Advances past the next token when it has the given kind, and returns
    /// it; reports the message as a parse error otherwise.
    fn consume(&mut self, ttype: TokenType, message: &str) -> (r: Result<Token, LoxErr>)
        requires
            old(self)@.current <= old(self)@.tokens.len(),
        ensures
            final(self)@.tokens == old(self)@.tokens,
            final(self)@.current <= final(self)@.tokens.len(),
            match r {
                Ok(t) => old(self)@.current < old(self)@.tokens.len() && old(self)@.tokens[old(
                    self,
                )@.current as int].token_type == ttype && t@ == old(self)@.tokens[old(
                    self,
                )@.current as int] && final(self)@.current == old(self)@.current + 1,
                Err(e) => !(old(self)@.current < old(self)@.tokens.len() && old(self)@.tokens[old(
                    self,
                )@.current as int].token_type == ttype) && final(self)@.current == old(
                    self,
                )@.current,
            },
    {
        if self.current < self.tokens.len() && self.tokens[self.current].token_type == ttype {
            let t = self.tokens[self.current].duplicate();
            self.current = self.current + 1;
            Ok(t)
        } else {
            Err(LoxErr { msg: message.to_owned() })
        }
    }

    /// Advances the cursor past one token.
    fn bump(&mut self)
        requires
            old(self)@.current < old(self)@.tokens.len(),
        ensures
            final(self)@.tokens == old(self)@.tokens,
            final(self)@.current == old(self)@.current + 1,
    {
        let n = self.tokens.len();
        self.current = self.current + 1;
    }

    /// primary := "true" | "false" | "nil" | NUMBER | STRING
    ///          | "(" expression ")" | IDENT
    pub fn primary(&mut self) -> (r: Result<Expr, LoxErr>)
        requires
            old(self)@.current <= old(self)@.tokens.len(),
        ensures
            final(self)@.tokens == old(self)@.tokens,
            old(self)@.current <= final(self)@.current <= final(self)@.tokens.len(),
            match r {
                Ok(e) => parse_primary(old(self)@.tokens, old(self)@.current as int) == Ok::<
                    (ExprV, int),
                    int,
                >((e@, final(self)@.current as int)) && old(self)@.current < final(self)@.current,
                Err(er) => parse_primary(old(self)@.tokens, old(self)@.current as int) == Err::<
                    (ExprV, int),
                    int,
                >(final(self)@.current as int),
            },
        decreases old(self)@.tokens.len() - old(self)@.current, 2int,
    {
        reveal(parse_expression);
        if self.current >= self.tokens.len() {
            return Err(LoxErr { msg: "Expected expression".to_owned() });
        }
        let tt = self.tokens[self.current].token_type;
        match tt {
            TokenType::FALSE => {
                self.bump();
                Ok(Expr::LiteralExpr { literal: LiteralValue::False })
            },
            TokenType::TRUE => {
                self.bump();
                Ok(Expr::LiteralExpr { literal: LiteralValue::True })
            },
            TokenType::NIL => {
                self.bump();
                Ok(Expr::LiteralExpr { literal: LiteralValue::Nil })
            },
            TokenType::NUMBER | TokenType::STRINGLIT => {
                match &self.tokens[self.current].literal {
                    Some(l) => {
                        let lit = l.duplicate();
                        self.bump();
                        Ok(Expr::LiteralExpr { literal: lit })
                    },
                    None => Err(LoxErr { msg: "Literal token without a value".to_owned() }),
                }
            },
            TokenType::IDENTIFIER => {
                let name = self.tokens[self.current].lexeme.clone();
                self.bump();
                Ok(Expr::Var { identifier: name })
            },
            TokenType::LEFTPAREN => {
                self.bump();
                let e = self.expression()?;
                match self.consume(TokenType::RIGHTPAREN, "Expect ')' after expression '('") {
                    Ok(t) => Ok(Expr::Grouping { expression: Box::new(e) }),
                    Err(er) => Err(er),
                }
            },
            _ => Err(LoxErr { msg: "Expected expression".to_owned() }),
        }
    }

    /// unary := ("!" | "-") unary | primary
    fn unary(&mut self) -> (r: Result<Expr, LoxErr>)
        requires
            old(self)@.current <= old(self)@.tokens.len(),
        ensures
            final(self)@.tokens == old(self)@.tokens,
            old(self)@.current <= final(self)@.current <= final(self)@.tokens.len(),
            match r {
                Ok(e) => parse_unary(old(self)@.tokens, old(self)@.current as int) == Ok::<
                    (ExprV, int),
                    int,
                >((e@, final(self)@.current as int)) && old(self)@.current < final(self)@.current,
                Err(er) => parse_unary(old(self)@.tokens, old(self)@.current as int) == Err::<
                    (ExprV, int),
                    int,
                >(final(self)@.current as int),
            },
        decreases old(self)@.tokens.len() - old(self)@.current, 4int,
    {
        if self.check(TokenType::BANG) || self.check(TokenType::MINUS) {
            let op = self.tokens[self.current].duplicate();
            self.bump();
            let rhs = self.unary()?;
            Ok(Expr::Unary { operator: op, right: Box::new(rhs) })
        } else {
            self.primary()
        }
    }

    /// factor := unary (("*" | "/") unary)*
    #[verifier::loop_isolation(false)]
    #[verifier::rlimit(80)]
    fn factor(&mut self) -> (r: Result<Expr, LoxErr>)
        requires
            old(self)@.current <= old(self)@.tokens.len(),
        ensures
            final(self)@.tokens == old(self)@.tokens,
            old(self)@.current <= final(self)@.current <= final(self)@.tokens.len(),
            match r {
                Ok(e) => parse_factor(old(self)@.tokens, old(self)@.current as int) == Ok::<
                    (ExprV, int),
                    int,
                >((e@, final(self)@.current as int)) && old(self)@.current < final(self)@.current,
                Err(er) => parse_factor(old(self)@.tokens, old(self)@.current as int) == Err::<
                    (ExprV, int),
                    int,
                >(final(self)@.current as int),
            },
        decreases old(self)@.tokens.len() - old(self)@.current, 6int,
    {
        let mut expr = self.unary()?;
        while self.check(TokenType::SLASH) || self.check(TokenType::STAR)
            invariant
                old(self)@.current < self@.current <= self@.tokens.len(),
                self@.tokens == old(self)@.tokens,
                parse_factor(old(self)@.tokens, old(self)@.current as int) == parse_factor_rest(
                    self@.tokens,
                    self@.current as int,
                    expr@,
                ),
            decreases self@.tokens.len() - self@.current,
        {
            let op = self.tokens[self.current].duplicate();
            self.bump();
            let rhs = self.unary()?;
            expr = Expr::Binary { left: Box::new(expr), op, right: Box::new(rhs) };
        }
        Ok(expr)
    }

    /// term := factor (("+" | "-") factor)*
    #[verifier::loop_isolation(false)]
    #[verifier::rlimit(80)]
    fn term(&mut self) -> (r: Result<Expr, LoxErr>)
        requires
            old(self)@.current <= old(self)@.tokens.len(),
        ensures
            final(self)@.tokens == old(self)@.tokens,
            old(self)@.current <= final(self)@.current <= final(self)@.tokens.len(),
            match r {
                Ok(e) => parse_term(old(self)@.tokens, old(self)@.current as int) == Ok::<
                    (ExprV, int),
                    int,
                >((e@, final(self)@.current as int)) && old(self)@.current < final(self)@.current,
                Err(er) => parse_term(old(self)@.tokens, old(self)@.current as int) == Err::<
                    (ExprV, int),
                    int,
                >(final(self)@.current as int),
            },
        decreases old(self)@.tokens.len() - old(self)@.current, 8int,
    {
        let mut expr = self.factor()?;
        while self.check(TokenType::MINUS) || self.check(TokenType::PLUS)
            invariant
                old(self)@.current < self@.current <= self@.tokens.len(),
                self@.tokens == old(self)@.tokens,
                parse_term(old(self)@.tokens, old(self)@.current as int) == parse_term_rest(
                    self@.tokens,
                    self@.current as int,
                    expr@,
                ),
            decreases self@.tokens.len() - self@.current,
        {
            let op = self.tokens[self.current].duplicate();
            self.bump();
            let rhs = self.factor()?;
            expr = Expr::Binary { left: Box::new(expr), op, right: Box::new(rhs) };
        }
        Ok(expr)
    }

    /// comparison := term (("<" | "<=" | ">" | ">=") term)*
    #[verifier::loop_isolation(false)]
    #[verifier::rlimit(80)]
    fn comparision(&mut self) -> (r: Result<Expr, LoxErr>)
        requires
            old(self)@.current <= old(self)@.tokens.len(),
        ensures
            final(self)@.tokens == old(self)@.tokens,
            old(self)@.current <= final(self)@.current <= final(self)@.tokens.len(),
            match r {
                Ok(e) => parse_comparison(old(self)@.tokens, old(self)@.current as int) == Ok::<
                    (ExprV, int),
                    int,
                >((e@, final(self)@.current as int)) && old(self)@.current < final(self)@.current,
                Err(er) => parse_comparison(old(self)@.tokens, old(self)@.current as int) == Err::<
                    (ExprV, int),
                    int,
                >(final(self)@.current as int),
            },
        decreases old(self)@.tokens.len() - old(self)@.current, 10int,
    {
        let mut expr = self.term()?;
        while self.check(TokenType::GREATER) || self.check(TokenType::GREATEREQUAL) || self.check(
            TokenType::LESS,
        ) || self.check(TokenType::LESSEQUAL)
            invariant
                old(self)@.current < self@.current <= self@.tokens.len(),
                self@.tokens == old(self)@.tokens,
                parse_comparison(old(self)@.tokens, old(self)@.current as int)
                    == parse_comparison_rest(self@.tokens, self@.current as int, expr@),
            decreases self@.tokens.len() - self@.current,
        {
            let op = self.tokens[self.current].duplicate();
            self.bump();
            let rhs = self.term()?;
            expr = Expr::Binary { left: Box::new(expr), op, right: Box::new(rhs) };
        }
        Ok(expr)
    }

    /// equality := comparison (("!=" | "==") comparison)*
    #[verifier::loop_isolation(false)]
    #[verifier::rlimit(80)]
    fn equality(&mut self) -> (r: Result<Expr, LoxErr>)
        requires
            old(self)@.current <= old(self)@.tokens.len(),
        ensures
            final(self)@.tokens == old(self)@.tokens,
            old(self)@.current <= final(self)@.current <= final(self)@.tokens.len(),
            match r {
                Ok(e) => parse_equality(old(self)@.tokens, old(self)@.current as int) == Ok::<
                    (ExprV, int),
                    int,
                >((e@, final(self)@.current as int)) && old(self)@.current < final(self)@.current,
                Err(er) => parse_equality(old(self)@.tokens, old(self)@.current as int) == Err::<
                    (ExprV, int),
                    int,
                >(final(self)@.current as int),
            },
        decreases old(self)@.tokens.len() - old(self)@.current, 12int,
    {
        let mut expr = self.comparision()?;
        while self.check(TokenType::BANGEQUAL) || self.check(TokenType::EQUALEQUAL)
            invariant
                old(self)@.current < self@.current <= self@.tokens.len(),
                self@.tokens == old(self)@.tokens,
                parse_equality(old(self)@.tokens, old(self)@.current as int) == parse_equality_rest(
                    self@.tokens,
                    self@.current as int,
                    expr@,
                ),
            decreases self@.tokens.len() - self@.current,
        {
            let op = self.tokens[self.current].duplicate();
            self.bump();
            let rhs = self.comparision()?;
            expr = Expr::Binary { left: Box::new(expr), op, right: Box::new(rhs) };
        }
        Ok(expr)
    }

    /// logicAnd := equality ("and" equality)*, left-associated.
    #[verifier::loop_isolation(false)]
    #[verifier::rlimit(80)]
    fn and(&mut self) -> (r: Result<Expr, LoxErr>)
        requires
            old(self)@.current <= old(self)@.tokens.len(),
        ensures
            final(self)@.tokens == old(self)@.tokens,
            old(self)@.current <= final(self)@.current <= final(self)@.tokens.len(),
            match r {
                Ok(e) => parse_and(old(self)@.tokens, old(self)@.current as int) == Ok::<
                    (ExprV, int),
                    int,
                >((e@, final(self)@.current as int)) && old(self)@.current < final(self)@.current,
                Err(er) => parse_and(old(self)@.tokens, old(self)@.current as int) == Err::<
                    (ExprV, int),
                    int,
                >(final(self)@.current as int),
            },
        decreases old(self)@.tokens.len() - old(self)@.current, 14int,
    {
        let mut expr = self.equality()?;
        while self.check(TokenType::AND)
            invariant
                old(self)@.current < self@.current <= self@.tokens.len(),
                self@.tokens == old(self)@.tokens,
                parse_and(old(self)@.tokens, old(self)@.current as int) == parse_and_rest(
                    self@.tokens,
                    self@.current as int,
                    expr@,
                ),
            decreases self@.tokens.len() - self@.current,
        {
            let op = self.tokens[self.current].duplicate();
            self.bump();
            let rhs = self.equality()?;
            expr = Expr::Logical { left: Box::new(expr), op, right: Box::new(rhs) };
        }
        Ok(expr)
    }

    /// logicOr := logicAnd ("or" logicAnd)*, left-associated.
    #[verifier::loop_isolation(false)]
    #[verifier::rlimit(80)]
    fn or(&mut self) -> (r: Result<Expr, LoxErr>)
        requires
            old(self)@.current <= old(self)@.tokens.len(),
        ensures
            final(self)@.tokens == old(self)@.tokens,
            old(self)@.current <= final(self)@.current <= final(self)@.tokens.len(),
            match r {
                Ok(e) => parse_or(old(self)@.tokens, old(self)@.current as int) == Ok::<
                    (ExprV, int),
                    int,
                >((e@, final(self)@.current as int)) && old(self)@.current < final(self)@.current,
                Err(er) => parse_or(old(self)@.tokens, old(self)@.current as int) == Err::<
                    (ExprV, int),
                    int,
                >(final(self)@.current as int),
            },
        decreases old(self)@.tokens.len() - old(self)@.current, 16int,
    {
        let mut expr = self.and()?;
        while self.check(TokenType::OR)
            invariant
                old(self)@.current < self@.current <= self@.tokens.len(),
                self@.tokens == old(self)@.tokens,
                parse_or(old(self)@.tokens, old(self)@.current as int) == parse_or_rest(
                    self@.tokens,
                    self@.current as int,
                    expr@,
                ),
            decreases self@.tokens.len() - self@.current,
        {
            let op = self.tokens[self.current].duplicate();
            self.bump();
            let rhs = self.and()?;
            expr = Expr::Logical { left: Box::new(expr), op, right: Box::new(rhs) };
        }
        Ok(expr)
    }

    /// assignment := IDENT "=" assignment | logicOr; any other assignment
    /// target is a parse error.
    #[verifier::rlimit(80)]
    fn assignment(&mut self) -> (r: Result<Expr, LoxErr>)
        requires
            old(self)@.current <= old(self)@.tokens.len(),
        ensures
            final(self)@.tokens == old(self)@.tokens,
            old(self)@.current <= final(self)@.current <= final(self)@.tokens.len(),
            match r {
                Ok(e) => parse_assignment(old(self)@.tokens, old(self)@.current as int) == Ok::<
                    (ExprV, int),
                    int,
                >((e@, final(self)@.current as int)) && old(self)@.current < final(self)@.current,
                Err(er) => parse_assignment(old(self)@.tokens, old(self)@.current as int) == Err::<
                    (ExprV, int),
                    int,
                >(final(self)@.current as int),
            },
        decreases old(self)@.tokens.len() - old(self)@.current, 18int,
    {
        let expr = self.or()?;
        if self.check(TokenType::EQUAL) {
            self.bump();
            let value = self.assignment()?;
            match expr {
                Expr::Var { identifier } => Ok(
                    Expr::Assignment { name: identifier, value: Box::new(value) },
                ),
                _ => Err(LoxErr { msg: "Invalid assignment target".to_owned() }),
            }
        } else {
            Ok(expr)
        }
    }

    /// expression := assignment
    pub fn expression(&mut self) -> (r: Result<Expr, LoxErr>)
        requires
            old(self)@.current <= old(self)@.tokens.len(),
        ensures
            final(self)@.tokens == old(self)@.tokens,
            old(self)@.current <= final(self)@.current <= final(self)@.tokens.len(),
            match r {
                Ok(e) => parse_expression(old(self)@.tokens, old(self)@.current as int) == Ok::<
                    (ExprV, int),
                    int,
                >((e@, final(self)@.current as int)) && old(self)@.current < final(self)@.current,
                Err(er) => parse_expression(old(self)@.tokens, old(self)@.current as int) == Err::<
                    (ExprV, int),
                    int,
                >(final(self)@.current as int),
            },
        decreases old(self)@.tokens.len() - old(self)@.current, 20int,
    {
        proof {
            lemma_unfold_expression(old(self)@.tokens, old(self)@.current as int);
        }
        self.assignment()
    }
}


impl Parser {
    /// Whether `t` may start a fresh statement.
    fn boundary(t: TokenType) -> (r: bool)
        ensures
            r == is_sync_boundary(t),
    {
        match t {
            TokenType::CLASS | TokenType::FUN | TokenType::VAR | TokenType::FOR | TokenType::IF
                | TokenType::WHILE | TokenType::PRINT | TokenType::RETURN => true,
            _ => false,
        }
    }

    /// Discards tokens until a plausible statement boundary: just after a
    /// semicolon, in front of a statement keyword, or at the end.
    #[verifier::loop_isolation(false)]
    fn synchronize(&mut self)
        requires
            old(self)@.current <= old(self)@.tokens.len(),
        ensures
            final(self)@.tokens == old(self)@.tokens,
            old(self)@.current <= final(self)@.current <= final(self)@.tokens.len(),
            final(self)@.current as int == sync_pos(old(self)@.tokens, old(self)@.current as int),
    {
        proof {
            lemma_sync_loop(old(self)@.tokens, old(self)@.current as int + 1);
        }
        if self.current >= self.tokens.len() {
            return ;
        }
        self.bump();
        while self.current < self.tokens.len()
            invariant
                1 <= self@.current <= self@.tokens.len(),
                self@.tokens == old(self)@.tokens,
                sync_loop(old(self)@.tokens, old(self)@.current as int + 1) == sync_loop(
                    self@.tokens,
                    self@.current as int,
                ),
            decreases self@.tokens.len() - self@.current,
        {
            let t = self.tokens[self.current].token_type;
            if t == TokenType::EOF {
                return ;
            }
            if self.tokens[self.current - 1].token_type == TokenType::SEMICOLON {
                return ;
            }
            if Self::boundary(t) {
                return ;
            }
            self.bump();
        }
    }

    /// varDecl := IDENT "=" expression ";" (after the `var` keyword).
    #[verifier::rlimit(100)]
    #[verifier::spinoff_prover]
    fn assignment_statement(&mut self) -> (r: Result<Statement, LoxErr>)
        requires
            old(self)@.current <= old(self)@.tokens.len(),
        ensures
            final(self)@.tokens == old(self)@.tokens,
            old(self)@.current <= final(self)@.current <= final(self)@.tokens.len(),
            match r {
                Ok(st) => parse_var_decl(old(self)@.tokens, old(self)@.current as int) == Ok::<
                    (StmtV, int),
                    int,
                >((st@, final(self)@.current as int)) && old(self)@.current < final(self)@.current,
                Err(er) => parse_var_decl(old(self)@.tokens, old(self)@.current as int) == Err::<
                    (StmtV, int),
                    int,
                >(final(self)@.current as int),
            },
        decreases old(self)@.tokens.len() - old(self)@.current, 36int,
    {
        let token = self.consume(TokenType::IDENTIFIER, "Expected Variable Name")?;
        if self.check(TokenType::EQUAL) {
            self.bump();
            let initializer = self.expression()?;
            let semi = self.consume(
                TokenType::SEMICOLON,
                "Expected ';' after variable declaration",
            )?;
            Ok(Statement::Var { indentifier: token.lexeme, expression: initializer })
        } else {
            Err(LoxErr { msg: "Expected '=' after variable name".to_owned() })
        }
    }

    /// printStmt := "print" expression ";" (after the keyword).
    fn print_statement(&mut self) -> (r: Result<Statement, LoxErr>)
        requires
            old(self)@.current <= old(self)@.tokens.len(),
        ensures
            final(self)@.tokens == old(self)@.tokens,
            old(self)@.current <= final(self)@.current <= final(self)@.tokens.len(),
            match r {
                Ok(st) => parse_print(old(self)@.tokens, old(self)@.current as int) == Ok::<
                    (StmtV, int),
                    int,
                >((st@, final(self)@.current as int)) && old(self)@.current < final(self)@.current,
                Err(er) => parse_print(old(self)@.tokens, old(self)@.current as int) == Err::<
                    (StmtV, int),
                    int,
                >(final(self)@.current as int),
            },
        decreases old(self)@.tokens.len() - old(self)@.current, 36int,
    {
        let expr = self.expression()?;
        let semi = self.consume(TokenType::SEMICOLON, "Expected ; after statement")?;
        Ok(Statement::Print { expression: expr })
    }

    /// assertStmt := "assert" expression ";" (after the keyword).
    fn assert_statement(&mut self) -> (r: Result<Statement, LoxErr>)
        requires
            old(self)@.current <= old(self)@.tokens.len(),
        ensures
            final(self)@.tokens == old(self)@.tokens,
            old(self)@.current <= final(self)@.current <= final(self)@.tokens.len(),
            match r {
                Ok(st) => parse_assert(old(self)@.tokens, old(self)@.current as int) == Ok::<
                    (StmtV, int),
                    int,
                >((st@, final(self)@.current as int)) && old(self)@.current < final(self)@.current,
                Err(er) => parse_assert(old(self)@.tokens, old(self)@.current as int) == Err::<
                    (StmtV, int),
                    int,
                >(final(self)@.current as int),
            },
        decreases old(self)@.tokens.len() - old(self)@.current, 36int,
    {
        let expr = self.expression()?;
        let semi = self.consume(TokenType::SEMICOLON, "Expected ';' after variable declaration")?;
        Ok(Statement::Assert { expression_a: expr })
    }

    /// exprStmt := expression ";"
    fn expression_statement(&mut self) -> (r: Result<Statement, LoxErr>)
        requires
            old(self)@.current <= old(self)@.tokens.len(),
        ensures
            final(self)@.tokens == old(self)@.tokens,
            old(self)@.current <= final(self)@.current <= final(self)@.tokens.len(),
            match r {
                Ok(st) => parse_expr_statement(old(self)@.tokens, old(self)@.current as int)
                    == Ok::<(StmtV, int), int>((st@, final(self)@.current as int)) && old(
                    self,
                )@.current < final(self)@.current,
                Err(er) => parse_expr_statement(old(self)@.tokens, old(self)@.current as int)
                    == Err::<(StmtV, int), int>(final(self)@.current as int),
            },
        decreases old(self)@.tokens.len() - old(self)@.current, 30int,
    {
        let expr = self.expression()?;
        let semi = self.consume(TokenType::SEMICOLON, "Expected ; after statement")?;
        Ok(Statement::Expression { expression: expr })
    }

    /// ifStmt := "(" expression ")" statement ("else" statement)? (after
    /// the `if` keyword).
    #[verifier::rlimit(100)]
    fn if_statement(&mut self) -> (r: Result<Statement, LoxErr>)
        requires
            old(self)@.current <= old(self)@.tokens.len(),
        ensures
            final(self)@.tokens == old(self)@.tokens,
            old(self)@.current <= final(self)@.current <= final(self)@.tokens.len(),
            match r {
                Ok(st) => parse_if(old(self)@.tokens, old(self)@.current as int) == Ok::<
                    (StmtV, int),
                    int,
                >((st@, final(self)@.current as int)) && old(self)@.current < final(self)@.current,
                Err(er) => parse_if(old(self)@.tokens, old(self)@.current as int) == Err::<
                    (StmtV, int),
                    int,
                >(final(self)@.current as int),
            },
        decreases old(self)@.tokens.len() - old(self)@.current, 36int,
    {
        proof {
            lemma_unfold_if(old(self)@.tokens, old(self)@.current as int);
        }
        let lp = self.consume(TokenType::LEFTPAREN, "Expected '(' after if")?;
        let expr = self.expression()?;
        let rp = self.consume(TokenType::RIGHTPAREN, "Expected ')' after if")?;
        let happy = self.statement()?;
        if self.check(TokenType::ELSE) {
            self.bump();
            let sad = self.statement()?;
            Ok(
                Statement::If {
                    conditional: expr,
                    happy_path: Box::new(happy),
                    sad_path: Some(Box::new(sad)),
                },
            )
        } else {
            Ok(Statement::If { conditional: expr, happy_path: Box::new(happy), sad_path: None })
        }
    }


    /// whileStmt := "(" expression ")" statement (after the `while`
    /// keyword).
    #[verifier::rlimit(60)]
    fn while_statement(&mut self) -> (r: Result<Statement, LoxErr>)
        requires
            old(self)@.current <= old(self)@.tokens.len(),
        ensures
            final(self)@.tokens == old(self)@.tokens,
            old(self)@.current <= final(self)@.current <= final(self)@.tokens.len(),
            match r {
                Ok(st) => parse_while(old(self)@.tokens, old(self)@.current as int) == Ok::<
                    (StmtV, int),
                    int,
                >((st@, final(self)@.current as int)) && old(self)@.current < final(self)@.current,
                Err(er) => parse_while(old(self)@.tokens, old(self)@.current as int) == Err::<
                    (StmtV, int),
                    int,
                >(final(self)@.current as int),
            },
        decreases old(self)@.tokens.len() - old(self)@.current, 36int,
    {
        proof {
            lemma_unfold_while(old(self)@.tokens, old(self)@.current as int);
        }
        let lp = self.consume(TokenType::LEFTPAREN, "Expected '(' after while")?;
        let expr = self.expression()?;
        let rp = self.consume(TokenType::RIGHTPAREN, "Expected ')' after condition")?;
        let happy = self.statement()?;
        Ok(Statement::While { predicate: expr, happy_path: Box::new(happy) })
    }


    /// forStmt := "(" forInit? ";" expression? ";" expression? ")"
    /// statement, desugared to a `while` (after the `for` keyword).
    #[verifier::rlimit(100)]
    fn for_loop(&mut self) -> (r: Result<Statement, LoxErr>)
        requires
            old(self)@.current <= old(self)@.tokens.len(),
        ensures
            final(self)@.tokens == old(self)@.tokens,
            old(self)@.current <= final(self)@.current <= final(self)@.tokens.len(),
            match r {
                Ok(st) => parse_for(old(self)@.tokens, old(self)@.current as int) == Ok::<
                    (StmtV, int),
                    int,
                >((st@, final(self)@.current as int)) && old(self)@.current < final(self)@.current,
                Err(er) => parse_for(old(self)@.tokens, old(self)@.current as int) == Err::<
                    (StmtV, int),
                    int,
                >(final(self)@.current as int),
            },
        decreases old(self)@.tokens.len() - old(self)@.current, 36int,
    {
        let ghost toks = self@.tokens;
        let ghost i0 = self@.current as int;
        proof {
            lemma_unfold_for(toks, i0);
        }
        let lp = self.consume(TokenType::LEFTPAREN, "Expected '(' after for")?;
        let init: Option<Statement> = if self.check(TokenType::SEMICOLON) {
            self.bump();
            None
        } else if self.check(TokenType::VAR) {
            self.bump();
            let s = self.assignment_statement()?;
            Some(s)
        } else {
            let s = self.expression_statement()?;
            Some(s)
        };
        let ghost iv: Option<StmtV> = match &init {
            Some(st) => Some(st@),
            None => None,
        };
        proof {
            assert(parse_for_init(toks, i0) == Ok::<(Option<StmtV>, int), int>(
                (iv, self@.current as int),
            ));
        }
        let cond: Option<Expr> = if self.check(TokenType::SEMICOLON) {
            self.bump();
            None
        } else {
            let c = self.expression()?;
            let semi = self.consume(TokenType::SEMICOLON, "Expected ; after condition")?;
            Some(c)
        };
        let ghost cv: Option<ExprV> = match &cond {
            Some(c) => Some(c@),
            None => None,
        };
        let incr: Option<Expr> = if self.check(TokenType::RIGHTPAREN) {
            self.bump();
            None
        } else {
            let x = self.expression()?;
            let rp = self.consume(TokenType::RIGHTPAREN, "Expected ) after condition")?;
            Some(x)
        };
        let ghost xv: Option<ExprV> = match &incr {
            Some(x) => Some(x@),
            None => None,
        };
        let body = self.statement()?;
        let ghost bv = body@;
        let body2 = match incr {
            Some(x) => {
                let mut v: Vec<Statement> = Vec::new();
                v.push(body);
                v.push(Statement::Expression { expression: x });
                proof {
                    crate::statement::lemma_stmts_view(v@);
                    assert(crate::statement::stmts_view(v@) =~= seq![v@[0]@, v@[1]@]);
                }
                Statement::Block { statements: v }
            },
            None => body,
        };
        let ghost b2v = body2@;
        proof {
            assert(b2v =~~= (match xv {
                Some(x) => StmtV::Block {
                    statements: seq![bv, StmtV::Expression { expression: x }],
                },
                None => bv,
            }));
        }
        let condex = match cond {
            Some(c) => c,
            None => Expr::LiteralExpr { literal: LiteralValue::True },
        };
        let ghost cvx = condex@;
        proof {
            assert(cvx =~~= (match cv {
                Some(c) => c,
                None => ExprV::LiteralExpr { literal: LitV::True },
            }));
        }
        let w = Statement::While { predicate: condex, happy_path: Box::new(body2) };
        let ghost wv = w@;
        proof {
            assert(wv =~~= StmtV::While { predicate: cvx, happy_path: Box::new(b2v) });
        }
        let whole = match init {
            Some(s0) => {
                let mut v: Vec<Statement> = Vec::new();
                v.push(s0);
                v.push(w);
                proof {
                    crate::statement::lemma_stmts_view(v@);
                    assert(crate::statement::stmts_view(v@) =~= seq![v@[0]@, v@[1]@]);
                }
                Statement::Block { statements: v }
            },
            None => w,
        };
        proof {
            assert(whole@ =~~= for_desugar(iv, cv, xv, bv));
        }
        Ok(whole)
    }


    /// blockStmt := "{" declaration* "}" (after the `{`).
    #[verifier::loop_isolation(false)]
    #[verifier::rlimit(60)]
    fn block_statement(&mut self) -> (r: Result<Statement, LoxErr>)
        requires
            old(self)@.current <= old(self)@.tokens.len(),
        ensures
            final(self)@.tokens == old(self)@.tokens,
            old(self)@.current <= final(self)@.current <= final(self)@.tokens.len(),
            match r {
                Ok(st) => parse_block(old(self)@.tokens, old(self)@.current as int, Seq::empty())
                    == Ok::<(StmtV, int), int>((st@, final(self)@.current as int)) && old(
                    self,
                )@.current < final(self)@.current,
                Err(er) => parse_block(old(self)@.tokens, old(self)@.current as int, Seq::empty())
                    == Err::<(StmtV, int), int>(final(self)@.current as int),
            },
        decreases old(self)@.tokens.len() - old(self)@.current, 50int,
    {
        let ghost toks = self@.tokens;
        let mut statements: Vec<Statement> = Vec::new();
        proof {
            crate::statement::lemma_stmts_view(statements@);
            assert(crate::statement::stmts_view(statements@) =~= Seq::<StmtV>::empty());
        }
        while !(self.check(TokenType::RIGHTBRACE)) && !(self.is_at_end())
            invariant
                old(self)@.current <= self@.current <= self@.tokens.len(),
                self@.tokens == toks,
                parse_block(toks, old(self)@.current as int, Seq::empty()) == parse_block(
                    toks,
                    self@.current as int,
                    crate::statement::stmts_view(statements@),
                ),
            decreases self@.tokens.len() - self@.current,
        {
            let ghost cur0 = self@.current as int;
            let ghost acc0 = statements@;
            proof {
                lemma_unfold_block(toks, cur0, crate::statement::stmts_view(acc0));
            }
            let decl = self.declaration()?;
            statements.push(decl);
            proof {
                crate::statement::lemma_stmts_view(acc0);
                crate::statement::lemma_stmts_view(statements@);
                assert(crate::statement::stmts_view(statements@) =~= crate::statement::stmts_view(
                    acc0,
                ).push(statements@.last()@));
            }
        }
        proof {
            lemma_unfold_block(
                toks,
                self@.current as int,
                crate::statement::stmts_view(statements@),
            );
        }
        let rb = self.consume(TokenType::RIGHTBRACE, "Expected } after {")?;
        Ok(Statement::Block { statements })
    }


    /// statement := printStmt | assertStmt | blockStmt | ifStmt | whileStmt
    ///            | forStmt | exprStmt
    fn statement(&mut self) -> (r: Result<Statement, LoxErr>)
        requires
            old(self)@.current <= old(self)@.tokens.len(),
        ensures
            final(self)@.tokens == old(self)@.tokens,
            old(self)@.current <= final(self)@.current <= final(self)@.tokens.len(),
            match r {
                Ok(st) => parse_statement(old(self)@.tokens, old(self)@.current as int) == Ok::<
                    (StmtV, int),
                    int,
                >((st@, final(self)@.current as int)) && old(self)@.current < final(self)@.current,
                Err(er) => parse_statement(old(self)@.tokens, old(self)@.current as int) == Err::<
                    (StmtV, int),
                    int,
                >(final(self)@.current as int),
            },
        decreases old(self)@.tokens.len() - old(self)@.current, 38int,
    {
        proof {
            lemma_unfold_statement(old(self)@.tokens, old(self)@.current as int);
        }
        if self.current >= self.tokens.len() {
            return Err(LoxErr { msg: "Expected statement".to_owned() });
        }
        let tt = self.tokens[self.current].token_type;
        match tt {
            TokenType::PRINT => {
                self.bump();
                self.print_statement()
            },
            TokenType::LEFTBRACE => {
                self.bump();
                self.block_statement()
            },
            TokenType::ASSERT => {
                self.bump();
                self.assert_statement()
            },
            TokenType::IF => {
                self.bump();
                self.if_statement()
            },
            TokenType::WHILE => {
                self.bump();
                self.while_statement()
            },
            TokenType::FOR => {
                self.bump();
                self.for_loop()
            },
            _ => self.expression_statement(),
        }
    }


    /// declaration := "var" varDecl | statement
    fn declaration(&mut self) -> (r: Result<Statement, LoxErr>)
        requires
            old(self)@.current <= old(self)@.tokens.len(),
        ensures
            final(self)@.tokens == old(self)@.tokens,
            old(self)@.current <= final(self)@.current <= final(self)@.tokens.len(),
            match r {
                Ok(st) => parse_declaration(old(self)@.tokens, old(self)@.current as int) == Ok::<
                    (StmtV, int),
                    int,
                >((st@, final(self)@.current as int)) && old(self)@.current < final(self)@.current,
                Err(er) => parse_declaration(old(self)@.tokens, old(self)@.current as int) == Err::<
                    (StmtV, int),
                    int,
                >(final(self)@.current as int),
            },
        decreases old(self)@.tokens.len() - old(self)@.current, 40int,
    {
        proof {
            lemma_unfold_declaration(old(self)@.tokens, old(self)@.current as int);
        }
        if self.check(TokenType::VAR) {
            self.bump();
            self.assignment_statement()
        } else {
            self.statement()
        }
    }


    /// Parses the whole token stream: the successfully parsed statements in
    /// order, and the collected parse error messages.  A failed statement
    /// is dropped and parsing resumes at the next statement boundary.
    #[verifier::loop_isolation(false)]
    #[verifier::rlimit(60)]
    pub fn parse(&mut self) -> (r: (Vec<Statement>, Vec<String>))
        requires
            old(self)@.current <= old(self)@.tokens.len(),
        ensures
            stmts_v(r.0@) == parse_program(old(self)@.tokens, old(self)@.current as int).0,
            r.1@.len() == parse_program(old(self)@.tokens, old(self)@.current as int).1,
    {
        let ghost toks = self@.tokens;
        let ghost i0 = self@.current as int;
        let mut statements: Vec<Statement> = Vec::new();
        let mut errors: Vec<String> = Vec::new();
        proof {
            crate::statement::lemma_stmts_view(statements@);
            assert(stmts_v(statements@) =~= Seq::<StmtV>::empty());
            assert(stmts_v(statements@) + parse_program(toks, i0).0 =~= parse_program(
                toks,
                i0,
            ).0);
        }
        while !(self.is_at_end())
            invariant
                self@.tokens == toks,
                self@.current <= toks.len(),
                i0 <= self@.current as int,
                parse_program(toks, i0).0 == stmts_v(statements@) + parse_program(
                    toks,
                    self@.current as int,
                ).0,
                parse_program(toks, i0).1 == errors@.len() + parse_program(
                    toks,
                    self@.current as int,
                ).1,
            decreases toks.len() - self@.current,
        {
            let ghost cur0 = self@.current as int;
            let ghost acc0 = statements@;
            proof {
                lemma_unfold_program(toks, cur0);
            }
            match self.declaration() {
                Ok(stmt) => {
                    statements.push(stmt);
                    proof {
                        crate::statement::lemma_stmts_view(acc0);
                        crate::statement::lemma_stmts_view(statements@);
                        assert(stmts_v(statements@) =~= stmts_v(acc0).push(statements@.last()@));
                        assert(stmts_v(acc0) + (seq![statements@.last()@] + parse_program(
                            toks,
                            self@.current as int,
                        ).0) =~= stmts_v(statements@) + parse_program(
                            toks,
                            self@.current as int,
                        ).0);
                    }
                },
                Err(e) => {
                    errors.push(e.msg);
                    let ghost j = self@.current as int;
                    self.synchronize();
                    proof {
                        lemma_sync_loop(toks, j + 1);
                    }
                },
            }
        }
        proof {
            lemma_unfold_program(toks, self@.current as int);
            assert(parse_program(toks, self@.current as int).0 =~= Seq::<StmtV>::empty());
            assert(stmts_v(statements@) + Seq::<StmtV>::empty() =~= stmts_v(statements@));
        }
        (statements, errors)
    }
}

/// One unfolding of `parse_statement`, for the statement parser's proof.
pub proof fn lemma_unfold_statement(toks: Seq<TokV>, i: int)
    ensures
        parse_statement(toks, i) == (if i < 0 || i >= toks.len() {
            Err::<(StmtV, int), int>(i)
        } else {
            let t = toks[i].token_type;
            if t == TokenType::PRINT {
                parse_print(toks, i + 1)
            } else if t == TokenType::LEFTBRACE {
                parse_block(toks, i + 1, Seq::empty())
            } else if t == TokenType::ASSERT {
                parse_assert(toks, i + 1)
            } else if t == TokenType::IF {
                parse_if(toks, i + 1)
            } else if t == TokenType::WHILE {
                parse_while(toks, i + 1)
            } else if t == TokenType::FOR {
                parse_for(toks, i + 1)
            } else {
                parse_expr_statement(toks, i)
            }
        }),
{
    reveal(parse_statement);
    reveal(parse_declaration);
    reveal(parse_block);
    reveal(parse_if);
    reveal(parse_while);
    reveal(parse_for);
    reveal(parse_program);
}

/// One unfolding of `parse_declaration`.
pub proof fn lemma_unfold_declaration(toks: Seq<TokV>, i: int)
    ensures
        parse_declaration(toks, i) == (if 0 <= i < toks.len() && toks[i].token_type
            == TokenType::VAR {
            parse_var_decl(toks, i + 1)
        } else {
            parse_statement(toks, i)
        }),
{
    reveal(parse_statement);
    reveal(parse_declaration);
    reveal(parse_block);
    reveal(parse_if);
    reveal(parse_while);
    reveal(parse_for);
    reveal(parse_program);
}

/// One unfolding of `parse_block`.
pub proof fn lemma_unfold_block(toks: Seq<TokV>, i: int, acc: Seq<StmtV>)
    ensures
        parse_block(toks, i, acc) == (if i < 0 || i >= toks.len() {
            Err::<(StmtV, int), int>(i)
        } else if toks[i].token_type == TokenType::RIGHTBRACE {
            Ok::<(StmtV, int), int>((StmtV::Block { statements: acc }, i + 1))
        } else if toks[i].token_type == TokenType::EOF {
            Err::<(StmtV, int), int>(i)
        } else {
            match parse_declaration(toks, i) {
                Ok(p) => if p.1 <= i || p.1 > toks.len() {
                    Err::<(StmtV, int), int>(p.1)
                } else {
                    parse_block(toks, p.1, acc.push(p.0))
                },
                Err(j) => Err::<(StmtV, int), int>(j),
            }
        }),
{
    reveal(parse_statement);
    reveal(parse_declaration);
    reveal(parse_block);
    reveal(parse_if);
    reveal(parse_while);
    reveal(parse_for);
    reveal(parse_program);
}

/// One unfolding of `parse_if`.
pub proof fn lemma_unfold_if(toks: Seq<TokV>, i: int)
    ensures
        parse_if(toks, i) == (if 0 <= i < toks.len() && toks[i].token_type == TokenType::LEFTPAREN {
            match parse_expression(toks, i + 1) {
                Ok(p) => if p.1 < toks.len() && toks[p.1].token_type == TokenType::RIGHTPAREN {
                    if p.1 < i {
                        Err::<(StmtV, int), int>(p.1)
                    } else {
                        match parse_statement(toks, p.1 + 1) {
                            Ok(q) => if q.1 < toks.len() && toks[q.1].token_type
                                == TokenType::ELSE {
                                if q.1 < i {
                                    Err::<(StmtV, int), int>(q.1)
                                } else {
                                    match parse_statement(toks, q.1 + 1) {
                                        Ok(e) => Ok::<(StmtV, int), int>(
                                            (
                                                StmtV::If {
                                                    conditional: p.0,
                                                    happy_path: Box::new(q.0),
                                                    sad_path: Some(Box::new(e.0)),
                                                },
                                                e.1,
                                            ),
                                        ),
                                        Err(j) => Err::<(StmtV, int), int>(j),
                                    }
                                }
                            } else {
                                Ok::<(StmtV, int), int>(
                                    (
                                        StmtV::If {
                                            conditional: p.0,
                                            happy_path: Box::new(q.0),
                                            sad_path: None,
                                        },
                                        q.1,
                                    ),
                                )
                            },
                            Err(j) => Err::<(StmtV, int), int>(j),
                        }
                    }
                } else {
                    Err::<(StmtV, int), int>(p.1)
                },
                Err(j) => Err::<(StmtV, int), int>(j),
            }
        } else {
            Err::<(StmtV, int), int>(i)
        }),
{
    reveal(parse_statement);
    reveal(parse_declaration);
    reveal(parse_block);
    reveal(parse_if);
    reveal(parse_while);
    reveal(parse_for);
    reveal(parse_program);
}

/// One unfolding of `parse_while`.
pub proof fn lemma_unfold_while(toks: Seq<TokV>, i: int)
    ensures
        parse_while(toks, i) == (if 0 <= i < toks.len() && toks[i].token_type
            == TokenType::LEFTPAREN {
            match parse_expression(toks, i + 1) {
                Ok(p) => if p.1 < toks.len() && toks[p.1].token_type == TokenType::RIGHTPAREN {
                    if p.1 < i {
                        Err::<(StmtV, int), int>(p.1)
                    } else {
                        match parse_statement(toks, p.1 + 1) {
                            Ok(q) => Ok::<(StmtV, int), int>(
                                (StmtV::While { predicate: p.0, happy_path: Box::new(q.0) }, q.1),
                            ),
                            Err(j) => Err::<(StmtV, int), int>(j),
                        }
                    }
                } else {
                    Err::<(StmtV, int), int>(p.1)
                },
                Err(j) => Err::<(StmtV, int), int>(j),
            }
        } else {
            Err::<(StmtV, int), int>(i)
        }),
{
    reveal(parse_statement);
    reveal(parse_declaration);
    reveal(parse_block);
    reveal(parse_if);
    reveal(parse_while);
    reveal(parse_for);
    reveal(parse_program);
}

/// One unfolding of `parse_for`.
pub proof fn lemma_unfold_for(toks: Seq<TokV>, i: int)
    ensures
        parse_for(toks, i) == (if 0 <= i < toks.len() && toks[i].token_type == TokenType::LEFTPAREN {
            match parse_for_init(toks, i) {
                Ok(ip) => if ip.1 <= i || ip.1 > toks.len() {
                    Err::<(StmtV, int), int>(ip.1)
                } else {
                    match parse_for_cond(toks, ip.1) {
                        Ok(cp) => if cp.1 <= i || cp.1 > toks.len() {
                            Err::<(StmtV, int), int>(cp.1)
                        } else {
                            match parse_for_incr(toks, cp.1) {
                                Ok(mp) => if mp.1 <= i || mp.1 > toks.len() {
                                    Err::<(StmtV, int), int>(mp.1)
                                } else {
                                    match parse_statement(toks, mp.1) {
                                        Ok(bp) => Ok::<(StmtV, int), int>(
                                            (for_desugar(ip.0, cp.0, mp.0, bp.0), bp.1),
                                        ),
                                        Err(j2) => Err::<(StmtV, int), int>(j2),
                                    }
                                },
                                Err(j2) => Err::<(StmtV, int), int>(j2),
                            }
                        },
                        Err(j2) => Err::<(StmtV, int), int>(j2),
                    }
                },
                Err(j2) => Err::<(StmtV, int), int>(j2),
            }
        } else {
            Err::<(StmtV, int), int>(i)
        }),
{
    reveal(parse_statement);
    reveal(parse_declaration);
    reveal(parse_block);
    reveal(parse_if);
    reveal(parse_while);
    reveal(parse_for);
    reveal(parse_program);
}

/// One unfolding of `parse_program`.
pub proof fn lemma_unfold_program(toks: Seq<TokV>, i: int)
    ensures
        parse_program(toks, i) == (if i < 0 || i >= toks.len() || toks[i].token_type
            == TokenType::EOF {
            (Seq::<StmtV>::empty(), 0nat)
        } else {
            match parse_declaration(toks, i) {
                Ok(p) => if p.1 <= i || p.1 > toks.len() {
                    (Seq::<StmtV>::empty(), 1nat)
                } else {
                    let r = parse_program(toks, p.1);
                    (seq![p.0] + r.0, r.1)
                },
                Err(j) => {
                    let k = sync_pos(toks, if j < i {
                        i
                    } else {
                        j
                    });
                    if k <= i || k > toks.len() {
                        (Seq::<StmtV>::empty(), 1nat)
                    } else {
                        let r = parse_program(toks, k);
                        (r.0, (r.1 + 1) as nat)
                    }
                },
            }
        }),
{
    reveal(parse_statement);
    reveal(parse_declaration);
    reveal(parse_block);
    reveal(parse_if);
    reveal(parse_while);
    reveal(parse_for);
    reveal(parse_program);
}

} // verus!
