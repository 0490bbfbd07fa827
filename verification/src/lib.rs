//! A verified tree-walking interpreter for a small, dynamically typed,
//! C-syntax scripting language: scanner, recursive-descent parser,
//! lexically scoped environment, and evaluator.

use vstd::prelude::*;

pub mod environment;
pub mod expr;
pub mod float_bits;
pub mod interpreter;
pub mod laws;
pub mod parser;
pub mod scanner;
pub mod statement;
pub mod text;
pub mod token;
pub mod value;

verus! {

/// The single error kind of the interpreter: an opaque, human-readable
/// message.  Scan errors, parse errors, undefined variables, type errors and
/// failed assertions all surface as a `LoxErr`.
#[derive(Debug)]
pub struct LoxErr {
    pub msg: String,
}

impl View for LoxErr {
    type V = Seq<char>;

    open spec fn view(&self) -> Seq<char> {
        self.msg@
    }
}


/// Scans, parses and interprets `contents` against the interpreter's
/// persistent state: first any parse error messages, then the lines the
/// program printed, together with the final outcome.  A scan error aborts
/// before anything runs.  The token stream, the statements kept, the
/// output and the outcome are exactly those of the specification scanner,
/// parser and fueled interpreter; the interpreter's iteration limit can be
/// reported only of a program whose fueled run is still unfinished at
/// every fuel up to `u64::MAX`.
pub fn run(interpreter: &mut crate::interpreter::Interpreter, contents: &str) -> (r: (
    Vec<String>,
    Result<(), LoxErr>,
))
    requires
        crate::environment::env_wf(old(interpreter)@),
    ensures
        crate::environment::env_wf(final(interpreter)@),
        contents@.len() + 1 <= usize::MAX ==> match crate::scanner::scan_all(contents@, 0, 1) {
            Err(m) => final(interpreter)@ == old(interpreter)@ && r.0@.len() == 0 && (r.1 matches
            Err(e) && e@ == m),
            Ok(tv) => {
                let stmts = crate::parser::parse_program(tv, 0).0;
                let nerr = crate::parser::parse_program(tv, 0).1;
                &&& r.0@.len() >= nerr
                &&& match r.1 {
                    Ok(u) => exists|f: nat|
                        crate::interpreter::run_stmts(stmts, old(interpreter)@, f) == Some(
                            (
                                final(interpreter)@,
                                crate::interpreter::out_v(r.0@.skip(nerr as int)),
                                Ok::<(), Seq<char>>(()),
                            ),
                        ),
                    Err(e) => (e@ == crate::interpreter::loop_limit_msg()
                        && crate::interpreter::program_stalls(stmts, old(interpreter)@)
                        && exists|i: int|
                        0 <= i < stmts.len() && crate::interpreter::stalled_at(
                            stmts,
                            i,
                            old(interpreter)@,
                            crate::interpreter::out_v(r.0@.skip(nerr as int)),
                        )) || exists|f: nat|
                        crate::interpreter::run_stmts(stmts, old(interpreter)@, f) == Some(
                            (
                                final(interpreter)@,
                                crate::interpreter::out_v(r.0@.skip(nerr as int)),
                                Err::<(), Seq<char>>(e@),
                            ),
                        ),
                }
            },
        },
{
    let n = contents.unicode_len();
    if n >= usize::MAX {
        return (
            Vec::new(),
            Err(LoxErr { msg: "Source too long to scan".to_owned() }),
        );
    }
    let mut scanner = crate::scanner::Scanner::new(contents);
    let tokens = match scanner.scan_tokens() {
        Ok(t) => t,
        Err(e) => {
            return (Vec::new(), Err(e));
        },
    };
    proof {
        assert(crate::parser::toks_v(tokens@) =~= crate::scanner::tok_views(tokens@));
    }
    let mut parser = crate::parser::Parser::new(tokens);
    let (statements, errors) = parser.parse();
    let (mut program_out, res) = interpreter.interpret(statements);
    let ghost nerr = errors@.len();
    let ghost prog_lines = program_out@;
    let mut out = errors;
    out.append(&mut program_out);
    proof {
        assert(out@.skip(nerr as int) =~= prog_lines);
        assert(crate::interpreter::out_v(out@.skip(nerr as int)) =~= crate::interpreter::out_v(
            prog_lines,
        ));
        if res is Err {
            let sv = crate::statement::stmts_view(statements@);
            if exists|i: int|
                0 <= i < sv.len() && crate::interpreter::stalled_at(
                    sv,
                    i,
                    old(interpreter)@,
                    crate::interpreter::out_v(prog_lines),
                ) {
                let wi = choose|i: int|
                    0 <= i < sv.len() && crate::interpreter::stalled_at(
                        sv,
                        i,
                        old(interpreter)@,
                        crate::interpreter::out_v(prog_lines),
                    );
                assert(crate::interpreter::stalled_at(
                    sv,
                    wi,
                    old(interpreter)@,
                    crate::interpreter::out_v(out@.skip(nerr as int)),
                ));
            }
        }
    }
    (out, res)
}

} // verus!
