//! A small compiler pipeline: a lexer, a recursive descent parser, a type
//! checker, a generator of three-address code and an interpreter for it.
pub mod text;
pub mod error;
pub mod token;
pub mod ast;
pub mod tac;
pub mod assoc;
pub mod interpreter;
pub mod symbol_table;
pub mod phases;
pub mod cost;

use vstd::prelude::*;
use crate::ast::{Stmt, StmtV, stmts_view};
use crate::error::{ErrorV};
use crate::interpreter::{Interpreter, MachineV, MAX_STEPS, run_from};
use crate::phases::codegen::{CodeGen, GenV, gen_stmts, stmts_cost, lemma_stmts_cost_prefix};
use crate::phases::code_shape::{labels_resolve, lemma_program_labels};
use crate::phases::evaluation::{
    exec_stmts, outcome_value, runs_to, simple_stmts, lemma_generated_code_evaluates,
};
use crate::interpreter::lemma_run_more_fuel;
use crate::phases::lexer::{Lexer, SpannedV, tokens_from, spanned_view, lemma_tokens_from_len};
use crate::phases::parser::{Parser, program_at};
use crate::phases::semantic::{TypeChecker, check_stmts, program_result};
use crate::symbol_table::{SymbolV, TableV};
use crate::tac::{Instr, InstrV, instrs_view};
use crate::token::{Token, TokenV, tokens_view};

pub use crate::error::{CompileError, CompileResult};

verus! {

/// The longest source, in characters, that `compile` takes: a text this
/// long would not fit in memory.
pub const MAX_SOURCE_LEN: usize = usize::MAX / 8;

/// The tokens of a source text, without their positions.
pub open spec fn source_tokens(source: Seq<char>) -> Seq<TokenV> {
    tokens_from(source, 0).map_values(|s: SpannedV| s.token)
}

/// A symbol table with only the empty global scope and no errors.
pub open spec fn empty_table() -> TableV {
    TableV { scopes: seq![Map::<Seq<char>, SymbolV>::empty()], errors: Seq::empty() }
}

/// A code generator that has emitted nothing.
pub open spec fn empty_gen() -> GenV {
    GenV { instrs: Seq::empty(), temps: 0, labels: 0 }
}

/// What compiling a source gives: the syntax error of its tokens, or the
/// semantic error of the program they form, or the code generated for it.
pub open spec fn compile_spec(source: Seq<char>) -> Result<Seq<InstrV>, ErrorV> {
    match program_at(source_tokens(source), 0) {
        Err(e) => Err(e),
        Ok((ast, _)) => match program_result(check_stmts(empty_table(), ast)) {
            Err(e) => Err(e),
            Ok(_) => Ok(gen_stmts(empty_gen(), ast).instrs),
        },
    }
}

/// What running a compiled source gives, from an empty memory.
pub open spec fn compile_and_run_spec(source: Seq<char>) -> Result<Option<i64>, ErrorV> {
    match compile_spec(source) {
        Err(e) => Err(e),
        Ok(instrs) => Ok(run_from(instrs, MachineV { memory: Map::empty(), pc: 0 }, MAX_STEPS as nat).value),
    }
}

/// Whatever source compiles, the code it compiles to defines no label twice,
/// and each jump in it goes to the one place where its label stands.
pub proof fn lemma_compiled_labels_resolve(source: Seq<char>)
    ensures
        compile_spec(source) is Ok ==> labels_resolve(compile_spec(source)->Ok_0),
{
    if let Ok((ast, _)) = program_at(source_tokens(source), 0) {
        lemma_program_labels(ast);
    }
}

/// The program a source parses to.
pub open spec fn source_program(source: Seq<char>) -> Seq<StmtV> {
    program_at(source_tokens(source), 0)->Ok_0.0
}

/// When a source compiles, and its program is simple and comes to an end
/// when executed directly, running the compiled code gives what that
/// execution gives (the value of the first `return` reached, or none); and
/// `compile_and_run` gives it whenever the run takes no more than
/// `MAX_STEPS` instructions.
pub proof fn lemma_compile_and_run_evaluates(source: Seq<char>, fuel: nat)
    requires
        compile_spec(source) is Ok,
        simple_stmts(source_program(source)),
        exec_stmts(Map::empty(), source_program(source), fuel) is Some,
    ensures
        ({
            let v = outcome_value(exec_stmts(Map::empty(), source_program(source), fuel)->Some_0);
            exists|k: nat|
                #[trigger] runs_to(compile_spec(source)->Ok_0, k, v) && (k <= MAX_STEPS
                    ==> compile_and_run_spec(source) == Ok::<Option<i64>, ErrorV>(v))
        }),
{
    let ast = source_program(source);
    let code = compile_spec(source)->Ok_0;
    let v = outcome_value(exec_stmts(Map::empty(), ast, fuel)->Some_0);
    assert(code == gen_stmts(empty_gen(), ast).instrs);
    lemma_generated_code_evaluates(ast, fuel);
    let k = choose|k: nat| #[trigger] runs_to(code, k, v);
    let init = MachineV { memory: Map::empty(), pc: 0 };
    if k <= MAX_STEPS {
        lemma_run_more_fuel(code, init, k, MAX_STEPS as nat);
    }
    assert(runs_to(code, k, v) && (k <= MAX_STEPS ==> compile_and_run_spec(source) == Ok::<
        Option<i64>,
        ErrorV,
    >(v)));
}

/// Compile source code through all phases
pub fn compile(source: &str) -> (r: CompileResult<Vec<Instr>>)
    requires
        source@.len() <= MAX_SOURCE_LEN,
    ensures
        match compile_spec(source@) {
            Ok(is) => r is Ok && instrs_view(r->Ok_0@) == is,
            Err(e) => r is Err && r->Err_0@ == e,
        },
{
    // Phase 1: Lexical Analysis
    let spanned = Lexer::tokenize(source);
    let ghost sv = spanned_view(spanned@);
    let mut tokens: Vec<Token> = Vec::new();
    let mut i: usize = 0;
    while i < spanned.len()
        invariant
            i <= spanned@.len(),
            sv == spanned_view(spanned@),
            tokens_view(tokens@) == sv.take(i as int).map_values(|s: SpannedV| s.token),
        decreases spanned@.len() - i,
    {
        let t = spanned[i].token.duplicate();
        let ghost before = tokens_view(tokens@);
        tokens.push(t);
        proof {
            assert(sv[i as int] == spanned@[i as int]@);
            assert(sv.take(i + 1).map_values(|s: SpannedV| s.token) =~= sv.take(i as int).map_values(
                |s: SpannedV| s.token,
            ).push(sv[i as int].token));
            assert(tokens_view(tokens@) =~= before.push(t@));
        }
        i = i + 1;
    }
    proof {
        assert(sv.take(i as int) =~= sv);
        lemma_tokens_from_len(source@, 0);
    }
    let ghost toks = tokens_view(tokens@);
    assert(toks == source_tokens(source@));

    // Phase 2: Syntax Analysis
    let mut parser = Parser::new(tokens);
    let ast = parser.parse()?;
    let ghost av = stmts_view(ast@);
    proof {
        crate::cost::lemma_program_cost(toks, 0);
    }

    // Phase 3: Semantic Analysis
    let mut checker = TypeChecker::new();
    assert(checker.table@ == empty_table());
    checker.check_program(&ast)?;

    // Phase 4: Code Generation
    let mut gen = CodeGen::new();
    let mut j: usize = 0;
    while j < ast.len()
        invariant
            j <= ast@.len(),
            av == stmts_view(ast@),
            stmts_cost(av) <= 4 * (toks.len() as int),
            toks.len() <= MAX_SOURCE_LEN + 1,
            gen@ == gen_stmts(empty_gen(), av.take(j as int)),
            gen@.temps <= stmts_cost(av.take(j as int)),
            gen@.labels <= stmts_cost(av.take(j as int)),
        decreases ast@.len() - j,
    {
        proof {
            assert(av.take(j + 1).drop_last() =~= av.take(j as int));
            assert(av.take(j + 1).last() == ast@[j as int]@);
            lemma_stmts_cost_prefix(av, j + 1);
        }
        gen.gen_stmt(&ast[j]);
        j = j + 1;
    }
    proof {
        assert(av.take(j as int) =~= av);
    }
    Ok(gen.into_instrs())
}

/// Compile and execute
pub fn compile_and_run(source: &str) -> (r: CompileResult<Option<i64>>)
    requires
        source@.len() <= MAX_SOURCE_LEN,
    ensures
        match compile_and_run_spec(source@) {
            Ok(v) => r == Ok::<Option<i64>, CompileError>(v),
            Err(e) => r is Err && r->Err_0@ == e,
        },
{
    let instrs = compile(source)?;
    let mut interp = Interpreter::new();
    Ok(interp.run(instrs.as_slice()))
}

} // verus!
