use language_parser::ast::{BinOp as AstBinOp, Expr, Stmt, Type};
use language_parser::error::{CompileError, Phase};
use language_parser::interpreter::Interpreter;
use language_parser::phases::codegen::CodeGen;
use language_parser::phases::lexer::Lexer;
use language_parser::phases::parser::Parser;
use language_parser::phases::semantic::TypeChecker;
use language_parser::symbol_table::{Symbol, SymbolTable};
use language_parser::tac::{Addr, BinOp, Instr};
use language_parser::token::{SpannedToken, Token};
use language_parser::{compile, compile_and_run};

fn tokens_of(src: &str) -> Vec<Token> {
    Lexer::tokenize(src).into_iter().map(|st| st.token).collect()
}

fn listing(src: &str) -> Vec<String> {
    compile(src).unwrap().iter().map(|i| i.display()).collect()
}

fn error_of(src: &str) -> CompileError {
    match compile_and_run(src) {
        Err(e) => e,
        Ok(v) => panic!("expected an error, got {:?}", v),
    }
}

// ---------------------------------------------------------------- lexer

#[test]
fn lexer_positions_of_simple_let() {
    let toks: Vec<SpannedToken> = Lexer::tokenize("let x = 42;");
    let kinds: Vec<String> = toks.iter().map(|t| format!("{:?}", t.token)).collect();
    assert_eq!(kinds, vec!["KwLet", "Ident(\"x\")", "Assign", "Int(42)", "Semicolon", "Eof"]);
    let pos: Vec<(usize, usize)> = toks.iter().map(|t| (t.line, t.col)).collect();
    assert_eq!(pos, vec![(1, 1), (1, 5), (1, 7), (1, 9), (1, 11), (1, 12)]);
}

#[test]
fn lexer_positions_across_lines() {
    let toks = Lexer::tokenize("a\n  b");
    let pos: Vec<(usize, usize)> = toks.iter().map(|t| (t.line, t.col)).collect();
    assert_eq!(pos, vec![(1, 1), (2, 3), (2, 4)]);
    assert!(matches!(&toks[1].token, Token::Ident(s) if s == "b"));
}

#[test]
fn lexer_empty_source_is_only_eof() {
    let toks = Lexer::tokenize("");
    assert_eq!(toks.len(), 1);
    assert!(matches!(toks[0].token, Token::Eof));
    assert_eq!((toks[0].line, toks[0].col), (1, 1));
}

#[test]
fn lexer_next_token_steps_through_input() {
    let mut lx = Lexer::new("x+1");
    assert!(matches!(lx.next_token().token, Token::Ident(ref s) if s == "x"));
    assert!(matches!(lx.next_token().token, Token::Plus));
    assert!(matches!(lx.next_token().token, Token::Int(1)));
    assert!(matches!(lx.next_token().token, Token::Eof));
    assert!(matches!(lx.next_token().token, Token::Eof));
}

#[test]
fn lexer_keywords_and_identifiers() {
    let toks = tokens_of("let fn if else return while true false lets _x y2");
    let kinds: Vec<String> = toks.iter().map(|t| format!("{:?}", t)).collect();
    assert_eq!(
        kinds,
        vec![
            "KwLet", "KwFn", "KwIf", "KwElse", "KwReturn", "KwWhile", "KwTrue", "KwFalse",
            "Ident(\"lets\")", "Ident(\"_x\")", "Ident(\"y2\")", "Eof"
        ]
    );
}

#[test]
fn lexer_unicode_identifier() {
    let toks = tokens_of("été");
    assert!(matches!(&toks[0], Token::Ident(s) if s == "été"));
}

#[test]
fn lexer_operators() {
    let toks = tokens_of("-> == != <= >= && || ! = < > + - * / % ( ) { } [ ] ; : , .");
    let kinds: Vec<String> = toks.iter().map(|t| format!("{:?}", t)).collect();
    assert_eq!(
        kinds,
        vec![
            "Arrow", "Eq", "NotEq", "Le", "Ge", "And", "Or", "Not", "Assign", "Lt", "Gt", "Plus",
            "Minus", "Star", "Slash", "Percent", "LParen", "RParen", "LBrace", "RBrace",
            "LBracket", "RBracket", "Semicolon", "Colon", "Comma", "Dot", "Eof"
        ]
    );
}

#[test]
fn lexer_single_ampersand_and_bar_are_errors() {
    let toks = tokens_of("& |");
    assert!(matches!(&toks[0], Token::Error(m) if m == "unexpected '&'"));
    assert!(matches!(&toks[1], Token::Error(m) if m == "unexpected '|'"));
    assert!(matches!(toks[2], Token::Eof));
}

#[test]
fn lexer_invalid_character() {
    let toks = tokens_of("@");
    assert!(matches!(&toks[0], Token::Error(m) if m == "invalid character: '@'"));
}

#[test]
fn lexer_hex_literals() {
    assert!(matches!(tokens_of("0x1F")[0], Token::Int(31)));
    assert!(matches!(tokens_of("0xff")[0], Token::Int(255)));
    assert!(matches!(tokens_of("0x7FFFFFFFFFFFFFFF")[0], Token::Int(i64::MAX)));
    assert!(matches!(&tokens_of("0x")[0], Token::Error(m) if m == "invalid hex: 0x"));
    assert!(matches!(&tokens_of("0x8000000000000000")[0],
        Token::Error(m) if m == "invalid hex: 0x8000000000000000"));
}

#[test]
fn lexer_decimal_overflow_is_an_error() {
    assert!(matches!(tokens_of("9223372036854775807")[0], Token::Int(i64::MAX)));
    assert!(matches!(&tokens_of("9223372036854775808")[0],
        Token::Error(m) if m == "invalid int: 9223372036854775808"));
}

#[test]
fn lexer_float_literals() {
    let toks = tokens_of("3.14 1. 2.5.6");
    assert!(matches!(&toks[0], Token::Float(s) if s == "3.14"));
    assert!(matches!(toks[1], Token::Int(1)));
    assert!(matches!(toks[2], Token::Dot));
    assert!(matches!(&toks[3], Token::Float(s) if s == "2.5"));
    assert!(matches!(toks[4], Token::Dot));
    assert!(matches!(toks[5], Token::Int(6)));
}

#[test]
fn lexer_string_escapes() {
    let toks = tokens_of(r#""a\nb\t\"\\\q""#);
    assert!(matches!(&toks[0], Token::StringLit(s) if s == "a\nb\t\"\\\\q"));
}

#[test]
fn lexer_unterminated_strings() {
    assert!(matches!(&tokens_of("\"abc")[0], Token::Error(m) if m == "unterminated string: \"abc\""));
    assert!(matches!(&tokens_of("\"ab\ncd\"")[0], Token::Error(m) if m == "unterminated string: \"ab\""));
    assert!(matches!(&tokens_of("\"ab\\")[0], Token::Error(m) if m == "unterminated string"));
}

#[test]
fn lexer_comments_are_skipped() {
    let toks = Lexer::tokenize("// note\n42 /* block\n */ 7");
    assert!(matches!(toks[0].token, Token::Int(42)));
    assert_eq!((toks[0].line, toks[0].col), (1, 1));
    assert!(matches!(toks[1].token, Token::Int(7)));
    assert_eq!((toks[1].line, toks[1].col), (2, 4));
    assert!(matches!(toks[2].token, Token::Eof));
    let only = Lexer::tokenize("// nothing else");
    assert_eq!(only.len(), 1);
    assert!(matches!(only[0].token, Token::Eof));
}

#[test]
fn lexer_unterminated_block_comment() {
    let toks = tokens_of("/* open");
    assert!(matches!(&toks[0], Token::Error(m) if m == "unterminated block comment"));
    assert!(matches!(toks[1], Token::Eof));
}

// ---------------------------------------------------------------- parser

#[test]
fn parser_builds_precedence_tree() {
    let mut p = Parser::new(tokens_of("let x: i32 = 1 + 2 * 3;"));
    let stmts = p.parse().unwrap();
    assert_eq!(stmts.len(), 1);
    match &stmts[0] {
        Stmt::Let { name, ty, init } => {
            assert_eq!(name, "x");
            assert_eq!(*ty, Some(Type::Int));
            match init {
                Expr::BinOp { op: AstBinOp::Add, left, right } => {
                    assert!(matches!(**left, Expr::IntLit(1)));
                    assert!(matches!(**right, Expr::BinOp { op: AstBinOp::Mul, .. }));
                }
                other => panic!("unexpected {:?}", other),
            }
        }
        other => panic!("unexpected {:?}", other),
    }
}

#[test]
fn parser_unary_operators() {
    let mut p = Parser::new(tokens_of("-x; !b;"));
    let stmts = p.parse().unwrap();
    match &stmts[0] {
        Stmt::ExprStmt(Expr::BinOp { op: AstBinOp::Sub, left, right }) => {
            assert!(matches!(**left, Expr::IntLit(0)));
            assert!(matches!(&**right, Expr::Var(n) if n == "x"));
        }
        other => panic!("unexpected {:?}", other),
    }
    match &stmts[1] {
        Stmt::ExprStmt(Expr::BinOp { op: AstBinOp::Eq, left, right }) => {
            assert!(matches!(&**left, Expr::Var(n) if n == "b"));
            assert!(matches!(**right, Expr::BoolLit(false)));
        }
        other => panic!("unexpected {:?}", other),
    }
}

#[test]
fn parser_calls_and_type_annotations() {
    let mut p = Parser::new(tokens_of("f(1, 2); let s: str = \"a\"; let q: thing = 0;"));
    let stmts = p.parse().unwrap();
    assert!(matches!(&stmts[0], Stmt::ExprStmt(Expr::Call { func, args }) if func == "f" && args.len() == 2));
    assert!(matches!(&stmts[1], Stmt::Let { ty: Some(Type::Str), .. }));
    assert!(matches!(&stmts[2], Stmt::Let { ty: Some(Type::Unknown), .. }));
}

#[test]
fn parser_statement_forms() {
    let mut p = Parser::new(tokens_of("x = 1; { } while c { } if c { } else { } return 2;"));
    let stmts = p.parse().unwrap();
    assert_eq!(stmts.len(), 5);
    assert!(matches!(&stmts[0], Stmt::Assign { name, .. } if name == "x"));
    assert!(matches!(&stmts[1], Stmt::Block(b) if b.is_empty()));
    assert!(matches!(&stmts[2], Stmt::While { .. }));
    assert!(matches!(&stmts[3], Stmt::If { else_body: Some(_), .. }));
    assert!(matches!(&stmts[4], Stmt::Return(Expr::IntLit(2))));
}

#[test]
fn parser_if_expression_yields_placeholders() {
    let mut p = Parser::new(tokens_of("let v = if c { 5; } else { 6; };"));
    let stmts = p.parse().unwrap();
    match &stmts[0] {
        Stmt::Let { init: Expr::If { then_, else_: Some(e), .. }, .. } => {
            assert!(matches!(**then_, Expr::IntLit(0)));
            assert!(matches!(**e, Expr::IntLit(0)));
        }
        other => panic!("unexpected {:?}", other),
    }
}

#[test]
fn syntax_error_missing_identifier_after_let() {
    let e = error_of("let = 5;");
    assert_eq!(e.phase, Phase::Syntax);
    assert_eq!(e.message, "Expected identifier after 'let'");
    assert_eq!((e.line, e.col), (0, 0));
}

#[test]
fn syntax_error_expected_token() {
    assert_eq!(error_of("let x 5;").message, "Expected Assign, found Int(5)");
    assert_eq!(error_of("return 1").message, "Expected Semicolon, found Eof");
    assert_eq!(error_of("while 1 return 2;").message, "Expected LBrace, found KwReturn");
}

#[test]
fn syntax_error_unexpected_token() {
    assert_eq!(error_of("let x = ;").message, "Unexpected token: Semicolon");
    assert_eq!(
        error_of("let x = @;").message,
        "Unexpected token: Error(\"invalid character: '@'\")"
    );
    assert_eq!(error_of("let x = \"a\\\"b\" + ;").message, "Unexpected token: Semicolon");
    assert_eq!(error_of("let y = \"q\" \"r\";").message, "Expected Semicolon, found StringLit(\"r\")");
}

#[test]
fn syntax_error_expected_type() {
    assert_eq!(error_of("let x: 5 = 1;").message, "Expected type");
}

#[test]
fn syntax_error_call_of_non_identifier() {
    assert_eq!(error_of("let x = (1)(2);").message, "Cannot call non-identifier");
}

// ---------------------------------------------------------------- semantic

#[test]
fn semantic_undefined_variable() {
    let e = error_of("x = 1;");
    assert_eq!(e.phase, Phase::Semantic);
    assert_eq!(e.message, "Semantic errors: Undefined variable: 'x'");
}

#[test]
fn semantic_errors_are_joined() {
    let e = error_of("x = 1; y = 2;");
    assert_eq!(e.message, "Semantic errors: Undefined variable: 'x'; Undefined variable: 'y'");
}

#[test]
fn semantic_type_mismatches() {
    assert_eq!(
        error_of("let x: bool = 1;").message,
        "Semantic errors: Type mismatch for 'x': expected Bool, found Int"
    );
    assert_eq!(
        error_of("let x = 1; x = true;").message,
        "Semantic errors: Type mismatch in assignment to 'x': Int = Bool"
    );
}

#[test]
fn semantic_operator_errors() {
    assert_eq!(
        error_of("let x = 1 + true;").message,
        "Semantic errors: Arithmetic operator requires numbers, got Int and Bool"
    );
    assert_eq!(
        error_of("let b = 1 == true;").message,
        "Semantic errors: Comparison types don't match: Int vs Bool"
    );
    assert_eq!(
        error_of("let b = 1 && 2;").message,
        "Semantic errors: Logical operators require bool, got Int and Int"
    );
}

#[test]
fn semantic_condition_errors() {
    assert_eq!(
        error_of("while \"s\" { }").message,
        "Semantic errors: While condition must be bool, found Str"
    );
    assert_eq!(
        error_of("if 1.5 { }").message,
        "Semantic errors: If condition must be bool, found Float"
    );
    assert_eq!(
        error_of("let v = if true { } else { }; let w = if \"s\" { };").message,
        "Semantic errors: If condition must be bool, found Str"
    );
}

#[test]
fn semantic_block_scope_ends() {
    let e = error_of("{ let a = 1; } a = 2;");
    assert_eq!(e.message, "Semantic errors: Undefined variable: 'a'");
}

#[test]
fn semantic_float_arithmetic_is_float() {
    assert_eq!(
        error_of("let f: i32 = 1 + 2.5;").message,
        "Semantic errors: Type mismatch for 'f': expected Int, found Float"
    );
}

#[test]
fn type_checker_direct() {
    let mut p = Parser::new(tokens_of("let a = 1; a = a + 2;"));
    let prog = p.parse().unwrap();
    let mut tc = TypeChecker::new();
    assert!(tc.check_program(&prog).is_ok());
    assert!(!tc.table.has_errors());
    assert_eq!(tc.table.lookup("a").unwrap().ty, Type::Int);
}

// ---------------------------------------------------------------- symbol table

#[test]
fn symbol_table_scopes() {
    let mut t = SymbolTable::new();
    t.declare(Symbol { name: "x".to_string(), ty: Type::Int, mutable: true, defined: true });
    assert!(t.exists_in_current_scope("x"));
    t.push_scope();
    assert!(!t.exists_in_current_scope("x"));
    assert_eq!(t.lookup("x").unwrap().ty, Type::Int);
    t.declare(Symbol { name: "x".to_string(), ty: Type::Bool, mutable: false, defined: true });
    assert_eq!(t.lookup("x").unwrap().ty, Type::Bool);
    t.pop_scope();
    assert_eq!(t.lookup("x").unwrap().ty, Type::Int);
    assert!(t.lookup("y").is_none());
}

#[test]
fn symbol_table_global_scope_stays() {
    let mut t = SymbolTable::new();
    t.pop_scope();
    t.declare(Symbol { name: "g".to_string(), ty: Type::Str, mutable: true, defined: true });
    assert!(t.exists_in_current_scope("g"));
}

#[test]
fn symbol_table_errors() {
    let mut t = SymbolTable::new();
    assert!(!t.has_errors());
    t.error("first".to_string());
    t.error("second".to_string());
    assert!(t.has_errors());
    assert_eq!(t.joined_errors(), "first; second");
}

// ---------------------------------------------------------------- code generation

#[test]
fn codegen_listing_for_arithmetic() {
    assert_eq!(listing("let x = 2 + 3 * 4;"), vec!["  t0 = 3 * 4", "  t1 = 2 + t0", "  x = t1"]);
}

#[test]
fn codegen_listing_for_while() {
    assert_eq!(
        listing("let i = 0; while i < 3 { i = i + 1; }"),
        vec![
            "  i = 0", "L0:", "  t0 = i < 3", "  if t0 goto L1", "  goto L2", "L1:",
            "  t1 = i + 1", "  i = t1", "  goto L0", "L2:"
        ]
    );
}

#[test]
fn codegen_listing_for_if() {
    assert_eq!(
        listing("if true { return 1; }"),
        vec![
            "  if true goto L0", "  goto L1", "L0:", "  return 1", "  goto L2", "L1:",
            "  goto L2", "L2:"
        ]
    );
}

#[test]
fn codegen_literal_forms() {
    assert_eq!(
        listing("let a = 2.75; let b = \"s\"; let c = f(1); let d = false;"),
        vec!["  a = 2", "  b = 0", "  c = t0", "  d = false"]
    );
}

#[test]
fn codegen_if_expression() {
    assert_eq!(
        listing("let v = if true { } else { };"),
        vec![
            "  if true goto L0", "  goto L1", "L0:", "  t0 = 0", "  goto L2", "L1:", "  t0 = 0",
            "  goto L2", "L2:", "  v = t0"
        ]
    );
}

#[test]
fn codegen_direct_counters() {
    let mut p = Parser::new(tokens_of("let x = 1 + 2; while x < 9 { x = x * 2; }"));
    let prog = p.parse().unwrap();
    let mut g = CodeGen::new();
    for s in &prog {
        g.gen_stmt(s);
    }
    assert_eq!(g.temps_used(), 3);
    assert_eq!(g.labels_used(), 3);
    assert_eq!(g.into_instrs().len(), 11);
}

// ---------------------------------------------------------------- three-address code

#[test]
fn addr_display() {
    assert_eq!(Addr::Var("abc".to_string()).display(), "abc");
    assert_eq!(Addr::Temp(3).display(), "t3");
    assert_eq!(Addr::IntLit(-5).display(), "-5");
    assert_eq!(Addr::IntLit(i64::MIN).display(), "-9223372036854775808");
    assert_eq!(Addr::BoolLit(true).display(), "true");
    assert_eq!(Addr::BoolLit(false).display(), "false");
}

#[test]
fn instr_display() {
    let b = Instr::BinOp { dst: Addr::Temp(0), op: BinOp::Le, left: Addr::Var("a".to_string()), right: Addr::IntLit(1) };
    assert_eq!(b.display(), "  t0 = a <= 1");
    let o = Instr::BinOp { dst: Addr::Temp(1), op: BinOp::Or, left: Addr::BoolLit(true), right: Addr::Temp(0) };
    assert_eq!(o.display(), "  t1 = true || t0");
    assert_eq!(Instr::Copy { dst: Addr::Var("x".to_string()), src: Addr::Temp(2) }.display(), "  x = t2");
    assert_eq!(Instr::Goto("L4".to_string()).display(), "  goto L4");
    assert_eq!(Instr::IfGoto { cond: Addr::Temp(0), label: "L1".to_string() }.display(), "  if t0 goto L1");
    assert_eq!(Instr::Label("L9".to_string()).display(), "L9:");
    assert_eq!(Instr::Return(Addr::IntLit(7)).display(), "  return 7");
    assert_eq!(Instr::Halt.display(), "  halt");
}

#[test]
fn compile_error_display() {
    let e = CompileError { phase: Phase::Syntax, line: 3, col: 14, message: "boom".to_string() };
    assert_eq!(e.display_text(), "[Syntax] 3:14 \u{2013} boom");
    let s = CompileError::without_position(Phase::Semantic, "bad".to_string());
    assert_eq!(s.display_text(), "[Semantic] 0:0 \u{2013} bad");
}

// ---------------------------------------------------------------- interpreter

#[test]
fn interpreter_halt_gives_no_value() {
    let code = vec![Instr::Copy { dst: Addr::Var("x".to_string()), src: Addr::IntLit(3) }, Instr::Halt,
        Instr::Return(Addr::Var("x".to_string()))];
    assert_eq!(Interpreter::new().run(&code), None);
}

#[test]
fn interpreter_unknown_label_falls_through() {
    let code = vec![Instr::Goto("nowhere".to_string()), Instr::Return(Addr::IntLit(5))];
    assert_eq!(Interpreter::new().run(&code), Some(5));
}

#[test]
fn interpreter_unwritten_cells_read_zero() {
    let code = vec![Instr::Return(Addr::Var("never".to_string()))];
    assert_eq!(Interpreter::new().run(&code), Some(0));
    let code = vec![Instr::Return(Addr::Temp(7))];
    assert_eq!(Interpreter::new().run(&code), Some(0));
}

#[test]
fn interpreter_literal_destination_is_ignored() {
    let code = vec![
        Instr::Copy { dst: Addr::IntLit(1), src: Addr::IntLit(9) },
        Instr::Return(Addr::BoolLit(true)),
    ];
    assert_eq!(Interpreter::new().run(&code), Some(1));
}

#[test]
fn interpreter_operators() {
    let run_op = |op: BinOp, l: i64, r: i64| -> Option<i64> {
        let code = vec![
            Instr::BinOp { dst: Addr::Temp(0), op, left: Addr::IntLit(l), right: Addr::IntLit(r) },
            Instr::Return(Addr::Temp(0)),
        ];
        Interpreter::new().run(&code)
    };
    assert_eq!(run_op(BinOp::Add, 2, 3), Some(5));
    assert_eq!(run_op(BinOp::Sub, 2, 3), Some(-1));
    assert_eq!(run_op(BinOp::Mul, -4, 3), Some(-12));
    assert_eq!(run_op(BinOp::Div, -7, 2), Some(-3));
    assert_eq!(run_op(BinOp::Mod, -7, 2), Some(-1));
    assert_eq!(run_op(BinOp::Div, 7, 0), Some(0));
    assert_eq!(run_op(BinOp::Mod, 7, 0), Some(0));
    assert_eq!(run_op(BinOp::Eq, 4, 4), Some(1));
    assert_eq!(run_op(BinOp::Ne, 4, 4), Some(0));
    assert_eq!(run_op(BinOp::Lt, 3, 4), Some(1));
    assert_eq!(run_op(BinOp::Gt, 3, 4), Some(0));
    assert_eq!(run_op(BinOp::Le, 4, 4), Some(1));
    assert_eq!(run_op(BinOp::Ge, 3, 4), Some(0));
    assert_eq!(run_op(BinOp::And, 2, 0), Some(0));
    assert_eq!(run_op(BinOp::And, 2, -1), Some(1));
    assert_eq!(run_op(BinOp::Or, 0, 0), Some(0));
    assert_eq!(run_op(BinOp::Or, 0, 5), Some(1));
}

#[test]
fn interpreter_wraps_on_overflow() {
    let run_op = |op: BinOp, l: i64, r: i64| -> Option<i64> {
        let code = vec![
            Instr::BinOp { dst: Addr::Var("r".to_string()), op, left: Addr::IntLit(l), right: Addr::IntLit(r) },
            Instr::Return(Addr::Var("r".to_string())),
        ];
        Interpreter::new().run(&code)
    };
    assert_eq!(run_op(BinOp::Add, i64::MAX, 1), Some(i64::MIN));
    assert_eq!(run_op(BinOp::Sub, i64::MIN, 1), Some(i64::MAX));
    assert_eq!(run_op(BinOp::Mul, i64::MAX, 2), Some(-2));
    assert_eq!(run_op(BinOp::Div, i64::MIN, -1), Some(i64::MIN));
    assert_eq!(run_op(BinOp::Mod, i64::MIN, -1), Some(0));
}

#[test]
fn interpreter_loop_with_labels() {
    let v = |s: &str| Addr::Var(s.to_string());
    let code = vec![
        Instr::Copy { dst: v("n"), src: Addr::IntLit(0) },
        Instr::Label("top".to_string()),
        Instr::BinOp { dst: v("n"), op: BinOp::Add, left: v("n"), right: Addr::IntLit(2) },
        Instr::BinOp { dst: v("c"), op: BinOp::Lt, left: v("n"), right: Addr::IntLit(7) },
        Instr::IfGoto { cond: v("c"), label: "top".to_string() },
        Instr::Return(v("n")),
    ];
    assert_eq!(Interpreter::new().run(&code), Some(8));
}

#[test]
fn interpreter_runs_past_the_end() {
    let code = vec![Instr::Copy { dst: Addr::Var("x".to_string()), src: Addr::IntLit(1) }];
    assert_eq!(Interpreter::new().run(&code), None);
    assert_eq!(Interpreter::new().run(&[]), None);
}

// ---------------------------------------------------------------- whole pipeline

#[test]
fn run_division_by_zero_gives_zero() {
    assert_eq!(compile_and_run("let x = 5 / 0; return x;").unwrap(), Some(0));
    assert_eq!(compile_and_run("let x = 5 % 0; return x;").unwrap(), Some(0));
}

#[test]
fn run_overflow_wraps() {
    assert_eq!(
        compile_and_run("let x = 9223372036854775807 + 1; return x;").unwrap(),
        Some(i64::MIN)
    );
}

#[test]
fn run_negative_division_truncates() {
    assert_eq!(compile_and_run("return -7 / 2;").unwrap(), Some(-3));
    assert_eq!(compile_and_run("return -7 % 2;").unwrap(), Some(-1));
}

#[test]
fn run_booleans_and_comparisons() {
    assert_eq!(compile_and_run("return true;").unwrap(), Some(1));
    assert_eq!(compile_and_run("return !false;").unwrap(), Some(1));
    assert_eq!(compile_and_run("return 3 < 5;").unwrap(), Some(1));
    assert_eq!(compile_and_run("return 3 != 3;").unwrap(), Some(0));
    assert_eq!(compile_and_run("return true && false || true;").unwrap(), Some(1));
}

#[test]
fn run_literals_without_integer_value() {
    assert_eq!(compile_and_run("return 2.75;").unwrap(), Some(2));
    assert_eq!(compile_and_run("return \"hi\";").unwrap(), Some(0));
    assert_eq!(compile_and_run("let x = f(1); return x;").unwrap(), Some(0));
}

#[test]
fn run_hex_literal() {
    assert_eq!(compile_and_run("let x = 0x10 + 1; return x;").unwrap(), Some(17));
}

#[test]
fn run_if_expression_is_zero() {
    assert_eq!(compile_and_run("let x = if true { } else { }; return x;").unwrap(), Some(0));
}

#[test]
fn run_inner_block_shares_memory() {
    assert_eq!(compile_and_run("let x = 1; { let x = 2; } return x;").unwrap(), Some(2));
}

#[test]
fn run_variable_named_like_temporary() {
    assert_eq!(
        compile_and_run("let t0 = 1; let y = (2 * 3) + t0; return y;").unwrap(),
        Some(12)
    );
}

#[test]
fn run_first_return_wins() {
    assert_eq!(compile_and_run("return 1; return 2;").unwrap(), Some(1));
}

#[test]
fn run_if_without_else() {
    assert_eq!(compile_and_run("let x = 1; if x > 5 { x = 9; } return x;").unwrap(), Some(1));
}

#[test]
fn run_comments_in_source() {
    assert_eq!(
        compile_and_run("let x = 4; // four\n/* twice */ return x * 2;").unwrap(),
        Some(8)
    );
}

#[test]
fn run_empty_program() {
    assert_eq!(compile_and_run("").unwrap(), None);
    assert_eq!(compile("").unwrap().len(), 0);
}

// ---------------------------------------------------------------- laws on concrete programs

#[test]
fn law_generated_code_evaluates_branches_in_loop() {
    // x = 3: y = 3; x = 2: y = 2; x = 1: y = 3
    assert_eq!(
        compile_and_run(
            "let x = 3; let y = 0; while x > 0 { if x % 2 == 1 { y = y + x; } else { y = y - 1; } x = x - 1; } return y;"
        )
        .unwrap(),
        Some(3)
    );
}

#[test]
fn law_generated_code_evaluates_if_expression() {
    assert_eq!(compile_and_run("let c = 1; let v = if c > 0 { } else { }; return v + 4;").unwrap(), Some(4));
}

#[test]
fn law_generated_code_evaluates_return_inside_loop() {
    assert_eq!(
        compile_and_run("let i = 0; while true { i = i + 1; if i == 4 { return i * 10; } } return 0;").unwrap(),
        Some(40)
    );
}

#[test]
fn law_labels_defined_once_and_jumps_resolve() {
    let code = compile(
        "let i = 0; while i < 3 { if i == 1 { i = i + 2; } else { i = i + 1; } } let z = if true { } else { };",
    )
    .unwrap();
    let labels: Vec<String> = code
        .iter()
        .filter_map(|ins| match ins {
            Instr::Label(l) => Some(l.clone()),
            _ => None,
        })
        .collect();
    let mut sorted = labels.clone();
    sorted.sort();
    sorted.dedup();
    assert_eq!(sorted.len(), labels.len());
    assert_eq!(labels.len(), 9);
    for ins in &code {
        match ins {
            Instr::Goto(l) | Instr::IfGoto { label: l, .. } => assert!(labels.contains(l)),
            _ => {}
        }
    }
}

// ---------------------------------------------------------------- documented examples

#[test]
fn documented_if_example() {
    assert_eq!(
        compile_and_run("let x = 42; if x > 10 { return x; } else { return 0; }").unwrap(),
        Some(42)
    );
    assert_eq!(
        compile_and_run("let a = 5; if a > 3 { return a; } else { return 0; }").unwrap(),
        Some(5)
    );
}

#[test]
fn documented_while_example() {
    assert_eq!(
        compile_and_run("let x = 42; while x < 100 { x = x + 1; } return x;").unwrap(),
        Some(100)
    );
    assert_eq!(
        compile_and_run("let s = 0; let i = 0; while i < 5 { s = s + i; i = i + 1; } return s;").unwrap(),
        Some(10)
    );
}

#[test]
fn law_write_then_read_and_alias() {
    let code = vec![
        Instr::Copy { dst: Addr::Temp(3), src: Addr::IntLit(7) },
        Instr::Copy { dst: Addr::Var("u".to_string()), src: Addr::IntLit(2) },
        Instr::BinOp { dst: Addr::Temp(4), op: BinOp::Add, left: Addr::Temp(3), right: Addr::Var("u".to_string()) },
        Instr::Return(Addr::Temp(4)),
    ];
    assert_eq!(Interpreter::new().run(&code), Some(9));
    let alias = vec![
        Instr::Copy { dst: Addr::Var("t3".to_string()), src: Addr::IntLit(7) },
        Instr::Return(Addr::Temp(3)),
    ];
    assert_eq!(Interpreter::new().run(&alias), Some(7));
}

#[test]
fn law_gen_stmt_labels_fresh_across_calls() {
    let mut p = Parser::new(tokens_of("let i = 0; while i < 2 { i = i + 1; } if i > 1 { i = 0; }"));
    let prog = p.parse().unwrap();
    let mut g = CodeGen::new();
    for s in &prog {
        g.gen_stmt(s);
    }
    let listing: Vec<String> = g.into_instrs().iter().map(|i| i.display()).collect();
    let labels: Vec<&String> = listing.iter().filter(|l| l.ends_with(':')).collect();
    assert_eq!(labels, vec!["L0:", "L1:", "L2:", "L3:", "L4:", "L5:"]);
}

#[test]
fn law_check_keeps_earlier_errors() {
    let mut p = Parser::new(tokens_of("{ let a = 1; } x = a;"));
    let prog = p.parse().unwrap();
    let mut tc = TypeChecker::new();
    tc.table.error("earlier".to_string());
    let e = tc.check_program(&prog).unwrap_err();
    assert_eq!(e.message, "Semantic errors: earlier; Undefined variable: 'x'");
    assert!(tc.table.lookup("a").is_none());
}

#[test]
fn law_scope_round_trip() {
    let mut t = SymbolTable::new();
    t.declare(Symbol { name: "x".to_string(), ty: Type::Int, mutable: true, defined: true });
    t.push_scope();
    t.declare(Symbol { name: "x".to_string(), ty: Type::Str, mutable: true, defined: true });
    t.declare(Symbol { name: "y".to_string(), ty: Type::Bool, mutable: true, defined: true });
    t.pop_scope();
    assert_eq!(t.lookup("x").unwrap().ty, Type::Int);
    assert!(t.lookup("y").is_none());
    assert!(t.exists_in_current_scope("x"));
    assert!(!t.exists_in_current_scope("y"));
}

#[test]
fn lexer_identifier_classes() {
    let toks = tokens_of("αβ1 x_9 9a");
    assert!(matches!(&toks[0], Token::Ident(s) if s == "αβ1"));
    assert!(matches!(&toks[1], Token::Ident(s) if s == "x_9"));
    assert!(matches!(toks[2], Token::Int(9)));
    assert!(matches!(&toks[3], Token::Ident(s) if s == "a"));
}

#[test]
fn tokens_and_addresses_compare() {
    let toks = Lexer::tokenize("x");
    assert!(toks[1].token == Token::Eof);
    assert!(toks[0].token == Token::Ident("x".to_string()));
    assert!(toks[0].token != Token::Ident("y".to_string()));
    assert_eq!(Addr::Temp(1), Addr::Temp(1));
    assert_ne!(Addr::Var("t1".to_string()), Addr::Temp(1));
    assert_eq!(Addr::IntLit(4), Addr::IntLit(4));
}
