use std::rc::Rc;

use bobtools::basm;
use bobtools::boblc::ast::{ExprKind, ItemKind, Program, StmtKind};
use bobtools::boblc::codegen::Codegen;
use bobtools::boblc::diag::{CompilerCtx, Severity};
use bobtools::boblc::lexer::{Lexer, TokenKind};
use bobtools::boblc::parser::{import_names, Parser};
use bobtools::boblc::rast::{FuncId, ModuleId, RProgram};
use bobtools::boblc::rlower::Resolver;
use bobtools::boblc::source::{SourceFile, Span};
use bobtools::boblc::taclower::Lowerer;
use bobtools::boblc::ty::Ty;

fn ctx(src: &str) -> CompilerCtx {
    CompilerCtx { source: Rc::new(SourceFile::new("t.bobl".to_string(), src.to_string())), diags: vec![] }
}

fn tokens(src: &str) -> (Vec<(String, Span)>, CompilerCtx) {
    let mut lexer = Lexer::new(ctx(src));
    let mut out = Vec::new();
    loop {
        let t = lexer.next_token();
        let done = matches!(t.inner, TokenKind::Eof);
        out.push((format!("{:?}", t.inner), t.span));
        if done {
            break;
        }
    }
    (out, lexer.into_ctx())
}

fn parse(src: &str) -> (Program, CompilerCtx) {
    let mut parser = Parser::new(Lexer::new(ctx(src)));
    let program = parser.parse_items();
    (program, parser.into_ctx())
}

fn resolve(src: &str) -> (RProgram, CompilerCtx) {
    let (program, c) = parse(src);
    assert!(c.diags.is_empty(), "parse errors: {:?}", c.diags.iter().map(|d| d.message.clone()).collect::<Vec<_>>());
    let source = Rc::clone(&c.source);
    let mut resolver = Resolver::new(c);
    resolver.register_module("main", ModuleId(0), &program);
    resolver.register_imports(ModuleId(0), &program);
    resolver.resolve_module(ModuleId(0), source, program);
    let diags = CompilerCtx { source: Rc::clone(&resolver.ctx.source), diags: std::mem::take(&mut resolver.ctx.diags) };
    (resolver.into_program(), diags)
}

#[test]
fn source_positions_and_lines() {
    let f = SourceFile::new("f".to_string(), "ab\ncé\n\nx".to_string());
    let p = f.offset_to_position(0);
    assert_eq!((p.line, p.col), (1, 1));
    let p = f.offset_to_position(3);
    assert_eq!((p.line, p.col), (2, 1));
    // `é` takes two bytes; the newline after it starts at byte 6.
    let p = f.offset_to_position(6);
    assert_eq!((p.line, p.col), (2, 3));
    let p = f.offset_to_position(8);
    assert_eq!((p.line, p.col), (4, 1));
    assert_eq!(f.line_text(1), "ab");
    assert_eq!(f.line_text(2), "cé");
    assert_eq!(f.line_text(3), "");
    assert_eq!(f.line_text(4), "x");
}

#[test]
fn lexer_tokens_and_spans() {
    let (toks, c) = tokens("foo::bar <= 42 'x' \"a\\tb\" // c\n /* d */ ;");
    assert!(c.diags.is_empty());
    let expected = vec![
        ("Ident(\"foo\")", 0, 3),
        ("ColonColon", 3, 5),
        ("Ident(\"bar\")", 5, 8),
        ("Le", 9, 11),
        ("IntLit(42)", 12, 14),
        ("CharLit('x')", 15, 18),
        ("StrLit(\"a\\tb\")", 19, 25),
        ("Semicolon", 40, 41),
        ("Eof", 41, 41),
    ];
    let got: Vec<(&str, usize, usize)> = toks.iter().map(|(k, s)| (k.as_str(), s.lo, s.hi)).collect();
    assert_eq!(got, expected);
}

#[test]
fn lexer_reports_bad_literals_and_symbols() {
    let (toks, c) = tokens("70000 \"open\n$ /* x");
    let msgs: Vec<&str> = c.diags.iter().map(|d| d.message.as_str()).collect();
    assert_eq!(
        msgs,
        vec![
            "unsigned 16 bit integer overflow",
            "unterminated string literal",
            "unexpected symbol",
            "undelimited multiline comment",
        ]
    );
    assert_eq!(toks[0].0, "IntLit(7000)");
    assert_eq!(toks[0].1, Span { lo: 0, hi: 5 });
    assert_eq!(toks[1].0, "StrLit(\"open\")");
    assert_eq!(toks[2].0, "Error");
    assert!(c.diags.iter().all(|d| d.severity == Severity::Error));
}

#[test]
fn parser_builds_items() {
    let (program, c) = parse("import lib;\nfunc ext puts(*int);\nfunc main(a: int): int { return a + 1; }");
    assert!(c.diags.is_empty());
    assert_eq!(program.items.len(), 3);
    let names = import_names(&program);
    assert_eq!(names.len(), 1);
    assert_eq!(names[0].inner, "lib");
    match &program.items[1].inner {
        ItemKind::FunctionExternal { name, params, ret } => {
            assert_eq!(name.inner, "puts");
            assert_eq!(params, &vec![Ty::Ptr(Box::new(Ty::Int))]);
            assert_eq!(ret, &Ty::Unit);
        }
        other => panic!("unexpected {other:?}"),
    }
    match &program.items[2].inner {
        ItemKind::FunctionDefined { name, params, ret, body } => {
            assert_eq!(name.inner, "main");
            assert_eq!(params.len(), 1);
            assert_eq!(ret, &Ty::Int);
            match &body.inner {
                StmtKind::Block(stmts) => match &stmts[0].inner {
                    StmtKind::Return(Some(e)) => assert!(matches!(e.inner, ExprKind::Binary { .. })),
                    other => panic!("unexpected {other:?}"),
                },
                other => panic!("unexpected {other:?}"),
            }
        }
        other => panic!("unexpected {other:?}"),
    }
}

#[test]
fn parser_recovers_and_reports() {
    let (program, c) = parse("func main() { let = ; } 42");
    let msgs: Vec<&str> = c.diags.iter().map(|d| d.message.as_str()).collect();
    assert_eq!(msgs, vec!["expected an identifier", "expected an item"]);
    assert_eq!(program.items.len(), 2);
    assert!(matches!(program.items[1].inner, ItemKind::Error));
}

#[test]
fn resolver_reports_unknown_names_and_type_errors() {
    let (_, c) = resolve("func main(): int { let x: int = y; let p: *int = 3; return x; }");
    let msgs: Vec<&str> = c.diags.iter().map(|d| d.message.as_str()).collect();
    assert_eq!(msgs, vec!["unknown name y", "type mismatch in let binding"]);
    let label = c.diags[1].labels[0].message.clone().unwrap();
    assert_eq!(label, "expected *int, found int");
}

#[test]
fn resolver_checks_calls() {
    let (_, c) = resolve("func f(a: int): int { return a; } func main(): int { return f(1, 2) + f(\"s\"); }");
    let msgs: Vec<&str> = c.diags.iter().map(|d| d.message.as_str()).collect();
    assert_eq!(msgs, vec!["incorrect number of arguments", "type mismatch"]);
    assert_eq!(c.diags[1].labels[0].message.clone().unwrap(), "argument 1 has type *int, expected int");
}

#[test]
fn compiles_a_program_to_bassembly_that_assembles() {
    let src = "func ext puts(*int);\n\
               func add(a: int, b: int): int { return a + b; }\n\
               func main(): int {\n\
                   let x: int = add(1, 2);\n\
                   if x == 3 { puts(\"ok\"); } else { puts(\"no\"); }\n\
                   while x > 0 { x = x - 1; }\n\
                   return x;\n\
               }";
    let (rprogram, c) = resolve(src);
    assert!(c.diags.is_empty());
    let mut labels = Vec::new();
    for m in &rprogram.modules {
        for f in &m.functions {
            labels.push((f.id, f.name.clone()));
        }
    }
    assert_eq!(labels.len(), 2);
    // the external function is named by the linker, so its label is its own name
    labels.push((FuncId(0), "puts".to_string()));
    let tac = Lowerer::new(rprogram).lower();
    let text = Codegen::new(labels).generate(&tac);
    assert!(text.starts_with(".global add\nadd:\n"));
    assert!(text.contains(".global main\nmain:\n"));
    assert!(text.contains("__rt_eq"));
    let toks = basm::lexer::lex(&text).expect("bassembly lexes");
    let ast = basm::parser::parse(&toks).expect("bassembly parses");
    assert!(basm::pass1::build_symbols(&ast).is_ok());
}
