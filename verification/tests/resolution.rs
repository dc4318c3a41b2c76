use std::rc::Rc;

use bobtools::boblc::diag::CompilerCtx;
use bobtools::boblc::lexer::Lexer;
use bobtools::boblc::loader::{resolve_modules, LoadedModule};
use bobtools::boblc::parser::Parser;
use bobtools::boblc::rast::{FuncId, ModuleId, RExprKind, RProgram, RStmt};
use bobtools::boblc::rlower::Resolver;
use bobtools::boblc::source::SourceFile;
use bobtools::boblc::ty::Ty;

fn resolve_source(src: &str) -> (RProgram, CompilerCtx) {
    let c = CompilerCtx { source: Rc::new(SourceFile::new("r.bobl".to_string(), src.to_string())), diags: vec![] };
    let mut parser = Parser::new(Lexer::new(c));
    let program = parser.parse_items();
    let c = parser.into_ctx();
    assert!(c.diags.is_empty());
    let source = Rc::clone(&c.source);
    let mut resolver = Resolver::new(c);
    resolver.register_module("main", ModuleId(0), &program);
    resolver.register_imports(ModuleId(0), &program);
    resolver.resolve_module(ModuleId(0), source, program);
    let (p, c) = resolver.into_parts();
    (p, c)
}

#[test]
fn a_call_with_too_many_arguments_is_one_error_node() {
    let (p, c) = resolve_source("func ext f(int): int; func main() { f(1, 2); }");
    assert_eq!(c.diags.len(), 1);
    assert_eq!(c.diags[0].message, "incorrect number of arguments");
    assert_eq!(c.diags[0].labels[0].message.clone().unwrap(), "expected 1 arguments, got 2");
    let main = &p.modules[0].functions[0];
    match &main.body {
        RStmt::Block(stmts) => match &stmts[0] {
            RStmt::Expr(e) => {
                assert!(matches!(e.kind, RExprKind::Error));
                assert_eq!(e.ty, Ty::Unit);
            }
            other => panic!("unexpected statement {:?}", other),
        },
        other => panic!("unexpected body {:?}", other),
    }
}

#[test]
fn a_later_function_of_a_name_takes_its_place_and_number() {
    // a is numbered 0, b 1, the second a 2; the table keeps the later a.
    let (p, c) = resolve_source("func a() { } func ext b(); func a(): int { return 1; }");
    assert!(c.diags.is_empty());
    let fs = &p.modules[0].functions;
    assert_eq!(fs.len(), 2);
    assert_eq!(fs[0].id, FuncId(2));
    assert_eq!(fs[1].id, FuncId(2));
    assert_eq!(fs[0].name, "a");
    assert_eq!(fs[1].ret, Ty::Int);
}

#[test]
fn a_well_typed_call_resolves_to_the_function() {
    let (p, c) = resolve_source("func ext f(int): int; func main(): int { return f(7); }");
    assert!(c.diags.is_empty());
    match &p.modules[0].functions[0].body {
        RStmt::Block(stmts) => match &stmts[0] {
            RStmt::Return(Some(e)) => {
                assert_eq!(e.ty, Ty::Int);
                match &e.kind {
                    RExprKind::Call { callee, args } => {
                        assert!(matches!(callee.kind, RExprKind::Function(FuncId(0))));
                        assert_eq!(args.len(), 1);
                        assert!(matches!(args[0].kind, RExprKind::IntLit(7)));
                    }
                    other => panic!("unexpected expression {:?}", other),
                }
            }
            other => panic!("unexpected statement {:?}", other),
        },
        other => panic!("unexpected body {:?}", other),
    }
}

#[test]
fn modules_resolve_through_their_imports() {
    let parse = |name: &str, src: &str| {
        let c = CompilerCtx { source: Rc::new(SourceFile::new(name.to_string(), src.to_string())), diags: vec![] };
        let mut parser = Parser::new(Lexer::new(c));
        let program = parser.parse_items();
        let c = parser.into_ctx();
        assert!(c.diags.is_empty());
        (c.source, program)
    };
    let (lib_src, lib) = parse("lib.bobl", "func twice(a: int): int { return a + a; }");
    let (main_src, main) = parse("main.bobl", "import lib; func main(): int { return lib::twice(2); }");
    let modules = vec![
        LoadedModule { id: ModuleId(0), name: "main".to_string(), source: Rc::clone(&main_src), program: main },
        LoadedModule { id: ModuleId(1), name: "lib".to_string(), source: lib_src, program: lib },
    ];
    let ctx = CompilerCtx { source: main_src, diags: vec![] };
    let (p, c) = resolve_modules(ctx, modules);
    assert!(c.diags.is_empty());
    assert_eq!(p.modules.len(), 2);
    match &p.modules[0].functions[0].body {
        RStmt::Block(stmts) => match &stmts[0] {
            RStmt::Return(Some(e)) => match &e.kind {
                RExprKind::Call { callee, .. } => assert!(matches!(callee.kind, RExprKind::Function(FuncId(1)))),
                other => panic!("unexpected expression {:?}", other),
            },
            other => panic!("unexpected statement {:?}", other),
        },
        other => panic!("unexpected body {:?}", other),
    }
}

#[test]
fn items_after_a_stray_token_are_still_read() {
    let c = CompilerCtx { source: Rc::new(SourceFile::new("p.bobl".to_string(), "42 import a; func ext f();".to_string())), diags: vec![] };
    let mut parser = Parser::new(Lexer::new(c));
    let program = parser.parse_items();
    let c = parser.into_ctx();
    assert_eq!(program.items.len(), 3);
    assert_eq!(c.diags.len(), 1);
    assert_eq!(c.diags[0].message, "expected an item");
}
