use std::rc::Rc;

use bobtools::boblc::archive::lex::LexError;
use bobtools::boblc::archive::parse::{FunctionDecl, ParseError};
use bobtools::boblc::archive::resolve_includes::{parse_included, IncludeError, IncludeStep, IncludeTracker};
use bobtools::boblc::ast::Program;
use bobtools::boblc::diag::{CompilerCtx, Diag};
use bobtools::boblc::lexer::Lexer;
use bobtools::boblc::loader::{render_diags, resolve_modules, LoadedModule, ModuleLoader, Visit};
use bobtools::boblc::parser::Parser;
use bobtools::boblc::rast::ModuleId;
use bobtools::boblc::source::{SourceFile, Span};

fn parsed(name: &str, src: &str) -> (Rc<SourceFile>, Program, Vec<Diag>) {
    let ctx = CompilerCtx { source: Rc::new(SourceFile::new(name.to_string(), src.to_string())), diags: vec![] };
    let mut parser = Parser::new(Lexer::new(ctx));
    let program = parser.parse_items();
    let ctx = parser.into_ctx();
    (ctx.source, program, ctx.diags)
}

fn root() -> CompilerCtx {
    CompilerCtx { source: Rc::new(SourceFile::new("<root>".to_string(), String::new())), diags: vec![] }
}

#[test]
fn modules_are_numbered_once_and_cycles_refused() {
    let mut loader = ModuleLoader::new();
    assert_eq!(loader.visit("/p/main.bobl".to_string()), Visit::Fresh(ModuleId(0)));
    assert_eq!(loader.visit("/p/lib.bobl".to_string()), Visit::Fresh(ModuleId(1)));
    // lib imports main while main is still loading
    assert_eq!(loader.visit("/p/main.bobl".to_string()), Visit::Known(ModuleId(0)));
    let (source, program, _) = parsed("lib.bobl", "func f(): int { return 1; }");
    loader.finish("/p/lib.bobl", LoadedModule { id: ModuleId(1), name: "lib".to_string(), source, program });
    assert_eq!(loader.visit("/p/lib.bobl".to_string()), Visit::Known(ModuleId(1)));
    loader.abandon("/p/main.bobl");
    let loaded = loader.into_loaded();
    assert_eq!(loaded.len(), 1);
    assert_eq!(loaded[0].name, "lib");
}

#[test]
fn a_file_met_again_is_known_even_while_loading() {
    let mut loader = ModuleLoader::new();
    // a fresh file is met as well as in progress, so meeting it again names it
    assert_eq!(loader.visit("/q/a.bobl".to_string()), Visit::Fresh(ModuleId(0)));
    assert_eq!(loader.visit("/q/a.bobl".to_string()), Visit::Known(ModuleId(0)));
}

#[test]
fn modules_resolve_across_imports() {
    let (lib_src, lib, d1) = parsed("lib.bobl", "func twice(x: int): int { return x + x; }");
    let (main_src, main, d2) = parsed("main.bobl", "import lib;\nfunc main(): int { return lib::twice(2); }");
    assert!(d1.is_empty() && d2.is_empty());
    let modules = vec![
        LoadedModule { id: ModuleId(1), name: "lib".to_string(), source: lib_src, program: lib },
        LoadedModule { id: ModuleId(0), name: "main".to_string(), source: main_src, program: main },
    ];
    let (program, ctx) = resolve_modules(root(), modules);
    assert!(ctx.diags.is_empty());
    assert_eq!(program.modules.len(), 2);
    assert_eq!(program.modules[0].id, ModuleId(1));
    assert_eq!(program.modules[1].id, ModuleId(0));
    assert_eq!(program.modules[1].functions[0].name, "main");
}

#[test]
fn unknown_imports_and_names_are_reported() {
    let (src, main, _) = parsed("main.bobl", "import nowhere;\nfunc main(): int { return nothing; }");
    let modules = vec![LoadedModule { id: ModuleId(0), name: "main".to_string(), source: src, program: main }];
    let (_, ctx) = resolve_modules(root(), modules);
    let msgs: Vec<&str> = ctx.diags.iter().map(|d| d.message.as_str()).collect();
    assert_eq!(msgs, vec!["unknown module `nowhere`", "unknown name nothing"]);
}

#[test]
fn diagnostics_render_in_order_and_report_errors() {
    let file = Rc::new(SourceFile::new("m.bobl".to_string(), "let\n".to_string()));
    let diags = vec![
        Diag::warning(&file, "first".to_string()),
        Diag::new(&file, "second".to_string()).with_label(Span::new(0, 3), true),
    ];
    let mut out = String::new();
    assert!(render_diags(&diags, &mut out));
    let first = out.find(": first\n").unwrap();
    let second = out.find(": second\n").unwrap();
    assert!(first < second);
    assert!(out.contains("[m.bobl:1:1] "));
    let warnings = vec![Diag::warning(&file, "only".to_string())];
    let mut out = "> ".to_string();
    assert!(!render_diags(&warnings, &mut out));
    assert!(out.starts_with("> [m.bobl] "));
}

#[test]
fn includes_are_entered_once_and_cycles_refused() {
    let mut t = IncludeTracker::new();
    assert_eq!(t.check("/a.arc"), IncludeStep::Enter);
    t.enter("/a.arc".to_string());
    assert_eq!(t.check("/a.arc"), IncludeStep::Circular);
    t.leave("/a.arc");
    assert_eq!(t.check("/a.arc"), IncludeStep::Skip);
    assert_eq!(t.check("/b.arc"), IncludeStep::Enter);
}

#[test]
fn included_files_parse_or_name_themselves_in_errors() {
    let p = parse_included("/lib.arc", "func one 1 end").unwrap();
    assert_eq!(p.functions.len(), 1);
    assert!(matches!(&p.functions[0], FunctionDecl::Defined { name, .. } if name == "one"));
    match parse_included("/bad.arc", "func \"open") {
        Err(IncludeError::Lex { path, error: LexError::UnterminatedString { line: 1 } }) => assert_eq!(path, "/bad.arc"),
        _ => panic!("expected a lexing error"),
    }
    match parse_included("/bad2.arc", "nonsense") {
        Err(IncludeError::Parse { path, error: ParseError::UnexpectedToken { .. } }) => assert_eq!(path, "/bad2.arc"),
        _ => panic!("expected a parse error"),
    }
}
