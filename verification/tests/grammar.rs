use std::rc::Rc;

use bobtools::boblc::ast::{AsmItem, AsmOperand, Expr, ExprKind, ItemKind, LValue, Program, Register, Stmt, StmtKind};
use bobtools::boblc::diag::CompilerCtx;
use bobtools::boblc::lexer::Lexer;
use bobtools::boblc::parser::Parser;
use bobtools::boblc::source::{SourceFile, Span};

fn parse(src: &str) -> (Program, Vec<String>) {
    let ctx = CompilerCtx { source: Rc::new(SourceFile::new("g.bobl".to_string(), src.to_string())), diags: vec![] };
    let mut parser = Parser::new(Lexer::new(ctx));
    let program = parser.parse_items();
    let c = parser.into_ctx();
    (program, c.diags.iter().map(|d| d.message.clone()).collect())
}

fn lv(l: &LValue) -> String {
    match l {
        LValue::Var(n) => n.clone(),
        LValue::Deref(e) => format!("*{}", ex(e)),
        LValue::Error => "error".to_string(),
    }
}

fn ex(e: &Expr) -> String {
    match &e.inner {
        ExprKind::IntLit(v) => v.to_string(),
        ExprKind::CharLit(c) => format!("{c:?}"),
        ExprKind::StrLit(s) => format!("{s:?}"),
        ExprKind::LValue(l) => lv(l),
        ExprKind::Ref(l) => format!("&{}", lv(&l.inner)),
        ExprKind::Path(segs) => segs.iter().map(|s| s.inner.clone()).collect::<Vec<_>>().join("::"),
        ExprKind::Binary { left, op, right } => format!("({:?} {} {})", op, ex(left), ex(right)),
        ExprKind::Unary { op, expr } => format!("({:?} {})", op, ex(expr)),
        ExprKind::Assign { lval, expr } => format!("(= {} {})", lv(&lval.inner), ex(expr)),
        ExprKind::Call { callee, params } => {
            format!("(call {}{})", ex(callee), params.iter().map(|p| format!(" {}", ex(p))).collect::<String>())
        }
        ExprKind::Error => "error".to_string(),
    }
}

fn stmt(s: &Stmt) -> String {
    match &s.inner {
        StmtKind::Let { name, ty, val } => format!(
            "(let {}{}{})",
            name.inner,
            if ty.is_some() { " :ty" } else { "" },
            val.as_ref().map(|v| format!(" {}", ex(v))).unwrap_or_default()
        ),
        StmtKind::Block(stmts) => format!("{{{}}}", stmts.iter().map(stmt).collect::<Vec<_>>().join(" ")),
        StmtKind::If { cond, then_branch, else_branch } => format!(
            "(if {} {}{})",
            ex(cond),
            stmt(then_branch),
            else_branch.as_ref().map(|b| format!(" {}", stmt(b))).unwrap_or_default()
        ),
        StmtKind::While { cond, body } => format!("(while {} {})", ex(cond), stmt(body)),
        StmtKind::Expr(e) => ex(e),
        StmtKind::Asm(items) => format!("(asm {})", items.len()),
        StmtKind::Return(e) => format!("(return{})", e.as_ref().map(|v| format!(" {}", ex(v))).unwrap_or_default()),
        StmtKind::Error => "error".to_string(),
    }
}

fn body_of(src: &str) -> (Stmt, Vec<String>) {
    let (mut program, msgs) = parse(src);
    assert_eq!(program.items.len(), 1);
    match program.items.remove(0).inner {
        ItemKind::FunctionDefined { body, .. } => (body, msgs),
        other => panic!("unexpected {other:?}"),
    }
}

#[test]
fn binary_operators_group_by_precedence_then_to_the_left() {
    let (body, msgs) = body_of("func f() { x = 1 + 2 * 3 - 4 < 5 && !y || z; }");
    assert!(msgs.is_empty());
    assert_eq!(stmt(&body), "{(= x (LogOr (LogAnd (Lt (Sub (Add 1 (Mul 2 3)) 4) 5) (LogNot y)) z))}");
}

#[test]
fn assignment_groups_to_the_right() {
    let (body, msgs) = body_of("func f() { a = b = 7; }");
    assert!(msgs.is_empty());
    assert_eq!(stmt(&body), "{(= a (= b 7))}");
}

#[test]
fn calls_paths_references_and_literals() {
    let (body, msgs) = body_of("func f() { g(1, h('c'))(\"s\"); m::n::k(&v, -(2)); }");
    assert!(msgs.is_empty());
    assert_eq!(stmt(&body), "{(call (call g 1 (call h 'c')) \"s\") (call m::n::k &v (Neg 2))}");
}

#[test]
fn a_call_spans_its_callee_and_closing_parenthesis() {
    let (body, _) = body_of("func f() { g(1); }");
    match &body.inner {
        StmtKind::Block(stmts) => match &stmts[0].inner {
            StmtKind::Expr(e) => {
                assert_eq!(e.span, Span { lo: 11, hi: 15 });
                assert_eq!(stmts[0].span, Span { lo: 11, hi: 16 });
            }
            other => panic!("unexpected {other:?}"),
        },
        other => panic!("unexpected {other:?}"),
    }
    assert_eq!(body.span, Span { lo: 9, hi: 18 });
}

#[test]
fn statements_of_every_kind() {
    let (body, msgs) = body_of(
        "func f(): int { let a: int = 1; let b; if a { return; } else { b = a; } while b { b = b - 1; } return b; }",
    );
    assert!(msgs.is_empty());
    assert_eq!(
        stmt(&body),
        "{(let a :ty 1) (let b) (if a {(return)} {(= b a)}) (while b {(= b (Sub b 1))}) (return b)}"
    );
}

#[test]
fn a_place_is_needed_left_of_an_assignment() {
    let (body, msgs) = body_of("func f() { 1 = 2; }");
    assert_eq!(msgs, vec!["expected an l-value"]);
    assert_eq!(stmt(&body), "{error}");
}

#[test]
fn a_missing_semicolon_is_an_error_statement() {
    let (body, msgs) = body_of("func f() { x }");
    assert_eq!(msgs, vec!["expected a semicolon", "expected a closing brace"]);
    assert_eq!(stmt(&body), "{error}");
}

#[test]
fn inline_assembly_items() {
    let (body, msgs) = body_of("func f() { asm { r1 = in(x + 1), add r1 r2 5, r3 = out(*p), r4 = sideways(y) } }");
    assert_eq!(msgs, vec!["expected `in` or `out`"]);
    match &body.inner {
        StmtKind::Block(stmts) => match &stmts[0].inner {
            StmtKind::Asm(items) => {
                assert_eq!(items.len(), 4);
                match &items[0].inner {
                    AsmItem::In { reg, expr } => {
                        assert_eq!(reg.inner, Register::R1);
                        assert_eq!(ex(expr), "(Add x 1)");
                    }
                    other => panic!("unexpected {other:?}"),
                }
                match &items[1].inner {
                    AsmItem::Instr { mnemonic, args } => {
                        assert_eq!(mnemonic.inner, "add");
                        assert_eq!(args.len(), 3);
                        assert!(matches!(args[0].inner, AsmOperand::Reg(Register::R1)));
                        assert!(matches!(args[1].inner, AsmOperand::Reg(Register::R2)));
                        assert!(matches!(args[2].inner, AsmOperand::Imm(5)));
                    }
                    other => panic!("unexpected {other:?}"),
                }
                match &items[2].inner {
                    AsmItem::Out { reg, lval } => {
                        assert_eq!(reg.inner, Register::R3);
                        assert_eq!(lv(lval), "*p");
                    }
                    other => panic!("unexpected {other:?}"),
                }
                assert!(matches!(items[3].inner, AsmItem::Error));
            }
            other => panic!("unexpected {other:?}"),
        },
        other => panic!("unexpected {other:?}"),
    }
}

#[test]
fn an_operand_that_is_no_register_or_number_is_an_error() {
    let (_, msgs) = body_of("func f() { asm { mov r9 } }");
    assert_eq!(msgs, vec!["expected a register or an immediate"]);
}

#[test]
fn unicode_spaces_separate_tokens() {
    let (program, msgs) = parse("func\u{3000}f()\u{2003}{\u{A0}return;\u{85}}");
    assert!(msgs.is_empty());
    assert_eq!(program.items.len(), 1);
    match &program.items[0].inner {
        ItemKind::FunctionDefined { name, body, .. } => {
            assert_eq!(name.inner, "f");
            assert_eq!(stmt(body), "{(return)}");
        }
        other => panic!("unexpected {other:?}"),
    }
}
