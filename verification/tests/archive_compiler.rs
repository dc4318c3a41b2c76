use bobtools::boblc::archive::lex::lex;
use bobtools::boblc::archive::literalpool::LiteralPool;
use bobtools::boblc::archive::opt::arith_imm::optimize;
use bobtools::boblc::archive::parse::{parse, FunctionDecl, ParseError, Program, Word};
use bobtools::boblc::archive::resolve_links::resolve_links;

fn program(src: &str) -> Program {
    parse(&lex(src).unwrap()).unwrap()
}

fn body(p: &Program, k: usize) -> &Vec<Word> {
    match &p.functions[k] {
        FunctionDecl::Defined { body, .. } => body,
        FunctionDecl::External { .. } => panic!("external"),
    }
}

#[test]
fn pool_interns_once_and_numbers_labels() {
    let mut pool = LiteralPool::new();
    assert!(pool.is_empty());
    assert_eq!(pool.intern_string("hi"), "__lstr0");
    assert_eq!(pool.intern_string("hi"), "__lstr0");
    assert_eq!(pool.intern_int(-3), "__lint1");
    assert_eq!(pool.intern_func("main"), "__lfunc2");
    assert_eq!(pool.len(), 3);
    assert_eq!(pool.size(), 5);
    let mut out = String::from("x\n");
    pool.emit_data_section(&mut out);
    assert_eq!(out, "x\n__lstr0: .string \"hi\"\n__lint1: .fill -3\n__lfunc2: .fill main\n");
    pool.clear();
    assert!(pool.is_empty());
    assert_eq!(pool.intern_int(-3), "__lint3");
}

#[test]
fn pool_escapes_strings() {
    let mut pool = LiteralPool::new();
    pool.intern_string("a\"b\\");
    let mut out = String::new();
    pool.emit_data_section(&mut out);
    assert_eq!(out, "__lstr0: .string \"a\\\"b\\\\\"\n");
}

#[test]
fn parse_functions_and_includes() {
    let p = program("include \"lib.arc\" func ext puts func main 1 \"s\" add -2 foo trap1 end");
    assert_eq!(p.includes, vec!["lib.arc".to_string()]);
    assert!(matches!(&p.functions[0], FunctionDecl::External { name } if name == "puts"));
    let b = body(&p, 1);
    assert_eq!(b.len(), 6);
    assert!(matches!(b[0], Word::PushInt(1)));
    assert!(matches!(&b[1], Word::PushString(s) if s == "s"));
    assert!(matches!(b[2], Word::Add));
    assert!(matches!(b[3], Word::PushInt(-2)));
    assert!(matches!(&b[4], Word::Call(s) if s == "foo"));
    assert!(matches!(b[5], Word::Trap1));
}

#[test]
fn archive_parse_errors() {
    assert!(matches!(
        parse(&lex("main").unwrap()),
        Err(ParseError::UnexpectedToken { expected: Some("func or include"), .. })
    ));
    assert!(matches!(
        parse(&lex("func main 1 if 2 end").unwrap()),
        Err(ParseError::UnexpectedEOF { expected: "end", last_line: 1 })
    ));
    assert!(matches!(
        parse(&lex("include foo").unwrap()),
        Err(ParseError::UnexpectedToken { expected: Some("a string"), .. })
    ));
}

#[test]
fn links_control_words() {
    let mut p = program("func f 1 if 2 else 3 end while 1 do 4 end end");
    resolve_links(&mut p).unwrap();
    let b = body(&p, 0);
    assert!(matches!(b[1], Word::If(4)));
    assert!(matches!(b[3], Word::Else(6)));
    assert!(matches!(b[5], Word::End(None)));
    assert!(matches!(b[8], Word::Do(11)));
    assert!(matches!(b[10], Word::End(Some(6))));
}

#[test]
fn unmatched_control_word_is_an_error() {
    let mut p = program("func g end func f else end");
    match resolve_links(&mut p) {
        Err((name, i)) => {
            assert_eq!(name, "f");
            assert_eq!(i, 0);
        }
        Ok(()) => panic!("should fail"),
    }
    let mut p = program("func f while end");
    assert!(matches!(resolve_links(&mut p), Err((_, 1))));
}

#[test]
fn folds_constants_into_arithmetic() {
    let mut p = program("func f 5 add \"s\" and dup not end");
    assert!(optimize(&mut p));
    let b = body(&p, 0);
    assert_eq!(b.len(), 4);
    assert!(matches!(b[0], Word::AddInt(5)));
    assert!(matches!(&b[1], Word::AndStr(s) if s == "s"));
    assert!(matches!(b[2], Word::Dup));
    assert!(matches!(b[3], Word::Not));
    assert!(!optimize(&mut p));
}

#[test]
fn generates_bassembly_for_a_function() {
    let p = program("func ext puts func main 1 trap1 end");
    let text = bobtools::boblc::archive::codegen::generate_bassembly(p);
    let expected = ".global main\nmain:\n\tstr r7, r4, 0\n\tadd r4, 1\n\
__main_w0:                 ;;; 1 ;;;\n\tld r0, __lint0\n\tstr r0, r6, 0\n\tadd r6, 1\n\
__main_w1:                 ;;; trap1 ;;;\n\tadd r6, -1\n\tldr r0, r6, 0\n\ttrap 1\n\
br __main_w2\n__lint0: .fill 1\n__main_w2:\n\tadd r4, -1\n\tldr r7, r4, 0\n\tret\n";
    assert_eq!(text, expected);
}

#[test]
fn generated_bassembly_assembles() {
    let mut p = program("func main \"hi\\t\" 3 if 1 else 2 end swap drop trap2 end");
    resolve_links(&mut p).unwrap();
    let text = bobtools::boblc::archive::codegen::generate_bassembly(p);
    let tokens = bobtools::basm::lexer::lex(&text).unwrap();
    let lines = bobtools::basm::parser::parse(&tokens).unwrap();
    let layout = bobtools::basm::pass1::build_symbols(&lines).unwrap();
    assert!(layout.symbols.iter().any(|s| s.name == "main"));
    assert!(text.contains(";;; \"hi\\\\t\" ;;;"));
    assert!(text.contains("__lstr0: .string \"hi\t\""));
}
