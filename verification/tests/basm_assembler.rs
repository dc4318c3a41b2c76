use bobtools::basm::lexer::{lex, LexError, Token};
use bobtools::basm::parser::{parse, LineContent, Operand, ParseErrorKind, ParsedInstr, parse_lowered_instr};
use bobtools::basm::pass1::{build_symbols, SymbolError};
use bobtools::basm::pass2::generate_bobject;
use bobtools::bobj::bobject::{Binding, RelocationKind};

fn values(src: &str) -> Vec<Token> {
    lex(src).expect("lexes").into_iter().map(|t| t.value).collect()
}

#[test]
fn lex_instruction_line_with_comment() {
    let toks = values("ADD R1, r2, 5 ; trailing comment\n");
    assert_eq!(
        toks,
        vec![
            Token::Word("ADD".to_string()),
            Token::Register(1),
            Token::Comma,
            Token::Register(2),
            Token::Comma,
            Token::Immediate(5),
            Token::Newline,
        ]
    );
}

#[test]
fn lex_tracks_lines() {
    let toks = lex("nop\n\nret").expect("lexes");
    let lines: Vec<usize> = toks.iter().map(|t| t.line).collect();
    assert_eq!(lines, vec![1, 1, 2, 3]);
}

#[test]
fn lex_directive_is_lowercased() {
    assert_eq!(values(".FILL 0x1F"), vec![Token::Directive("fill".to_string()), Token::Immediate(31)]);
}

#[test]
fn lex_numbers() {
    assert_eq!(values("-0x10"), vec![Token::Immediate(-16)]);
    assert_eq!(values("-12"), vec![Token::Immediate(-12)]);
    assert_eq!(values("1_000"), vec![Token::Immediate(1000)]);
    assert_eq!(values("0"), vec![Token::Immediate(0)]);
}

#[test]
fn lex_rejects_bad_numbers() {
    match lex("12ab") {
        Err(LexError::InvalidNumber { text, line }) => {
            assert_eq!(text, "12ab");
            assert_eq!(line, 1);
        }
        other => panic!("unexpected {:?}", other),
    }
    match lex("0X10") {
        Err(LexError::InvalidNumber { text, .. }) => assert_eq!(text, "0X10"),
        other => panic!("unexpected {:?}", other),
    }
    assert!(matches!(lex("99999999999999999999"), Err(LexError::InvalidNumber { .. })));
}

#[test]
fn lex_strings_and_escapes() {
    assert_eq!(values("\"a\\nb\\\"c\""), vec![Token::StringLit("a\nb\"c".to_string())]);
    assert!(matches!(lex("\"open\nx\""), Err(LexError::UnterminatedString { line: 1 })));
}

#[test]
fn lex_unexpected_char() {
    assert!(matches!(lex("nop\n@"), Err(LexError::UnexpectedChar { ch: '@', line: 2 })));
}

#[test]
fn lex_registers_and_words() {
    assert_eq!(
        values("r7 r8 rx _x"),
        vec![
            Token::Register(7),
            Token::Word("r8".to_string()),
            Token::Word("rx".to_string()),
            Token::Word("_x".to_string()),
        ]
    );
}

#[test]
fn parse_label_and_branch() {
    let lines = parse(&lex("loop: add r1, r1, -1\n  brnz loop\n").unwrap()).unwrap();
    assert_eq!(lines.len(), 2);
    assert_eq!(lines[0].label.as_deref(), Some("loop"));
    assert!(matches!(
        lines[0].content,
        Some(LineContent::Instr(ParsedInstr::AddRI { dst: 1, src1: 1, imm: -1 }))
    ));
    match &lines[1].content {
        Some(LineContent::Instr(ParsedInstr::Br { n, z, p, target: Operand::Label(l) })) => {
            assert!(*n && *z && !*p);
            assert_eq!(l, "loop");
        }
        other => panic!("unexpected {:?}", other),
    }
    assert_eq!(lines[1].line, 2);
}

#[test]
fn parse_uppercase_mnemonic() {
    let lines = parse(&lex("ADD r1, r2, r3").unwrap()).unwrap();
    assert!(matches!(
        lines[0].content,
        Some(LineContent::Instr(ParsedInstr::AddRR { dst: 1, src1: 2, src2: 3 }))
    ));
}

#[test]
fn parse_errors() {
    let e = parse(&lex("foo r1").unwrap()).unwrap_err();
    assert!(matches!(e.kind, ParseErrorKind::UnknownMnemonic(ref m) if m == "foo"));
    let e = parse(&lex("\n\nAdd r1").unwrap()).unwrap_err();
    assert_eq!(e.line, 3);
    assert!(matches!(e.kind, ParseErrorKind::WrongOperandCount { ref mnemonic, got: 1 } if mnemonic == "Add"));
    let e = parse(&lex(".fill 1, 2").unwrap()).unwrap_err();
    assert!(matches!(e.kind, ParseErrorKind::TrailingTokens));
    let e = parse(&lex("add r1, r2, there").unwrap()).unwrap_err();
    assert!(matches!(e.kind, ParseErrorKind::LabelNotAllowedHere));
    let e = parse(&lex("ldr r1, r2, there").unwrap()).unwrap_err();
    assert!(matches!(e.kind, ParseErrorKind::ExpectedImmediate));
    let e = parse(&lex(".bogus 1").unwrap()).unwrap_err();
    assert!(matches!(e.kind, ParseErrorKind::UnknownDirective(ref d) if d == "bogus"));
}

#[test]
fn parse_lowered_instr_takes_the_lowered_mnemonic() {
    let toks = lex("r3").unwrap();
    let i = parse_lowered_instr("jmp", "JMP", &toks, 4).unwrap();
    assert!(matches!(i, ParsedInstr::Jmp { src: 3 }));
    let e = parse_lowered_instr("jmp", "JMP", &[], 4).unwrap_err();
    assert!(matches!(e.kind, ParseErrorKind::WrongOperandCount { ref mnemonic, got: 0 } if mnemonic == "JMP"));
}

#[test]
fn layout_offsets_and_globals() {
    let lines = parse(&lex(".global main\nmain: nop\n.string \"hi\"\nend: ret\n").unwrap()).unwrap();
    let layout = build_symbols(&lines).unwrap();
    assert_eq!(layout.offsets, vec![0, 0, 1, 4]);
    assert_eq!(layout.symbols.len(), 2);
    assert_eq!(layout.symbols[0].name, "main");
    assert_eq!(layout.symbols[0].binding, Binding::Global);
    assert_eq!(layout.symbols[1].name, "end");
    assert_eq!(layout.symbols[1].offset, 4);
    assert_eq!(layout.symbols[1].binding, Binding::Local);
}

#[test]
fn layout_errors() {
    let lines = parse(&lex("a: nop\na: nop\n").unwrap()).unwrap();
    assert!(matches!(
        build_symbols(&lines),
        Err(SymbolError::DuplicateLabel { ref name, first_line: 1, dup_line: 2 }) if name == "a"
    ));
    let lines = parse(&lex(".global nowhere\n").unwrap()).unwrap();
    assert!(matches!(build_symbols(&lines), Err(SymbolError::UndefinedGlobal { line: 1, .. })));
}

#[test]
fn assemble_words_and_relocations() {
    let lines = parse(&lex("start: add r1, r2, r3\n ld r0, data\n trap 0x25\ndata: .fill 7\n").unwrap()).unwrap();
    let layout = build_symbols(&lines).unwrap();
    let obj = generate_bobject(lines, layout);
    assert_eq!(obj.words, vec![0x1226, 0x4000, 0xF000 | (0x25 << 8), 7]);
    assert_eq!(obj.relocations.len(), 1);
    assert_eq!(obj.relocations[0].site, 1);
    assert_eq!(obj.relocations[0].kind, RelocationKind::PcRel9);
    assert_eq!(obj.relocations[0].name, "data");
}

#[test]
fn a_label_operand_decodes_as_immediate_zero() {
    let lines = parse(&lex(" ld r3, far\n jsr far\nfar: nop\n").unwrap()).unwrap();
    let layout = build_symbols(&lines).unwrap();
    let obj = generate_bobject(lines, layout);
    assert!(matches!(bobtools::bob16::inst::Instruction::from(obj.words[0]), bobtools::bob16::inst::Instruction::Ld { dst: 3, imm: 0 }));
    assert!(matches!(bobtools::bob16::inst::Instruction::from(obj.words[1]), bobtools::bob16::inst::Instruction::Jsr { imm: 0 }));
}
