use bobtools::basm::lexer::{lex, LexError};
use bobtools::basm::parser::{parse, ParseError, ParseErrorKind};
use bobtools::basm::pass1::SymbolError;
use bobtools::bl::RelocationOutOfRange;
use bobtools::boblc::archive::lex::LexError as ArchiveLexError;
use bobtools::boblc::archive::lex::Token as ArchiveToken;
use bobtools::boblc::archive::parse::{ParseError as ArchiveParseError, Word};
use bobtools::boblc::archive::resolve_includes::IncludeError;
use bobtools::boblc::op::{BinaryOp, UnaryOp};
use bobtools::boblc::rast::{FuncId, VarId};
use bobtools::boblc::tac::{Label, TacAsmOperand, TacFunction, TacInst, TacProgram, TacRegister, Temp};
use bobtools::bobin::bobinary::BobinaryFile;
use bobtools::bobj::bobject::BobjectFile;

#[test]
fn assembler_errors_name_their_line() {
    assert_eq!(LexError::UnterminatedString { line: 3 }.message(), "line 3: unterminated string literal");
    assert_eq!(
        LexError::InvalidNumber { text: "0xZ".to_string(), line: 7 }.message(),
        "line 7: invalid numeric literal '0xZ'"
    );
    assert_eq!(LexError::UnexpectedChar { ch: '@', line: 1 }.message(), "line 1: unexpected character '@'");
    let e = ParseError { line: 4, kind: ParseErrorKind::WrongOperandCount { mnemonic: "add".to_string(), got: 1 } };
    assert_eq!(e.message(), "line 4: wrong number of operands for 'add' (got 1)");
    let e = ParseError { line: 2, kind: ParseErrorKind::ExpectedRegister };
    assert_eq!(e.message(), "line 2: expected a register (r0-r7)");
    let e = ParseError { line: 9, kind: ParseErrorKind::UnknownDirective("blk".to_string()) };
    assert_eq!(e.message(), "line 9: unknown directive '.blk'");
}

#[test]
fn assembler_errors_from_real_input() {
    let err = lex("add r0, \"open").unwrap_err();
    assert_eq!(err.message(), "line 1: unterminated string literal");
    let tokens = lex("frob r0\n").unwrap();
    let err = parse(&tokens).unwrap_err();
    assert_eq!(err.message(), "line 1: unknown mnemonic 'frob'");
}

#[test]
fn symbol_errors_name_their_labels() {
    let e = SymbolError::DuplicateLabel { name: "x".to_string(), first_line: 1, dup_line: 5 };
    assert_eq!(e.message(), "line 5: label 'x' already defined on line 1");
    let e = SymbolError::UndefinedGlobal { name: "main".to_string(), line: 2 };
    assert_eq!(e.message(), "line 2: .global 'main' refers to a label that is never defined");
    assert_eq!(SymbolError::ProgramTooLarge { words: 70000 }.message(), "program is 70000 words, but the maximum is 65536");
}

#[test]
fn decoding_errors_show_magic_bytes() {
    let err = BobjectFile::from_bytes(b"BOBX").unwrap_err();
    assert_eq!(err.message(), "bad magic bytes: expected [66, 79, 66, 74], got [66, 79, 66, 88]");
    let err = BobinaryFile::from_bytes(b"BOB").unwrap_err();
    assert_eq!(err.message(), "unexpected end of file");
    let err = BobinaryFile::from_bytes(b"BOBIN\x01\x00").unwrap_err();
    assert_eq!(err.message(), "unsupported version: 1");
}

#[test]
fn relocation_range_message() {
    let e = RelocationOutOfRange { fixup: -300, bits: 9 };
    assert_eq!(e.message(), "relocation out of range (-300 in 9 bits)");
}

#[test]
fn archive_errors() {
    assert_eq!(ArchiveLexError::UnterminatedString { line: 2 }.message(), "line 2: unterminated string literal");
    let e = ArchiveParseError::UnexpectedToken {
        expected: Some("func or include"),
        got: ArchiveToken { val: "x".to_string(), line: 3 },
    };
    assert_eq!(e.message(), "line 3: expected func or include but got `x`");
    let e = ArchiveParseError::UnexpectedEOF { expected: "a function name", last_line: 8 };
    assert_eq!(e.message(), "line 8: expected a function name but got EOF");
    let e = IncludeError::Lex { path: "/a/b.arc".to_string(), error: ArchiveLexError::UnterminatedString { line: 4 } };
    assert_eq!(e.message(), "/a/b.arc: line 4: unterminated string literal");
    let e = IncludeError::CircularInclude { path: "/a/c.arc".to_string() };
    assert_eq!(e.message(), "circular include detected at /a/c.arc");
    let e = IncludeError::Io { path: "/a/d.arc".to_string(), message: "No such file".to_string() };
    assert_eq!(e.message(), "couldn't read /a/d.arc: No such file");
}

#[test]
fn archive_words_are_written_back() {
    assert_eq!(Word::PushInt(-5).to_text(), "-5");
    assert_eq!(Word::AddInt(3).to_text(), "3 add");
    assert_eq!(Word::TwoDup.to_text(), "2dup");
    assert_eq!(Word::End(Some(4)).to_text(), "end");
    assert_eq!(Word::Call("puts".to_string()).to_text(), "puts");
    // a newline's backslash is doubled along with every other backslash
    assert_eq!(Word::PushString("a\nb\\c\"d\te".to_string()).to_text(), "\"a\\\\nb\\\\c\\\"d\\\\te\"");
    assert_eq!(Word::AndStr("x".to_string()).to_text(), "\"x\" and");
}

#[test]
fn operators_are_written_as_in_source() {
    assert_eq!(BinaryOp::Le.to_text(), "<=");
    assert_eq!(BinaryOp::LogOr.to_text(), "||");
    assert_eq!(UnaryOp::BitNot.to_text(), "~");
}

#[test]
fn three_address_code_is_written_out() {
    assert_eq!(TacInst::ConstInt { dst: Temp(0), val: 7 }.to_text(), "    t0 = 7");
    assert_eq!(TacInst::ConstStr { dst: Temp(1), val: "a\"b".to_string() }.to_text(), "    t1 = \"a\\\"b\"");
    assert_eq!(TacInst::AddrOf { dst: Temp(2), var: VarId(3) }.to_text(), "    t2 = &VarId(3)");
    assert_eq!(
        TacInst::BinOp { dst: Temp(3), op: BinaryOp::Add, lhs: Temp(1), rhs: Temp(2) }.to_text(),
        "    t3 = t1 + t2"
    );
    assert_eq!(TacInst::Call { dst: None, callee: Temp(4) }.to_text(), "    None = call t4");
    assert_eq!(TacInst::CallDirect { dst: Some(Temp(5)), callee: FuncId(2) }.to_text(), "    Some(t5) = call f2");
    assert_eq!(TacInst::Label(Label(1)).to_text(), "l1:");
    assert_eq!(TacInst::JumpIfZero { cond: Temp(6), target: Label(2) }.to_text(), "    jump l2 if t6 == 0");
    assert_eq!(TacInst::Return(Some(Temp(7))).to_text(), "    return Some(\"t7\")");
    assert_eq!(TacInst::Return(None).to_text(), "    return None");
    let raw = TacInst::AsmRaw {
        mnemonic: "add".to_string(),
        args: vec![TacAsmOperand::Reg(TacRegister::R1), TacAsmOperand::Imm(5)],
    };
    assert_eq!(raw.to_text(), "    add [R1, 5]");
    let f = TacFunction {
        id: FuncId(1),
        params: vec![],
        num_temps: 1,
        locals: vec![],
        body: vec![TacInst::ConstInt { dst: Temp(0), val: 1 }, TacInst::Return(None)],
    };
    assert_eq!(f.to_text(), "f1 {\n        t0 = 1\n        return None\n}\n");
    let p = TacProgram { funcs: vec![f] };
    assert_eq!(p.to_text(), "f1 {\n        t0 = 1\n        return None\n}\n\n");
}
