use bobtools::bl::{
    build_global_symbol_table, compute_base_addresses, link, pc_rel_fixup, LinkError, RelocationOutOfRange,
};
use bobtools::bobj::bobject::{Binding, BobjectFile, Relocation, RelocationKind, Symbol};

fn sym(name: &str, offset: u16, binding: Binding) -> Symbol {
    Symbol { name: name.to_string(), offset, binding }
}

fn rel(site: u16, kind: RelocationKind, name: &str) -> Relocation {
    Relocation { site, kind, name: name.to_string() }
}

fn main_file() -> BobjectFile {
    BobjectFile {
        symbols: vec![sym("main", 0, Binding::Global)],
        relocations: vec![rel(0, RelocationKind::PcRel9, "x"), rel(1, RelocationKind::Abs16, "x")],
        words: vec![0x4000, 0],
    }
}

fn data_file() -> BobjectFile {
    BobjectFile { symbols: vec![sym("x", 0, Binding::Global)], relocations: vec![], words: vec![7] }
}

#[test]
fn links_two_files() {
    let image = link(&[main_file(), data_file()]).unwrap();
    assert_eq!(image, vec![0x4001, 2, 7]);
}

#[test]
fn base_addresses_follow_word_counts() {
    let bases = compute_base_addresses(&[main_file(), data_file(), main_file()]).unwrap();
    assert_eq!(bases, vec![0, 2, 3]);
}

#[test]
fn program_too_large() {
    let big = BobjectFile { symbols: vec![], relocations: vec![], words: vec![0; 0xFFFF] };
    match compute_base_addresses(&[big, data_file(), data_file()]) {
        Err(LinkError::ProgramTooLarge { words }) => assert_eq!(words, 0x10001),
        other => panic!("unexpected {:?}", other),
    }
}

#[test]
fn duplicate_globals_are_named() {
    match link(&[data_file(), data_file(), data_file()]) {
        Err(LinkError::DuplicateGlobals(names)) => assert_eq!(names, vec!["x".to_string(), "x".to_string()]),
        other => panic!("unexpected {:?}", other),
    }
    let table = build_global_symbol_table(&[main_file(), data_file()], &[0, 2]).unwrap();
    assert_eq!(table, vec![("main".to_string(), 0), ("x".to_string(), 2)]);
}

#[test]
fn undefined_symbols_are_named() {
    match link(&[main_file()]) {
        Err(LinkError::UndefinedSymbols(names)) => assert_eq!(names, vec!["x".to_string(), "x".to_string()]),
        other => panic!("unexpected {:?}", other),
    }
}

#[test]
fn local_symbol_wins_over_global() {
    let mut f = main_file();
    f.symbols.push(sym("x", 1, Binding::Local));
    let image = link(&[f, data_file()]).unwrap();
    assert_eq!(image, vec![0x4000, 1, 7]);
}

#[test]
fn pc_relative_fixups() {
    assert_eq!(pc_rel_fixup(0, 0, 10, 9), Ok(0xFFF5));
    assert_eq!(pc_rel_fixup(300, 0, 0, 9), Err(RelocationOutOfRange { fixup: 299, bits: 9 }));
    assert_eq!(pc_rel_fixup(256, 0, 0, 9), Ok(255));
    assert_eq!(pc_rel_fixup(300, 0, 0, 11), Ok(299));
}

#[test]
fn out_of_range_relocation_is_an_error() {
    let far = BobjectFile {
        symbols: vec![],
        relocations: vec![rel(0, RelocationKind::PcRel9, "x")],
        words: vec![0x4000],
    };
    let pad = BobjectFile { symbols: vec![], relocations: vec![], words: vec![0; 400] };
    match link(&[far, pad, data_file()]) {
        Err(LinkError::OutOfRange(errs)) => assert_eq!(errs, vec![RelocationOutOfRange { fixup: 400, bits: 9 }]),
        other => panic!("unexpected {:?}", other),
    }
}
