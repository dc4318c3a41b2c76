use bobtools::bobj::bobject::{Binding, BobjectFile, Relocation, RelocationKind, Symbol};
use bobtools::bobj::parse::ParseError;

fn sample() -> BobjectFile {
    BobjectFile {
        symbols: vec![
            Symbol {
                name: "main".to_string(),
                offset: 0,
                binding: Binding::Global,
            },
            Symbol {
                name: ".L0".to_string(),
                offset: 5,
                binding: Binding::Local,
            },
        ],
        relocations: vec![
            Relocation {
                site: 1,
                kind: RelocationKind::PcRel9,
                name: ".L0".to_string(),
            },
            Relocation {
                site: 3,
                kind: RelocationKind::PcRel11,
                name: "main".to_string(),
            },
            Relocation {
                site: 6,
                kind: RelocationKind::Abs16,
                name: "main".to_string(),
            },
        ],
        words: vec![0x1226, 0x0A00, 0xC000, 0x0000, 0xF000, 0x0000, 0x0000],
    }
}

fn assert_eq_bobjectfile(a: &BobjectFile, b: &BobjectFile) {
    assert_eq!(a.words, b.words);

    assert_eq!(a.symbols.len(), b.symbols.len());
    for (sa, sb) in a.symbols.iter().zip(&b.symbols) {
        assert_eq!(sa.name, sb.name);
        assert_eq!(sa.offset, sb.offset);
        assert_eq!(sa.binding, sb.binding);
    }

    assert_eq!(a.relocations.len(), b.relocations.len());
    for (ra, rb) in a.relocations.iter().zip(&b.relocations) {
        assert_eq!(ra.site, rb.site);
        assert_eq!(ra.kind, rb.kind);
        assert_eq!(ra.name, rb.name);
    }
}

#[test]
fn test_round_trip() {
    let original = sample();
    let bytes = original.to_bytes();
    let parsed = BobjectFile::from_bytes(&bytes).expect("parse should succeed");
    assert_eq_bobjectfile(&original, &parsed);
}

#[test]
fn test_empty_file_round_trips() {
    let original = BobjectFile {
        symbols: vec![],
        relocations: vec![],
        words: vec![],
    };
    let bytes = original.to_bytes();
    let parsed = BobjectFile::from_bytes(&bytes).expect("parse should succeed");
    assert_eq_bobjectfile(&original, &parsed);
}

#[test]
fn test_rejects_bad_magic() {
    let mut bytes = sample().to_bytes();
    bytes[0] = b'X';
    assert!(matches!(
        BobjectFile::from_bytes(&bytes),
        Err(ParseError::BadMagic(_))
    ));
}

#[test]
fn test_rejects_truncated_file() {
    let bytes = sample().to_bytes();
    let truncated = &bytes[..bytes.len() - 3];
    assert!(matches!(
        BobjectFile::from_bytes(truncated),
        Err(ParseError::UnexpectedEof)
    ));
}

#[test]
fn test_rejects_unsupported_version() {
    let mut bytes = sample().to_bytes();
    bytes[4] = 0xFF;
    bytes[5] = 0xFF;
    assert!(matches!(
        BobjectFile::from_bytes(&bytes),
        Err(ParseError::UnsupportedVersion(0xFFFF))
    ));
}

#[test]
fn test_rejects_file_with_extra_words() {
    let mut bytes = sample().to_bytes();
    bytes[6] = 0x01;
    bytes[7] = 0x00;
    bytes[8] = 0x01;
    bytes[9] = 0x00;
    assert!(matches!(
        BobjectFile::from_bytes(&bytes),
        Err(ParseError::TooManyWords(1)),
    ));
}

#[test]
fn bobj_invalid_binding_byte() {
    let mut bytes = sample().to_bytes();
    // header (14) + name "main" (5) + offset (2) -> binding byte
    bytes[14 + 5 + 2] = 7;
    assert!(matches!(BobjectFile::from_bytes(&bytes), Err(ParseError::InvalidBinding(7))));
}

#[test]
fn bobj_invalid_reloc_kind_byte() {
    let mut bytes = sample().to_bytes();
    // header (14) + symbols (5+2+1 + 4+2+1 = 15) + site (2) -> kind byte
    bytes[14 + 15 + 2] = 9;
    assert!(matches!(BobjectFile::from_bytes(&bytes), Err(ParseError::InvalidRelocKind(9))));
}

#[test]
fn bobj_invalid_utf8_name() {
    let mut bytes = sample().to_bytes();
    bytes[15] = 0xFF;
    assert!(matches!(BobjectFile::from_bytes(&bytes), Err(ParseError::InvalidUtf8Name)));
}

#[test]
fn bobj_counts_and_find_symbol() {
    let f = sample();
    assert_eq!(f.word_count(), 7);
    assert_eq!(f.sym_count(), 2);
    assert_eq!(f.reloc_count(), 3);
    assert_eq!(f.find_symbol(".L0").map(|s| s.offset), Some(5));
    assert!(f.find_symbol("nope").is_none());
}

#[test]
fn bobj_non_ascii_names_round_trip() {
    let mut f = sample();
    f.symbols[0].name = "héllo→".to_string();
    let parsed = BobjectFile::from_bytes(&f.to_bytes()).unwrap();
    assert_eq_bobjectfile(&f, &parsed);
}

#[test]
fn reading_an_object_then_writing_it_gives_the_bytes_read() {
    let mut bytes = sample().to_bytes();
    let n = bytes.len();
    bytes.extend_from_slice(&[0xEE, 0xFF, 0x01]);
    let g = BobjectFile::from_bytes(&bytes).unwrap();
    assert_eq!(g.to_bytes(), bytes[..n].to_vec());
}
