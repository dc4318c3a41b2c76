use bobtools::bobin::bobinary::BobinaryFile;
use bobtools::bobin::parse::ParseError;

fn sample() -> BobinaryFile {
    BobinaryFile {
        words: vec![0x4002, 0xf200, 0xf000, 0x0004, 0x0062, 0x006f, 0x0062],
    }
}

fn assert_eq_bobinaryfile(a: &BobinaryFile, b: &BobinaryFile) {
    assert_eq!(a.words, b.words);
}

#[test]
fn round_trip() {
    let original = sample();
    let bytes = original.to_bytes();
    let parsed = BobinaryFile::from_bytes(&bytes).expect("parse should succeed");
    assert_eq_bobinaryfile(&original, &parsed);
}

#[test]
fn empty_file_round_trips() {
    let original = BobinaryFile { words: vec![] };
    let bytes = original.to_bytes();
    let parsed = BobinaryFile::from_bytes(&bytes).expect("parse should succeed");
    assert_eq_bobinaryfile(&original, &parsed);
}

#[test]
fn rejects_bad_magic() {
    let mut bytes = sample().to_bytes();
    bytes[0] = b'X';
    assert!(matches!(
        BobinaryFile::from_bytes(&bytes),
        Err(ParseError::BadMagic(_))
    ));
}

#[test]
fn rejects_truncated_file() {
    let bytes = sample().to_bytes();
    let truncated = &bytes[..bytes.len() - 3];
    assert!(matches!(
        BobinaryFile::from_bytes(truncated),
        Err(ParseError::UnexpectedEof)
    ));
}

#[test]
fn rejects_unsupported_version() {
    let mut bytes = sample().to_bytes();
    bytes[5] = 0xFF;
    bytes[6] = 0xFF;
    assert!(matches!(
        BobinaryFile::from_bytes(&bytes),
        Err(ParseError::UnsupportedVersion(0xFFFF))
    ));
}

#[test]
fn rejects_file_with_extra_words() {
    let mut bytes = sample().to_bytes();
    bytes[7] = 0x01;
    bytes[8] = 0x00;
    bytes[9] = 0x01;
    bytes[10] = 0x00;
    assert!(matches!(
        BobinaryFile::from_bytes(&bytes),
        Err(ParseError::TooManyWords(1)),
    ));
}

#[test]
fn bobin_layout_is_exact() {
    let f = BobinaryFile { words: vec![0x1234] };
    assert_eq!(f.to_bytes(), vec![b'B', b'O', b'B', b'I', b'N', 0, 0, 1, 0, 0, 0, 0x34, 0x12]);
    assert_eq!(f.word_count(), 1);
}

#[test]
fn bobin_bad_magic_reports_the_bytes() {
    let bytes = b"BOBJX\0\0\0\0\0\0".to_vec();
    match BobinaryFile::from_bytes(&bytes) {
        Err(ParseError::BadMagic(m)) => assert_eq!(&m, b"BOBJX"),
        other => panic!("unexpected {:?}", other),
    }
}

#[test]
fn bobin_trailing_bytes_are_ignored() {
    let mut bytes = sample().to_bytes();
    bytes.push(0xAA);
    let parsed = BobinaryFile::from_bytes(&bytes).unwrap();
    assert_eq!(parsed.words, sample().words);
}

#[test]
fn bobin_short_header_is_eof() {
    assert!(matches!(BobinaryFile::from_bytes(b"BOB"), Err(ParseError::UnexpectedEof)));
    assert!(matches!(BobinaryFile::from_bytes(b"BOBIN\0\0\x01"), Err(ParseError::UnexpectedEof)));
}

#[test]
fn reading_then_writing_gives_the_bytes_read() {
    let bytes: Vec<u8> = vec![0x42, 0x4F, 0x42, 0x49, 0x4E, 0, 0, 2, 0, 0, 0, 0x34, 0x12, 0xCD, 0xAB, 0xEE, 0xFF];
    let f = BobinaryFile::from_bytes(&bytes).unwrap();
    assert_eq!(f.to_bytes(), bytes[..15].to_vec());
}
