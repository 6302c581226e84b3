use editorconfig_lint::reader::{
    CharByteArray, Character, CharacterReader, IndentChar, NewLineChar, Reader,
};
use editorconfig_lint::Charset;

fn drain(mut reader: CharacterReader) -> Vec<Character> {
    let mut tokens = Vec::new();
    while let Some(ch) = reader.next() {
        tokens.push(ch);
    }
    tokens
}

fn valid(bytes: &[u8]) -> Character {
    let mut buffer = [0u8; 4];
    buffer[..bytes.len()].copy_from_slice(bytes);
    Character::Valid(CharByteArray { len: bytes.len() as u8, buffer })
}

fn invalid(bytes: &[u8]) -> Character {
    let mut buffer = [0u8; 4];
    buffer[..bytes.len()].copy_from_slice(bytes);
    Character::Invalid(CharByteArray { len: bytes.len() as u8, buffer })
}

#[test]
fn unchecked_reader_classifies_specials_and_nothing_else() {
    let tokens = drain(CharacterReader::new(b"a \t\r\n\xFF".to_vec(), None));
    assert_eq!(
        tokens,
        vec![
            valid(b"a"),
            Character::Indent(IndentChar::Space),
            Character::Indent(IndentChar::Tab),
            Character::NewLine(NewLineChar::Cr),
            Character::NewLine(NewLineChar::Lf),
            valid(&[0xFF]),
        ],
    );
}

#[test]
fn latin1_reader_rejects_the_control_bands() {
    let tokens = drain(CharacterReader::new(
        vec![0x7E, 0x7F, 0xA0, 0xA1],
        Some(Charset::Latin1),
    ));
    assert_eq!(
        tokens,
        vec![valid(&[0x7E]), invalid(&[0x7F]), invalid(&[0xA0]), valid(&[0xA1])],
    );
}

#[test]
fn utf8_reader_composes_multibyte_sequences() {
    let tokens = drain(CharacterReader::new(
        b"a\xC3\xA9\xE2\x82\xAC\xF0\x9F\x98\x80".to_vec(),
        Some(Charset::Utf8),
    ));
    assert_eq!(
        tokens,
        vec![
            valid(b"a"),
            valid(&[0xC3, 0xA9]),
            valid(&[0xE2, 0x82, 0xAC]),
            valid(&[0xF0, 0x9F, 0x98, 0x80]),
        ],
    );
}

#[test]
fn utf8_reader_recognizes_the_byte_order_mark() {
    let tokens = drain(CharacterReader::new(
        b"\xEF\xBB\xBFa".to_vec(),
        Some(Charset::Utf8WithBom),
    ));
    assert_eq!(tokens, vec![Character::Bom, valid(b"a")]);
}

#[test]
fn utf8_reader_flags_a_bad_lead_byte_alone() {
    let tokens = drain(CharacterReader::new(
        vec![0xFF, b'a'],
        Some(Charset::Utf8),
    ));
    assert_eq!(tokens, vec![invalid(&[0xFF]), valid(b"a")]);
}

#[test]
fn utf8_reader_consumes_a_whole_bad_sequence() {
    let tokens = drain(CharacterReader::new(
        vec![0xE2, 0x28, 0xA1, b'a'],
        Some(Charset::Utf8),
    ));
    assert_eq!(tokens, vec![invalid(&[0xE2, 0x28, 0xA1]), valid(b"a")]);
}

#[test]
fn utf8_reader_rejects_surrogate_code_points() {
    let tokens = drain(CharacterReader::new(
        vec![0xED, 0xA0, 0x80],
        Some(Charset::Utf8),
    ));
    assert_eq!(tokens, vec![invalid(&[0xED, 0xA0, 0x80])]);
}

#[test]
fn utf16le_reader_reads_specials_boms_and_pairs() {
    let tokens = drain(CharacterReader::new(
        vec![0xFF, 0xFE, 0x0D, 0x00, 0x0A, 0x00, 0x20, 0x00, 0x09, 0x00, 0x00, 0xD8, 0x00, 0xDC, 0x41],
        Some(Charset::Utf16LittleEndian),
    ));
    assert_eq!(
        tokens,
        vec![
            Character::Bom,
            Character::NewLine(NewLineChar::Cr),
            Character::NewLine(NewLineChar::Lf),
            Character::Indent(IndentChar::Space),
            Character::Indent(IndentChar::Tab),
            valid(&[0x00, 0xD8, 0x00, 0xDC]),
            invalid(&[0x41]),
        ],
    );
}

#[test]
fn utf16le_reader_flags_a_short_surrogate_tail() {
    let tokens = drain(CharacterReader::new(
        vec![0x00, 0xD8, 0x41],
        Some(Charset::Utf16LittleEndian),
    ));
    assert_eq!(tokens, vec![invalid(&[0x00, 0xD8, 0x41])]);
}

#[test]
fn utf16be_reader_reads_specials_boms_and_pairs() {
    let tokens = drain(CharacterReader::new(
        vec![0xFE, 0xFF, 0x00, 0x0D, 0x00, 0x0A, 0x00, 0x20, 0x00, 0x09, 0xD8, 0x00, 0xDC, 0x00, 0x41],
        Some(Charset::Utf16BigEndian),
    ));
    assert_eq!(
        tokens,
        vec![
            Character::Bom,
            Character::NewLine(NewLineChar::Cr),
            Character::NewLine(NewLineChar::Lf),
            Character::Indent(IndentChar::Space),
            Character::Indent(IndentChar::Tab),
            valid(&[0xD8, 0x00, 0xDC, 0x00]),
            invalid(&[0x41]),
        ],
    );
}

#[test]
fn char_byte_array_constructors_carry_their_bytes() {
    assert_eq!(CharByteArray::one(1), CharByteArray { len: 1, buffer: [1, 0, 0, 0] });
    assert_eq!(CharByteArray::two(1, 2), CharByteArray { len: 2, buffer: [1, 2, 0, 0] });
    assert_eq!(CharByteArray::three(1, 2, 3), CharByteArray { len: 3, buffer: [1, 2, 3, 0] });
    assert_eq!(CharByteArray::four(1, 2, 3, 4), CharByteArray { len: 4, buffer: [1, 2, 3, 4] });
}
