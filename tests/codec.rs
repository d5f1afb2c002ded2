use lawa::poki::{
    bytes_to_words, words_to_bytes, ExportTableEntry, Poki, PokiDeserializationError,
    PokiSerializationError, RelocationTableEntry,
};

fn header_bytes(headers: &[(u16, u16, u16)]) -> Vec<u8> {
    let mut words = vec![0x70u16, 0x6f, 0x6b, 0x69];
    for i in 0..8 {
        let (a, b, c) = headers.get(i).copied().unwrap_or((0, 0, 0));
        words.extend([a, b, c]);
    }
    words_to_bytes(&words)
}

#[test]
fn empty_file_words() {
    let words = Poki::new_empty().to_words().unwrap();
    let mut expected = vec![0x70u16, 0x6f, 0x6b, 0x69];
    expected.extend([0u16; 24]);
    assert_eq!(words, expected);
    let bytes = Poki::new_empty().serialize().unwrap();
    assert_eq!(bytes.len(), 56);
    assert_eq!(&bytes[0..8], &[0x70, 0, 0x6f, 0, 0x6b, 0, 0x69, 0]);
    assert_eq!(Poki::new_empty().to_bytes().unwrap(), bytes);
    assert_eq!(Poki::deserialize(&bytes).unwrap(), Poki::new_empty());
}

#[test]
fn full_round_trip() {
    let mut poki = Poki::new_empty();
    poki.segments[3].contents = vec![1, 2, 0xFFFF];
    poki.segments[3].relocation_table = vec![
        RelocationTableEntry { offset: 1, segment_index: 5, segment_offset: 0 },
        RelocationTableEntry { offset: 2, segment_index: 0xFFFF, segment_offset: 1 },
    ];
    poki.segments[3].export_table = vec![ExportTableEntry { label: "d\u{e9}j\u{e0}\u{1F600}".to_string(), offset: 2 }];
    poki.unresolved_table = vec!["one".to_string(), "\u{1F600}".to_string(), String::new()];
    let words = poki.to_words().unwrap();
    assert_eq!(&words[4 + 9..4 + 12], &[3, 6, 1 + 6 + 1]);
    let bytes = poki.serialize().unwrap();
    assert_eq!(Poki::deserialize(&bytes).unwrap(), poki);
    assert_eq!(Poki::from_words(&words).unwrap(), poki);
    assert_eq!(bytes_to_words(&bytes), words);
}

#[test]
fn invalid_magic() {
    let bytes = vec![1, 0, 2, 0, 3, 0, 4, 0];
    assert_eq!(Poki::deserialize(&bytes), Err(PokiDeserializationError::InvalidMagic(1, 2, 3, 4)));
}

#[test]
fn short_files() {
    assert_eq!(Poki::deserialize(&[]), Err(PokiDeserializationError::UnexpectedEndOfFile));
    let mut bytes = header_bytes(&[(2, 0, 0)]);
    bytes.extend([7, 0]);
    assert_eq!(Poki::deserialize(&bytes), Err(PokiDeserializationError::UnexpectedEndOfFile));
}

#[test]
fn stray_byte_after_unresolved_table() {
    let mut bytes = Poki::new_empty().serialize().unwrap();
    bytes.push(0);
    assert_eq!(Poki::deserialize(&bytes), Err(PokiDeserializationError::UnexpectedEndOfFile));
}

#[test]
fn relocation_table_size_multiple_of_three() {
    let bytes = header_bytes(&[(0, 1, 0)]);
    assert_eq!(Poki::deserialize(&bytes), Err(PokiDeserializationError::InvalidRelocationTableSize(1)));
}

#[test]
fn export_string_overrun() {
    let mut bytes = header_bytes(&[(0, 0, 2)]);
    bytes.extend(words_to_bytes(&vec![5, 0x61, 0x61, 0x61, 0x61, 0x61, 0]));
    assert_eq!(Poki::deserialize(&bytes), Err(PokiDeserializationError::StringOverrun(4)));
}

#[test]
fn unpaired_surrogate() {
    let mut bytes = header_bytes(&[]);
    bytes.extend(words_to_bytes(&vec![1, 0xD800]));
    assert_eq!(Poki::deserialize(&bytes), Err(PokiDeserializationError::FromUtf16Error));
}

#[test]
fn oversized_contents() {
    let mut poki = Poki::new_empty();
    poki.segments[0].contents = vec![0; 70000];
    assert_eq!(poki.serialize(), Err(PokiSerializationError::OversizedSegmentContents(70000)));
}

#[test]
fn oversized_relocation_table() {
    let mut poki = Poki::new_empty();
    poki.segments[2].relocation_table =
        vec![RelocationTableEntry { offset: 0, segment_index: 0, segment_offset: 0 }; 21846];
    assert_eq!(poki.serialize(), Err(PokiSerializationError::OversizedRelocationTable(65538)));
}

#[test]
fn oversized_export_table() {
    let mut poki = Poki::new_empty();
    poki.segments[1].export_table = vec![
        ExportTableEntry { label: "a".repeat(40000), offset: 0 },
        ExportTableEntry { label: "b".repeat(30000), offset: 0 },
    ];
    assert_eq!(poki.serialize(), Err(PokiSerializationError::OversizedExportTable(70004)));
}

#[test]
fn oversized_unresolved_label() {
    let mut poki = Poki::new_empty();
    poki.unresolved_table = vec!["x".repeat(70000)];
    assert_eq!(poki.serialize(), Err(PokiSerializationError::OversizedLabel(70000)));
}

#[test]
fn export_table_error_reports_the_whole_table() {
    let mut poki = Poki::new_empty();
    poki.segments[6].export_table = vec![
        ExportTableEntry { label: "a".repeat(70000), offset: 0 },
        ExportTableEntry { label: "b".repeat(10), offset: 0 },
    ];
    assert_eq!(poki.serialize(), Err(PokiSerializationError::OversizedExportTable(70002 + 12)));
}

#[test]
fn first_oversized_size_is_reported() {
    let mut poki = Poki::new_empty();
    poki.segments[1].relocation_table =
        vec![RelocationTableEntry { offset: 0, segment_index: 0, segment_offset: 0 }; 30000];
    poki.segments[4].contents = vec![0; 70000];
    poki.unresolved_table = vec!["\u{1F600}".repeat(40000)];
    assert_eq!(poki.serialize(), Err(PokiSerializationError::OversizedRelocationTable(90000)));
    poki.segments[1].relocation_table.clear();
    assert_eq!(poki.serialize(), Err(PokiSerializationError::OversizedSegmentContents(70000)));
    poki.segments[4].contents.clear();
    assert_eq!(poki.serialize(), Err(PokiSerializationError::OversizedLabel(80000)));
}
