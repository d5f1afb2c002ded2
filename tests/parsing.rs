use lawa::assemble::{assemble, AssembleError, AssemblyError, Assembler};
use lawa::lex::{LexError, SourceSpan};
use lawa::parse::{Code, Expected, Immediate, ParseError, Parser};
use lawa::poki::RelocationTableEntry;

fn parse_error(source: &str) -> ParseError {
    match Parser::new(source).parse() {
        Err(e) => e,
        Ok(p) => panic!("expected an error, parsed {:?}", p),
    }
}

#[test]
fn expects_left_paren() {
    assert_eq!(
        parse_error("segment"),
        ParseError::UnexpectedToken {
            expected: Expected::LeftParen,
            found: SourceSpan { offset: 0, length: 7 },
            opening: None
        }
    );
}

#[test]
fn unclosed_segment() {
    assert_eq!(
        parse_error("(segment x"),
        ParseError::UnexpectedEof {
            expected: Expected::RightParen,
            opening: Some(SourceSpan { offset: 0, length: 1 })
        }
    );
}

#[test]
fn missing_immediate() {
    assert_eq!(
        parse_error("(segment x (addi r1 r0))"),
        ParseError::UnexpectedToken {
            expected: Expected::Immediate,
            found: SourceSpan { offset: 22, length: 1 },
            opening: None
        }
    );
}

#[test]
fn lexer_error_surfaces() {
    assert_eq!(
        parse_error("(segment x #)"),
        ParseError::Lex(LexError::InvalidCharacter { character: '#', span: SourceSpan { offset: 11, length: 1 } })
    );
}

#[test]
fn permissions_case_is_exact() {
    assert_eq!(
        parse_error("(SEGMENT RX)"),
        ParseError::UnexpectedToken {
            expected: Expected::SegmentPermissions,
            found: SourceSpan { offset: 9, length: 2 },
            opening: None
        }
    );
}

#[test]
fn parses_segments_by_permissions() {
    let program = Parser::new("(segment w 1) (export a b) (segment rwx (block a 2)) (segment w 3)").parse().unwrap();
    assert_eq!(program.segments.len(), 8);
    assert_eq!(program.segments[2], vec![Code::Number(1), Code::Number(3)]);
    assert_eq!(program.segments[7].len(), 1);
    let labels: Vec<&str> = program.exports.iter().map(|l| l.label.as_str()).collect();
    assert_eq!(labels, vec!["a", "b"]);
}

#[test]
fn parses_operands() {
    let parser = Parser::new("(jsh far) r3 iv 7");
    match parser.parse_code(0) {
        Ok((Code::JSH { imm: Immediate::Label(l) }, 4)) => assert_eq!(l.label, "far"),
        other => panic!("unexpected {:?}", other),
    }
    assert_eq!(parser.parse_register(4), Ok(lawa::isa::Register::R3));
    assert_eq!(
        parser.parse_control_status_register(5),
        Ok(lawa::isa::ControlStatusRegister::IV)
    );
    assert_eq!(parser.parse_immediate(6), Ok(Immediate::Number(7)));
}

#[test]
fn code_sizes() {
    let program = Parser::new("(segment x (block a \"h\u{e9}\u{1F600}\" (addi r1 r0 1) (add r1 r2) 9))").parse().unwrap();
    let block = &program.segments[1][0];
    assert_eq!(block.size(), 4 + 2 + 1 + 1);
}

#[test]
fn control_status_instructions() {
    let poki = assemble("(SEGMENT rx (rcsr r1 iv) (wcsr iv r2) (ADDI R1 R0 0x2A) (jsh 3))").unwrap();
    assert_eq!(poki.segments[5].contents, vec![0x8054, 0x1415, 0x0048, 0x002A, 0x00E9]);
}

#[test]
fn strings_emit_utf16() {
    let poki = assemble("(segment r \"h\u{e9}\u{1F600}\" 5)").unwrap();
    assert_eq!(poki.segments[4].contents, vec![0x68, 0xE9, 0xD83D, 0xDE00, 5]);
}

#[test]
fn nested_labels_are_qualified() {
    let poki = assemble("(segment rx 7 (block outer 8 (block inner (jsh outer.inner))))").unwrap();
    assert_eq!(
        poki.segments[5].relocation_table,
        vec![RelocationTableEntry { offset: 2, segment_index: 5, segment_offset: 2 }]
    );
    let program = Parser::new("(segment rx 7 (block outer 8 (block inner (jsh outer.inner))))").parse().unwrap();
    let table = program.symbol_table().unwrap();
    let names: Vec<String> = table.iter().map(|e| e.name.iter().collect()).collect();
    assert_eq!(names, vec!["outer".to_string(), "outer.inner".to_string()]);
    assert_eq!(table[0].segment_offset, 1);
    assert_eq!(table[1].segment_offset, 2);
}

#[test]
fn unresolved_labels_are_interned() {
    let poki = assemble("(segment rx (jsh ext) (jsh ext) (jsh other))").unwrap();
    assert_eq!(poki.unresolved_table, vec!["ext".to_string(), "other".to_string()]);
    assert_eq!(
        poki.segments[5].relocation_table,
        vec![
            RelocationTableEntry { offset: 0, segment_index: 0xFFFF, segment_offset: 0 },
            RelocationTableEntry { offset: 1, segment_index: 0xFFFF, segment_offset: 0 },
            RelocationTableEntry { offset: 2, segment_index: 0xFFFF, segment_offset: 1 },
        ]
    );
}

#[test]
fn immediate_label_relocates_second_word() {
    let poki = assemble("(segment rx (block a (addi r1 r0 a)))").unwrap();
    assert_eq!(poki.segments[5].contents, vec![0x0048, 0]);
    assert_eq!(
        poki.segments[5].relocation_table,
        vec![RelocationTableEntry { offset: 1, segment_index: 5, segment_offset: 0 }]
    );
}

#[test]
fn undefined_export() {
    match assemble("(export nope) (segment x)") {
        Err(AssemblyError::Assemble(AssembleError::UndefinedExport { span })) => {
            assert_eq!(span, SourceSpan { offset: 8, length: 4 });
        }
        other => panic!("unexpected {:?}", other),
    }
}

#[test]
fn oversized_segment() {
    let source = format!("(segment x \"{}\")", "a".repeat(70000));
    match assemble(&source) {
        Err(AssemblyError::Assemble(AssembleError::OversizedSegment { segment_index })) => {
            assert_eq!(segment_index, 1)
        }
        other => panic!("unexpected {:?}", other.map(|_| ())),
    }
}

#[test]
fn assembler_in_two_steps() {
    let assembler = Assembler::try_new("(segment x 1 2)").unwrap();
    let poki = assembler.assemble().unwrap();
    assert_eq!(poki.segments[1].contents, vec![1, 2]);
}

#[test]
fn parse_error_through_assemble() {
    assert!(matches!(assemble("(block)"), Err(AssemblyError::Parse(_))));
}
