use lawa::isa::{ControlStatusRegister, Opcode, Register};
use lawa::lex::{tokenize, LexError, Lexer, SegmentPermissions, SourceSpan, TokenKind};

fn kinds(source: &str) -> Vec<TokenKind> {
    let (tokens, error) = tokenize(source);
    assert_eq!(error, None);
    tokens.into_iter().map(|t| t.token_kind).collect()
}

#[test]
fn spans_are_byte_offsets() {
    let (tokens, error) = tokenize("(segment x)");
    assert_eq!(error, None);
    let spans: Vec<SourceSpan> = tokens.iter().map(|t| t.source_span).collect();
    assert_eq!(
        spans,
        vec![
            SourceSpan { offset: 0, length: 1 },
            SourceSpan { offset: 1, length: 7 },
            SourceSpan { offset: 9, length: 1 },
            SourceSpan { offset: 10, length: 1 },
        ]
    );
}

#[test]
fn unicode_white_space_counts_bytes() {
    let (tokens, error) = tokenize("\u{3000}(");
    assert_eq!(error, None);
    assert_eq!(tokens.len(), 1);
    assert_eq!(tokens[0].token_kind, TokenKind::LeftParen);
    assert_eq!(tokens[0].source_span, SourceSpan { offset: 3, length: 1 });
}

#[test]
fn comments_run_to_end_of_line() {
    let (tokens, error) = tokenize("; a comment (\n)");
    assert_eq!(error, None);
    assert_eq!(tokens.len(), 1);
    assert_eq!(tokens[0].token_kind, TokenKind::RightParen);
    assert_eq!(tokens[0].source_span, SourceSpan { offset: 14, length: 1 });
}

#[test]
fn keywords_are_case_insensitive() {
    assert_eq!(
        kinds("ADDI Jsh R31 iPc SEGMENT Block eXport"),
        vec![
            TokenKind::Opcode(Opcode::ADDI),
            TokenKind::Opcode(Opcode::JSH),
            TokenKind::Register(Register::R31),
            TokenKind::ControlStatusRegister(ControlStatusRegister::IPC),
            TokenKind::Segment,
            TokenKind::Block,
            TokenKind::Export,
        ]
    );
}

#[test]
fn permissions_are_exact() {
    let rx = SegmentPermissions { readable: true, writable: false, executable: true };
    assert_eq!(kinds("rx"), vec![TokenKind::SegmentPermissions(rx)]);
    assert_eq!(rx.value(), 0b101);
    assert_eq!(kinds("RX"), vec![TokenKind::Label("RX".to_string())]);
    assert_eq!(kinds("xr"), vec![TokenKind::Label("xr".to_string())]);
    assert_eq!(kinds("r32"), vec![TokenKind::Label("r32".to_string())]);
}

#[test]
fn numbers_in_each_radix() {
    assert_eq!(
        kinds("0b101 0o17 0x1f 0x1F 42 65535"),
        vec![
            TokenKind::Number(5),
            TokenKind::Number(15),
            TokenKind::Number(31),
            TokenKind::Number(31),
            TokenKind::Number(42),
            TokenKind::Number(65535),
        ]
    );
    assert_eq!(kinds("0XFF"), vec![TokenKind::Number(0), TokenKind::Label("XFF".to_string())]);
}

#[test]
fn labels_strings_and_dots() {
    assert_eq!(
        kinds("outer.inner _x \u{e9}t\u{e9} \"a b\""),
        vec![
            TokenKind::Label("outer.inner".to_string()),
            TokenKind::Label("_x".to_string()),
            TokenKind::Label("\u{e9}t\u{e9}".to_string()),
            TokenKind::String("a b".to_string()),
        ]
    );
}

#[test]
fn invalid_character() {
    let (tokens, error) = tokenize("( #");
    assert_eq!(tokens.len(), 1);
    assert_eq!(
        error,
        Some(LexError::InvalidCharacter { character: '#', span: SourceSpan { offset: 2, length: 1 } })
    );
}

#[test]
fn unterminated_string() {
    let (tokens, error) = tokenize("x \"abc");
    assert_eq!(tokens.len(), 1);
    assert_eq!(error, Some(LexError::UnterminatedString { span: SourceSpan { offset: 2, length: 4 } }));
}

#[test]
fn number_overflow_and_empty_digits() {
    let (_, error) = tokenize("65536");
    assert_eq!(error, Some(LexError::InvalidNumber { span: SourceSpan { offset: 0, length: 5 } }));
    let (_, error) = tokenize("0x");
    assert_eq!(error, Some(LexError::InvalidNumber { span: SourceSpan { offset: 0, length: 2 } }));
}

#[test]
fn lexer_stops_after_error() {
    let mut lexer = Lexer::new("# (");
    assert!(matches!(lexer.next_token(), Some(Err(LexError::InvalidCharacter { .. }))));
    assert!(lexer.next_token().is_none());
    assert!(lexer.next_token().is_none());
}

#[test]
fn takes_immediate_excludes_short_jump() {
    assert!(Opcode::ADDI.takes_immediate());
    assert!(Opcode::BEQ.takes_immediate());
    assert!(Opcode::LDIO.takes_immediate());
    assert!(!Opcode::JSH.takes_immediate());
    assert!(!Opcode::ADD.takes_immediate());
    assert!(!Opcode::RCSR.takes_immediate());
}
