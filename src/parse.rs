use vstd::prelude::*;

use crate::isa::{ControlStatusRegister, Opcode, Register};
use crate::lex::{
    byte_len, lex_all, token_view, tokenize, LexError, SourceSpan, Token, TokenKind, TokenView,
};

verus! {

/// A label as written in the source, with where it was written.
#[derive(Debug, Clone, PartialEq, Eq, Hash)]
pub struct LabelRef {
    pub label: String,
    pub source_span: SourceSpan,
}

impl View for LabelRef {
    type V = (Seq<char>, SourceSpan);

    open spec fn view(&self) -> (Seq<char>, SourceSpan) {
        (self.label@, self.source_span)
    }
}

/// The immediate operand of an instruction: a number, or a label to be resolved.
#[derive(Debug, Clone, PartialEq, Eq, Hash)]
pub enum Immediate {
    Label(LabelRef),
    Number(u16),
}

pub enum ImmediateView {
    Label(Seq<char>, SourceSpan),
    Number(u16),
}

impl View for Immediate {
    type V = ImmediateView;

    open spec fn view(&self) -> ImmediateView {
        match self {
            Immediate::Label(l) => ImmediateView::Label(l.label@, l.source_span),
            Immediate::Number(n) => ImmediateView::Number(*n),
        }
    }
}

/// A node of a segment's code.
#[derive(Debug, PartialEq, Eq, Hash)]
pub enum Code {
    Block { label: LabelRef, contents: Vec<Code> },
    String(String),
    Number(u16),
    Instruction { opcode: Opcode, dst: Register, src: Register },
    ImmediateInstruction { opcode: Opcode, dst: Register, src: Register, imm: Immediate },
    RCSR { dst: Register, src: ControlStatusRegister },
    WCSR { dst: ControlStatusRegister, src: Register },
    JSH { imm: Immediate },
}

pub enum CodeView {
    Block { label: Seq<char>, span: SourceSpan, contents: Seq<CodeView> },
    String(Seq<char>),
    Number(u16),
    Instruction { opcode: Opcode, dst: Register, src: Register },
    ImmediateInstruction { opcode: Opcode, dst: Register, src: Register, imm: ImmediateView },
    Rcsr { dst: Register, src: ControlStatusRegister },
    Wcsr { dst: ControlStatusRegister, src: Register },
    Jsh { imm: ImmediateView },
}

pub open spec fn view_code(c: Code) -> CodeView
    decreases c,
{
    match c {
        Code::Block { label, contents } => CodeView::Block {
            label: label.label@,
            span: label.source_span,
            contents: Seq::new(
                contents@.len(),
                |i: int|
                    if 0 <= i < contents@.len() {
                        view_code(contents@[i])
                    } else {
                        CodeView::Number(0)
                    },
            ),
        },
        Code::String(s) => CodeView::String(s@),
        Code::Number(n) => CodeView::Number(n),
        Code::Instruction { opcode, dst, src } => CodeView::Instruction { opcode, dst, src },
        Code::ImmediateInstruction { opcode, dst, src, imm } => CodeView::ImmediateInstruction {
            opcode,
            dst,
            src,
            imm: imm@,
        },
        Code::RCSR { dst, src } => CodeView::Rcsr { dst, src },
        Code::WCSR { dst, src } => CodeView::Wcsr { dst, src },
        Code::JSH { imm } => CodeView::Jsh { imm: imm@ },
    }
}

pub open spec fn view_codes(cs: Seq<Code>) -> Seq<CodeView> {
    Seq::new(cs.len(), |i: int| view_code(cs[i]))
}

impl View for Code {
    type V = CodeView;

    open spec fn view(&self) -> CodeView {
        view_code(*self)
    }
}

/// A parsed program: the exported labels, and the code of each of the eight segments.
#[derive(Debug, PartialEq, Eq, Hash)]
pub struct Program {
    pub exports: Vec<LabelRef>,
    pub segments: Vec<Vec<Code>>,
}

pub struct ProgramView {
    pub exports: Seq<(Seq<char>, SourceSpan)>,
    pub segments: Seq<Seq<CodeView>>,
}

impl View for Program {
    type V = ProgramView;

    open spec fn view(&self) -> ProgramView {
        ProgramView {
            exports: self.exports@.map_values(|l: LabelRef| l@),
            segments: self.segments@.map_values(|s: Vec<Code>| view_codes(s@)),
        }
    }
}

/// What the parser was looking for when it failed.
#[derive(Debug, Clone, Copy, PartialEq, Eq, Hash, Structural)]
pub enum Expected {
    LeftParen,
    ExportOrSegment,
    Label,
    SegmentPermissions,
    RightParen,
    LiteralOrLeftParen,
    BlockOrOpcode,
    Register,
    ControlStatusRegister,
    Immediate,
}

/// Why the source is not a program. `opening` is the span of the parenthesis whose form
/// was being read, where the form is unclosed.
#[derive(Debug, Clone, Copy, PartialEq, Eq, Hash, Structural)]
pub enum ParseError {
    Lex(LexError),
    UnexpectedToken { expected: Expected, found: SourceSpan, opening: Option<SourceSpan> },
    UnexpectedEof { expected: Expected, opening: Option<SourceSpan> },
}

pub type Tokens = Seq<(TokenView, SourceSpan)>;

/// The error at the end of the tokens: the lexer's, if it stopped on one, else the end of
/// the source.
pub open spec fn end_error(le: Option<LexError>, expected: Expected, opening: Option<SourceSpan>) -> ParseError {
    match le {
        Some(e) => ParseError::Lex(e),
        None => ParseError::UnexpectedEof { expected, opening },
    }
}

pub open spec fn unexpected(ts: Tokens, i: int, expected: Expected, opening: Option<SourceSpan>) -> ParseError {
    ParseError::UnexpectedToken { expected, found: ts[i].1, opening }
}

pub open spec fn parse_register_at(ts: Tokens, le: Option<LexError>, i: int) -> Result<Register, ParseError> {
    if i >= ts.len() {
        Err(end_error(le, Expected::Register, None))
    } else {
        match ts[i].0 {
            TokenView::Register(r) => Ok(r),
            _ => Err(unexpected(ts, i, Expected::Register, None)),
        }
    }
}

pub open spec fn parse_csr_at(ts: Tokens, le: Option<LexError>, i: int) -> Result<ControlStatusRegister, ParseError> {
    if i >= ts.len() {
        Err(end_error(le, Expected::ControlStatusRegister, None))
    } else {
        match ts[i].0 {
            TokenView::ControlStatusRegister(c) => Ok(c),
            _ => Err(unexpected(ts, i, Expected::ControlStatusRegister, None)),
        }
    }
}

pub open spec fn parse_immediate_at(ts: Tokens, le: Option<LexError>, i: int) -> Result<ImmediateView, ParseError> {
    if i >= ts.len() {
        Err(end_error(le, Expected::Immediate, None))
    } else {
        match ts[i].0 {
            TokenView::Label(l) => Ok(ImmediateView::Label(l, ts[i].1)),
            TokenView::Number(n) => Ok(ImmediateView::Number(n)),
            _ => Err(unexpected(ts, i, Expected::Immediate, None)),
        }
    }
}

/// The closing parenthesis of the form opened at `opening`.
pub open spec fn parse_close_at(ts: Tokens, le: Option<LexError>, i: int, opening: SourceSpan) -> Result<(), ParseError> {
    if i >= ts.len() {
        Err(end_error(le, Expected::RightParen, Some(opening)))
    } else {
        match ts[i].0 {
            TokenView::RightParen => Ok(()),
            _ => Err(unexpected(ts, i, Expected::RightParen, Some(opening))),
        }
    }
}

/// The operands and closing parenthesis of an instruction whose opcode came just before
/// index `i`.
pub open spec fn parse_instruction(ts: Tokens, le: Option<LexError>, i: int, op: Opcode, opening: SourceSpan) -> Result<(CodeView, int), ParseError> {
    if op == Opcode::JSH {
        match parse_immediate_at(ts, le, i) {
            Err(e) => Err(e),
            Ok(imm) => match parse_close_at(ts, le, i + 1, opening) {
                Err(e) => Err(e),
                Ok(_) => Ok((CodeView::Jsh { imm }, i + 2)),
            },
        }
    } else if op == Opcode::WCSR {
        match parse_csr_at(ts, le, i) {
            Err(e) => Err(e),
            Ok(dst) => match parse_register_at(ts, le, i + 1) {
                Err(e) => Err(e),
                Ok(src) => match parse_close_at(ts, le, i + 2, opening) {
                    Err(e) => Err(e),
                    Ok(_) => Ok((CodeView::Wcsr { dst, src }, i + 3)),
                },
            },
        }
    } else if op == Opcode::RCSR {
        match parse_register_at(ts, le, i) {
            Err(e) => Err(e),
            Ok(dst) => match parse_csr_at(ts, le, i + 1) {
                Err(e) => Err(e),
                Ok(src) => match parse_close_at(ts, le, i + 2, opening) {
                    Err(e) => Err(e),
                    Ok(_) => Ok((CodeView::Rcsr { dst, src }, i + 3)),
                },
            },
        }
    } else {
        match parse_register_at(ts, le, i) {
            Err(e) => Err(e),
            Ok(dst) => match parse_register_at(ts, le, i + 1) {
                Err(e) => Err(e),
                Ok(src) => if op.spec_code() & 0x08 != 0 {
                    match parse_immediate_at(ts, le, i + 2) {
                        Err(e) => Err(e),
                        Ok(imm) => match parse_close_at(ts, le, i + 3, opening) {
                            Err(e) => Err(e),
                            Ok(_) => Ok((CodeView::ImmediateInstruction { opcode: op, dst, src, imm }, i + 4)),
                        },
                    }
                } else {
                    match parse_close_at(ts, le, i + 2, opening) {
                        Err(e) => Err(e),
                        Ok(_) => Ok((CodeView::Instruction { opcode: op, dst, src }, i + 3)),
                    }
                },
            },
        }
    }
}

/// One node of code starting at index `i`, with the index just past it.
pub open spec fn parse_code(ts: Tokens, le: Option<LexError>, i: int) -> Result<(CodeView, int), ParseError>
    decreases ts.len() - i, 0nat,
{
    if i < 0 || i >= ts.len() {
        Err(end_error(le, Expected::LiteralOrLeftParen, None))
    } else {
        match ts[i].0 {
            TokenView::String(s) => Ok((CodeView::String(s), i + 1)),
            TokenView::Number(n) => Ok((CodeView::Number(n), i + 1)),
            TokenView::LeftParen => {
                let opening = ts[i].1;
                if i + 1 >= ts.len() {
                    Err(end_error(le, Expected::BlockOrOpcode, None))
                } else {
                    match ts[i + 1].0 {
                        TokenView::Opcode(op) => parse_instruction(ts, le, i + 2, op, opening),
                        TokenView::Block => if i + 2 >= ts.len() {
                            Err(end_error(le, Expected::Label, None))
                        } else {
                            match ts[i + 2].0 {
                                TokenView::Label(l) => match parse_codes(ts, le, i + 3, opening) {
                                    Err(e) => Err(e),
                                    Ok((contents, j)) => Ok((CodeView::Block { label: l, span: ts[i + 2].1, contents }, j)),
                                },
                                _ => Err(unexpected(ts, i + 2, Expected::Label, None)),
                            }
                        },
                        _ => Err(unexpected(ts, i + 1, Expected::BlockOrOpcode, None)),
                    }
                }
            },
            _ => Err(unexpected(ts, i, Expected::LiteralOrLeftParen, None)),
        }
    }
}

/// Nodes of code from index `i` up to the closing parenthesis of the form opened at
/// `opening`, with the index just past that parenthesis.
pub open spec fn parse_codes(ts: Tokens, le: Option<LexError>, i: int, opening: SourceSpan) -> Result<(Seq<CodeView>, int), ParseError>
    decreases ts.len() - i, 1nat,
{
    if i < 0 || i >= ts.len() {
        Err(end_error(le, Expected::RightParen, Some(opening)))
    } else if ts[i].0 is RightParen {
        Ok((Seq::empty(), i + 1))
    } else {
        match parse_code(ts, le, i) {
            Err(e) => Err(e),
            Ok((c, j)) => if i < j <= ts.len() {
                match parse_codes(ts, le, j, opening) {
                    Err(e) => Err(e),
                    Ok((cs, k)) => Ok((seq![c] + cs, k)),
                }
            } else {
                Err(end_error(le, Expected::RightParen, Some(opening)))
            },
        }
    }
}

/// The labels of an export form, from index `i` up to its closing parenthesis.
pub open spec fn parse_export_labels(ts: Tokens, le: Option<LexError>, i: int, opening: SourceSpan) -> Result<(Seq<(Seq<char>, SourceSpan)>, int), ParseError>
    decreases ts.len() - i,
{
    if i < 0 || i >= ts.len() {
        Err(end_error(le, Expected::RightParen, Some(opening)))
    } else {
        match ts[i].0 {
            TokenView::RightParen => Ok((Seq::empty(), i + 1)),
            TokenView::Label(l) => match parse_export_labels(ts, le, i + 1, opening) {
                Err(e) => Err(e),
                Ok((ls, j)) => Ok((seq![(l, ts[i].1)] + ls, j)),
            },
            _ => Err(unexpected(ts, i, Expected::Label, None)),
        }
    }
}

/// The top-level forms from index `i` on, added to what the earlier forms gave.
pub open spec fn parse_forms(ts: Tokens, le: Option<LexError>, i: int, exports: Seq<(Seq<char>, SourceSpan)>, segments: Seq<Seq<CodeView>>) -> Result<ProgramView, ParseError>
    decreases ts.len() - i,
{
    if i < 0 || i >= ts.len() {
        match le {
            Some(e) => Err(ParseError::Lex(e)),
            None => Ok(ProgramView { exports, segments }),
        }
    } else if !(ts[i].0 is LeftParen) {
        Err(unexpected(ts, i, Expected::LeftParen, None))
    } else if i + 1 >= ts.len() {
        Err(end_error(le, Expected::ExportOrSegment, None))
    } else {
        let opening = ts[i].1;
        match ts[i + 1].0 {
            TokenView::Export => match parse_export_labels(ts, le, i + 2, opening) {
                Err(e) => Err(e),
                Ok((ls, j)) => if i < j <= ts.len() {
                    parse_forms(ts, le, j, exports + ls, segments)
                } else {
                    Err(end_error(le, Expected::RightParen, Some(opening)))
                },
            },
            TokenView::Segment => if i + 2 >= ts.len() {
                Err(end_error(le, Expected::RightParen, Some(opening)))
            } else {
                match ts[i + 2].0 {
                    TokenView::SegmentPermissions(p) => match parse_codes(ts, le, i + 3, opening) {
                        Err(e) => Err(e),
                        Ok((cs, j)) => if i < j <= ts.len() {
                            let k = p.spec_value() as int;
                            parse_forms(ts, le, j, exports, segments.update(k, segments[k] + cs))
                        } else {
                            Err(end_error(le, Expected::RightParen, Some(opening)))
                        },
                    },
                    _ => Err(unexpected(ts, i + 2, Expected::SegmentPermissions, None)),
                }
            },
            _ => Err(unexpected(ts, i + 1, Expected::ExportOrSegment, None)),
        }
    }
}

pub open spec fn empty_segments() -> Seq<Seq<CodeView>> {
    Seq::new(8, |i: int| Seq::<CodeView>::empty())
}

/// The program that the tokens (and the lexer's error, if any) make.
pub open spec fn parse_tokens(ts: Tokens, le: Option<LexError>) -> Result<ProgramView, ParseError> {
    parse_forms(ts, le, 0, Seq::empty(), empty_segments())
}

/// The program that source text makes.
pub open spec fn parse_source(s: Seq<char>) -> Result<ProgramView, ParseError> {
    parse_tokens(lex_all(s, 0).0, lex_all(s, 0).1)
}


pub open spec fn prepend_codes(head: Seq<CodeView>, r: Result<(Seq<CodeView>, int), ParseError>) -> Result<(Seq<CodeView>, int), ParseError> {
    match r {
        Ok((tail, k)) => Ok((head + tail, k)),
        Err(e) => Err(e),
    }
}

pub open spec fn prepend_labels(head: Seq<(Seq<char>, SourceSpan)>, r: Result<(Seq<(Seq<char>, SourceSpan)>, int), ParseError>) -> Result<(Seq<(Seq<char>, SourceSpan)>, int), ParseError> {
    match r {
        Ok((tail, k)) => Ok((head + tail, k)),
        Err(e) => Err(e),
    }
}

proof fn lemma_view_codes_push(cs: Seq<Code>, c: Code)
    ensures
        view_codes(cs.push(c)) == view_codes(cs).push(view_code(c)),
{
    assert(view_codes(cs.push(c)) =~= view_codes(cs).push(view_code(c)));
}

proof fn lemma_view_codes_append(a: Seq<Code>, b: Seq<Code>)
    ensures
        view_codes(a + b) == view_codes(a) + view_codes(b),
{
    assert(view_codes(a + b) =~= view_codes(a) + view_codes(b));
}

/// A recursive-descent parser over the tokens of one source text.
pub struct Parser {
    tokens: Vec<Token>,
    end: Option<LexError>,
}

impl Parser {
    /// The tokens, each with its span.
    pub closed spec fn tokens(&self) -> Tokens {
        self.tokens@.map_values(|t: Token| token_view(t))
    }

    /// The lexer's error that ended the tokens, if one did.
    pub closed spec fn lex_error(&self) -> Option<LexError> {
        self.end
    }

    pub fn new(source: &str) -> (r: Parser)
        requires
            byte_len(source@) <= usize::MAX,
        ensures
            r.tokens() == lex_all(source@, 0).0,
            r.lex_error() == lex_all(source@, 0).1,
    {
        let (tokens, end) = tokenize(source);
        Parser { tokens, end }
    }

    fn at_end(&self, expected: Expected, opening: Option<SourceSpan>) -> (r: ParseError)
        ensures
            r == end_error(self.lex_error(), expected, opening),
    {
        match self.end {
            Some(e) => ParseError::Lex(e),
            None => ParseError::UnexpectedEof { expected, opening },
        }
    }

    fn unexpected_at(&self, i: usize, expected: Expected, opening: Option<SourceSpan>) -> (r: ParseError)
        requires
            i < self.tokens().len(),
        ensures
            r == unexpected(self.tokens(), i as int, expected, opening),
    {
        ParseError::UnexpectedToken { expected, found: self.tokens[i].source_span, opening }
    }

    pub fn parse_register(&self, i: usize) -> (r: Result<Register, ParseError>)
        ensures
            r == parse_register_at(self.tokens(), self.lex_error(), i as int),
    {
        if i >= self.tokens.len() {
            return Err(self.at_end(Expected::Register, None));
        }
        match &self.tokens[i].token_kind {
            TokenKind::Register(r) => Ok(*r),
            _ => Err(self.unexpected_at(i, Expected::Register, None)),
        }
    }

    pub fn parse_control_status_register(&self, i: usize) -> (r: Result<ControlStatusRegister, ParseError>)
        ensures
            r == parse_csr_at(self.tokens(), self.lex_error(), i as int),
    {
        if i >= self.tokens.len() {
            return Err(self.at_end(Expected::ControlStatusRegister, None));
        }
        match &self.tokens[i].token_kind {
            TokenKind::ControlStatusRegister(c) => Ok(*c),
            _ => Err(self.unexpected_at(i, Expected::ControlStatusRegister, None)),
        }
    }

    pub fn parse_immediate(&self, i: usize) -> (r: Result<Immediate, ParseError>)
        ensures
            match parse_immediate_at(self.tokens(), self.lex_error(), i as int) {
                Ok(v) => r matches Ok(x) && x@ == v,
                Err(e) => r == Err::<Immediate, ParseError>(e),
            },
    {
        if i >= self.tokens.len() {
            return Err(self.at_end(Expected::Immediate, None));
        }
        match &self.tokens[i].token_kind {
            TokenKind::Label(l) => Ok(Immediate::Label(LabelRef { label: l.clone(), source_span: self.tokens[i].source_span })),
            TokenKind::Number(n) => Ok(Immediate::Number(*n)),
            _ => Err(self.unexpected_at(i, Expected::Immediate, None)),
        }
    }

    fn expect_close(&self, i: usize, opening: SourceSpan) -> (r: Result<(), ParseError>)
        ensures
            r == parse_close_at(self.tokens(), self.lex_error(), i as int, opening),
    {
        if i >= self.tokens.len() {
            return Err(self.at_end(Expected::RightParen, Some(opening)));
        }
        match &self.tokens[i].token_kind {
            TokenKind::RightParen => Ok(()),
            _ => Err(self.unexpected_at(i, Expected::RightParen, Some(opening))),
        }
    }

    fn parse_instruction(&self, i: usize, op: Opcode, opening: SourceSpan) -> (r: Result<(Code, usize), ParseError>)
        requires
            i <= self.tokens().len(),
        ensures
            match parse_instruction(self.tokens(), self.lex_error(), i as int, op, opening) {
                Ok((v, j)) => r matches Ok((c, k)) && c@ == v && k == j && k <= self.tokens().len(),
                Err(e) => r == Err::<(Code, usize), ParseError>(e),
            },
    {
        let _n = self.tokens.len();
        assert(self.tokens().len() == self.tokens().len());
        if op == Opcode::JSH {
            let imm = self.parse_immediate(i)?;
            self.expect_close(i + 1, opening)?;
            Ok((Code::JSH { imm }, i + 2))
        } else if op == Opcode::WCSR {
            let dst = self.parse_control_status_register(i)?;
            let src = self.parse_register(i + 1)?;
            self.expect_close(i + 2, opening)?;
            Ok((Code::WCSR { dst, src }, i + 3))
        } else if op == Opcode::RCSR {
            let dst = self.parse_register(i)?;
            let src = self.parse_control_status_register(i + 1)?;
            self.expect_close(i + 2, opening)?;
            Ok((Code::RCSR { dst, src }, i + 3))
        } else {
            let dst = self.parse_register(i)?;
            let src = self.parse_register(i + 1)?;
            if op.code() & 0x08 != 0 {
                let imm = self.parse_immediate(i + 2)?;
                self.expect_close(i + 3, opening)?;
                Ok((Code::ImmediateInstruction { opcode: op, dst, src, imm }, i + 4))
            } else {
                self.expect_close(i + 2, opening)?;
                Ok((Code::Instruction { opcode: op, dst, src }, i + 3))
            }
        }
    }

    /// One node of code at index `i`, with the index just past it.
    pub fn parse_code(&self, i: usize) -> (r: Result<(Code, usize), ParseError>)
        requires
            i <= self.tokens().len(),
        ensures
            match parse_code(self.tokens(), self.lex_error(), i as int) {
                Ok((v, j)) => r matches Ok((c, k)) && c@ == v && k == j && k <= self.tokens().len(),
                Err(e) => r == Err::<(Code, usize), ParseError>(e),
            },
        decreases self.tokens().len() - i, 0nat,
    {
        let n = self.tokens.len();
        assert(self.tokens().len() == n);
        if i >= n {
            return Err(self.at_end(Expected::LiteralOrLeftParen, None));
        }
        match &self.tokens[i].token_kind {
            TokenKind::String(s) => {
                return Ok((Code::String(s.clone()), i + 1));
            },
            TokenKind::Number(v) => {
                return Ok((Code::Number(*v), i + 1));
            },
            TokenKind::LeftParen => {},
            _ => {
                return Err(self.unexpected_at(i, Expected::LiteralOrLeftParen, None));
            },
        }
        let opening = self.tokens[i].source_span;
        if i + 1 >= n {
            return Err(self.at_end(Expected::BlockOrOpcode, None));
        }
        match &self.tokens[i + 1].token_kind {
            TokenKind::Opcode(op) => {
                return self.parse_instruction(i + 2, *op, opening);
            },
            TokenKind::Block => {},
            _ => {
                return Err(self.unexpected_at(i + 1, Expected::BlockOrOpcode, None));
            },
        }
        if i + 2 >= n {
            return Err(self.at_end(Expected::Label, None));
        }
        let label = match &self.tokens[i + 2].token_kind {
            TokenKind::Label(l) => LabelRef { label: l.clone(), source_span: self.tokens[i + 2].source_span },
            _ => {
                return Err(self.unexpected_at(i + 2, Expected::Label, None));
            },
        };
        let (contents, j) = self.parse_codes(i + 3, opening)?;
        let code = Code::Block { label, contents };
        proof {
            if let CodeView::Block { contents: cv, .. } = code@ {
                assert(cv =~= view_codes(contents@));
            }
        }
        Ok((code, j))
    }

    /// Nodes of code from index `i` up to the closing parenthesis of the form opened at
    /// `opening`, with the index just past that parenthesis.
    fn parse_codes(&self, i: usize, opening: SourceSpan) -> (r: Result<(Vec<Code>, usize), ParseError>)
        requires
            i <= self.tokens().len(),
        ensures
            match parse_codes(self.tokens(), self.lex_error(), i as int, opening) {
                Ok((v, j)) => r matches Ok((cs, k)) && view_codes(cs@) == v && k == j && k <= self.tokens().len(),
                Err(e) => r == Err::<(Vec<Code>, usize), ParseError>(e),
            },
        decreases self.tokens().len() - i, 1nat,
    {
        let n = self.tokens.len();
        let ghost ts = self.tokens();
        let ghost le = self.lex_error();
        assert(ts.len() == n);
        let mut acc: Vec<Code> = Vec::new();
        let mut p = i;
        assert(view_codes(acc@) =~= Seq::<CodeView>::empty());
        loop
            invariant
                i <= p <= n,
                n == self.tokens().len(),
                ts == self.tokens(),
                le == self.lex_error(),
                ts.len() == n,
                parse_codes(ts, le, i as int, opening) == prepend_codes(view_codes(acc@), parse_codes(ts, le, p as int, opening)),
            decreases n - p,
        {
            if p >= n {
                return Err(self.at_end(Expected::RightParen, Some(opening)));
            }
            if let TokenKind::RightParen = &self.tokens[p].token_kind {
                assert(view_codes(acc@) + Seq::<CodeView>::empty() =~= view_codes(acc@));
                return Ok((acc, p + 1));
            }
            let (c, j) = match self.parse_code(p) {
                Ok(x) => x,
                Err(e) => {
                    return Err(e);
                },
            };
            if !(p < j && j <= n) {
                return Err(self.at_end(Expected::RightParen, Some(opening)));
            }
            proof {
                lemma_view_codes_push(acc@, c);
                match parse_codes(ts, le, j as int, opening) {
                    Ok((v, k)) => {
                        assert(view_codes(acc@).push(c@) + v =~= view_codes(acc@) + (seq![c@] + v));
                    },
                    Err(e) => {},
                }
            }
            acc.push(c);
            p = j;
        }
    }

    /// The labels of an export form from index `i` up to its closing parenthesis.
    fn parse_export_labels(&self, i: usize, opening: SourceSpan) -> (r: Result<(Vec<LabelRef>, usize), ParseError>)
        requires
            i <= self.tokens().len(),
        ensures
            match parse_export_labels(self.tokens(), self.lex_error(), i as int, opening) {
                Ok((v, j)) => r matches Ok((ls, k)) && ls@.map_values(|l: LabelRef| l@) == v && k == j && k <= self.tokens().len(),
                Err(e) => r == Err::<(Vec<LabelRef>, usize), ParseError>(e),
            },
    {
        let n = self.tokens.len();
        let ghost ts = self.tokens();
        let ghost le = self.lex_error();
        let ghost lv = |l: LabelRef| l@;
        assert(ts.len() == n);
        let mut acc: Vec<LabelRef> = Vec::new();
        let mut p = i;
        assert(acc@.map_values(lv) =~= Seq::<(Seq<char>, SourceSpan)>::empty());
        loop
            invariant
                i <= p <= n,
                n == self.tokens().len(),
                ts == self.tokens(),
                le == self.lex_error(),
                ts.len() == n,
                lv == (|l: LabelRef| l@),
                parse_export_labels(ts, le, i as int, opening) == prepend_labels(acc@.map_values(lv), parse_export_labels(ts, le, p as int, opening)),
            decreases n - p,
        {
            if p >= n {
                return Err(self.at_end(Expected::RightParen, Some(opening)));
            }
            let label = match &self.tokens[p].token_kind {
                TokenKind::RightParen => {
                    assert(acc@.map_values(lv) + Seq::<(Seq<char>, SourceSpan)>::empty() =~= acc@.map_values(lv));
                    return Ok((acc, p + 1));
                },
                TokenKind::Label(l) => LabelRef { label: l.clone(), source_span: self.tokens[p].source_span },
                _ => {
                    return Err(self.unexpected_at(p, Expected::Label, None));
                },
            };
            proof {
                assert(acc@.push(label).map_values(lv) =~= acc@.map_values(lv).push(label@));
                match parse_export_labels(ts, le, p + 1, opening) {
                    Ok((v, k)) => {
                        assert(acc@.map_values(lv).push(label@) + v =~= acc@.map_values(lv) + (seq![label@] + v));
                    },
                    Err(e) => {},
                }
            }
            acc.push(label);
            p = p + 1;
        }
    }

    /// Parses the whole source into a program.
    pub fn parse(self) -> (r: Result<Program, ParseError>)
        ensures
            match parse_tokens(self.tokens(), self.lex_error()) {
                Ok(v) => r matches Ok(p) && p@ == v && p.segments@.len() == 8,
                Err(e) => r == Err::<Program, ParseError>(e),
            },
    {
        let n = self.tokens.len();
        let ghost ts = self.tokens();
        let ghost le = self.lex_error();
        let ghost cv = |s: Vec<Code>| view_codes(s@);
        let ghost lv = |l: LabelRef| l@;
        assert(ts.len() == n);
        let mut exports: Vec<LabelRef> = Vec::new();
        let mut segments: Vec<Vec<Code>> = Vec::new();
        let mut k: usize = 0;
        while k < 8
            invariant
                k <= 8,
                segments@.len() == k,
                forall|m: int| 0 <= m < k ==> (#[trigger] segments@[m])@.len() == 0,
            decreases 8 - k,
        {
            segments.push(Vec::new());
            k = k + 1;
        }
        assert forall|m: int| 0 <= m < 8 implies #[trigger] segments@.map_values(cv)[m] == empty_segments()[m] by {
            assert(view_codes(segments@[m]@) =~= Seq::<CodeView>::empty());
        }
        assert(segments@.map_values(cv) =~= empty_segments());
        assert(exports@.map_values(lv) =~= Seq::<(Seq<char>, SourceSpan)>::empty());
        let mut p: usize = 0;
        loop
            invariant
                p <= n,
                n == self.tokens().len(),
                ts == self.tokens(),
                le == self.lex_error(),
                ts.len() == n,
                cv == (|s: Vec<Code>| view_codes(s@)),
                lv == (|l: LabelRef| l@),
                segments@.len() == 8,
                parse_tokens(ts, le) == parse_forms(ts, le, p as int, exports@.map_values(lv), segments@.map_values(cv)),
            decreases n - p,
        {
            if p >= n {
                return match self.end {
                    Some(e) => Err(ParseError::Lex(e)),
                    None => Ok(Program { exports, segments }),
                };
            }
            match &self.tokens[p].token_kind {
                TokenKind::LeftParen => {},
                _ => {
                    return Err(self.unexpected_at(p, Expected::LeftParen, None));
                },
            }
            if p + 1 >= n {
                return Err(self.at_end(Expected::ExportOrSegment, None));
            }
            let opening = self.tokens[p].source_span;
            match &self.tokens[p + 1].token_kind {
                TokenKind::Export => {
                    let (mut labels, j) = self.parse_export_labels(p + 2, opening)?;
                    if !(p < j && j <= n) {
                        return Err(self.at_end(Expected::RightParen, Some(opening)));
                    }
                    let ghost before = exports@;
                    let ghost added = labels@;
                    exports.append(&mut labels);
                    proof {
                        assert(exports@ == before + added);
                        assert(exports@.map_values(lv) =~= before.map_values(lv) + added.map_values(lv));
                    }
                    p = j;
                },
                TokenKind::Segment => {
                    if p + 2 >= n {
                        return Err(self.at_end(Expected::RightParen, Some(opening)));
                    }
                    let perms = match &self.tokens[p + 2].token_kind {
                        TokenKind::SegmentPermissions(perms) => *perms,
                        _ => {
                            return Err(self.unexpected_at(p + 2, Expected::SegmentPermissions, None));
                        },
                    };
                    let (mut codes, j) = self.parse_codes(p + 3, opening)?;
                    if !(p < j && j <= n) {
                        return Err(self.at_end(Expected::RightParen, Some(opening)));
                    }
                    let index = perms.value() as usize;
                    let ghost before = segments@;
                    let ghost added = codes@;
                    let mut segment = segments.remove(index);
                    let ghost old_segment = segment@;
                    segment.append(&mut codes);
                    let ghost new_segment = segment;
                    segments.insert(index, segment);
                    proof {
                        lemma_view_codes_append(old_segment, added);
                        assert(segments@ =~= before.update(index as int, new_segment));
                        assert(segments@.map_values(cv) =~= before.map_values(cv).update(index as int, before.map_values(cv)[index as int] + view_codes(added)));
                    }
                    p = j;
                },
                _ => {
                    return Err(self.unexpected_at(p + 1, Expected::ExportOrSegment, None));
                },
            }
        }
    }
}

} // verus!
