use vstd::prelude::*;

use crate::isa::{ControlStatusRegister, Named, Opcode, Register};
use vstd::std_specs::iter::IteratorSpec;

verus! {

/// Whether a character has Unicode's XID_Start property.
pub uninterp spec fn xid_start(c: char) -> bool;

/// Whether a character has Unicode's XID_Continue property.
pub uninterp spec fn xid_continue(c: char) -> bool;

/// Relies on unicode_ident::is_xid_start: the XID_Start property of `c`.
#[verifier::external_body]
fn is_xid_start(c: char) -> (r: bool)
    ensures
        r == xid_start(c),
{
    unicode_ident::is_xid_start(c)
}

/// Relies on unicode_ident::is_xid_continue: the XID_Continue property of `c`.
#[verifier::external_body]
fn is_xid_continue(c: char) -> (r: bool)
    ensures
        r == xid_continue(c),
{
    unicode_ident::is_xid_continue(c)
}

/// The characters of `s`.
pub(crate) fn chars_of(s: &str) -> (r: Vec<char>)
    ensures
        r@ == s@,
{
    let mut out: Vec<char> = Vec::new();
    let mut it = s.chars();
    broadcast use vstd::string::axiom_spec_iter, vstd::string::next_postcondition;
    loop
        invariant
            it.obeys_prophetic_iter_laws(),
            out@ + it.remaining() == s@,
        decreases s@.len() - out@.len(),
    {
        let ghost before = it.remaining();
        match it.next() {
            Some(c) => {
                assert(out@.push(c) + it.remaining() =~= out@ + before);
                out.push(c);
            },
            None => {
                assert(out@ + Seq::<char>::empty() =~= out@);
                return out;
            },
        }
    }
}

/// The number of bytes of a character's UTF-8 encoding.
pub open spec fn utf8_len(c: char) -> nat {
    let v = c as u32;
    if v < 0x80 {
        1
    } else if v < 0x800 {
        2
    } else if v < 0x10000 {
        3
    } else {
        4
    }
}

/// The number of bytes of the UTF-8 encoding of a string.
pub open spec fn byte_len(s: Seq<char>) -> nat
    decreases s.len(),
{
    if s.len() == 0 {
        0
    } else {
        byte_len(s.drop_last()) + utf8_len(s.last())
    }
}

/// The byte offset of the character at index `pos`.
pub open spec fn byte_offset(s: Seq<char>, pos: int) -> nat {
    byte_len(s.take(pos))
}

/// Unicode's White_Space property.
pub open spec fn is_white_space(c: char) -> bool {
    let v = c as u32;
    ||| 0x09 <= v <= 0x0d
    ||| v == 0x20
    ||| v == 0x85
    ||| v == 0xa0
    ||| v == 0x1680
    ||| 0x2000 <= v <= 0x200a
    ||| v == 0x2028
    ||| v == 0x2029
    ||| v == 0x202f
    ||| v == 0x205f
    ||| v == 0x3000
}

/// The value of a digit in radices up to 36; 36 for a character that is no digit.
pub open spec fn digit_value(c: char) -> nat {
    let v = c as u32;
    if '0' <= c <= '9' {
        (v - 0x30) as nat
    } else if 'a' <= c <= 'z' {
        (v - 0x61 + 10) as nat
    } else if 'A' <= c <= 'Z' {
        (v - 0x41 + 10) as nat
    } else {
        36
    }
}

pub open spec fn is_digit(c: char, radix: nat) -> bool {
    digit_value(c) < radix
}

/// The number that a string of digits denotes.
pub open spec fn digits_value(d: Seq<char>, radix: nat) -> nat
    decreases d.len(),
{
    if d.len() == 0 {
        0
    } else {
        digits_value(d.drop_last(), radix) * radix + digit_value(d.last())
    }
}

pub open spec fn lower_char(c: char) -> char {
    if 'A' <= c <= 'Z' {
        ((c as u32) + 32) as char
    } else {
        c
    }
}

/// A word with its ASCII letters in lower case.
pub open spec fn lowered(w: Seq<char>) -> Seq<char> {
    w.map_values(|c: char| lower_char(c))
}

/// The first item of `list` whose keyword is `w`.
pub open spec fn first_named<T: Named>(list: Seq<T>, w: Seq<char>) -> Option<T>
    decreases list.len(),
{
    if list.len() == 0 {
        None
    } else if list[0].name() == w {
        Some(list[0])
    } else {
        first_named(list.drop_first(), w)
    }
}

/// The permissions of a segment: readable, writable, executable.
#[derive(Debug, Clone, Copy, PartialEq, Eq, Hash, Structural)]
pub struct SegmentPermissions {
    pub readable: bool,
    pub writable: bool,
    pub executable: bool,
}

/// A word that names no segment permissions.
#[derive(Debug, Clone, Copy, PartialEq, Eq, Hash, Structural)]
pub struct ParseSegmentPermissionsError;

pub open spec fn permissions(readable: bool, writable: bool, executable: bool) -> SegmentPermissions {
    SegmentPermissions { readable, writable, executable }
}

/// The permissions a word spells: `x`, `w`, `wx`, `r`, `rx`, `rw` or `rwx`, in that letter
/// order and in lower case.
pub open spec fn permissions_of(w: Seq<char>) -> Option<SegmentPermissions> {
    if w == seq!['x'] {
        Some(permissions(false, false, true))
    } else if w == seq!['w'] {
        Some(permissions(false, true, false))
    } else if w == seq!['w', 'x'] {
        Some(permissions(false, true, true))
    } else if w == seq!['r'] {
        Some(permissions(true, false, false))
    } else if w == seq!['r', 'x'] {
        Some(permissions(true, false, true))
    } else if w == seq!['r', 'w'] {
        Some(permissions(true, true, false))
    } else if w == seq!['r', 'w', 'x'] {
        Some(permissions(true, true, true))
    } else {
        None
    }
}

impl SegmentPermissions {
    /// The permissions as three bits: readable, writable, executable, from high to low.
    pub open spec fn spec_value(self) -> u16 {
        ((if self.readable { 4int } else { 0 }) + (if self.writable { 2int } else { 0 }) + (if self.executable { 1int } else { 0 })) as u16
    }

    pub fn value(self) -> (r: u16)
        ensures
            r == self.spec_value(),
            r < 8,
    {
        (if self.readable { 4 } else { 0 }) + (if self.writable { 2 } else { 0 }) + (if self.executable { 1 } else { 0 })
    }

    pub fn from_word(w: &Vec<char>) -> (r: Result<SegmentPermissions, ParseSegmentPermissionsError>)
        ensures
            match permissions_of(w@) {
                Some(p) => r == Ok::<SegmentPermissions, ParseSegmentPermissionsError>(p),
                None => r is Err,
            },
    {
        let n = w.len();
        let (readable, writable, executable) = if n == 1 && w[0] == 'x' {
            (false, false, true)
        } else if n == 1 && w[0] == 'w' {
            (false, true, false)
        } else if n == 2 && w[0] == 'w' && w[1] == 'x' {
            (false, true, true)
        } else if n == 1 && w[0] == 'r' {
            (true, false, false)
        } else if n == 2 && w[0] == 'r' && w[1] == 'x' {
            (true, false, true)
        } else if n == 2 && w[0] == 'r' && w[1] == 'w' {
            (true, true, false)
        } else if n == 3 && w[0] == 'r' && w[1] == 'w' && w[2] == 'x' {
            (true, true, true)
        } else {
            proof {
                if permissions_of(w@).is_some() {
                    assert(w@ =~= seq!['x'] || w@ =~= seq!['w'] || w@ =~= seq!['w', 'x'] || w@ =~= seq!['r'] || w@ =~= seq!['r', 'x'] || w@ =~= seq!['r', 'w'] || w@ =~= seq!['r', 'w', 'x']);
                }
            }
            return Err(ParseSegmentPermissionsError);
        };
        proof {
            if n == 1 {
                assert(w@ =~= seq![w@[0]]);
            } else if n == 2 {
                assert(w@ =~= seq![w@[0], w@[1]]);
            } else {
                assert(w@ =~= seq![w@[0], w@[1], w@[2]]);
            }
        }
        Ok(SegmentPermissions { readable, writable, executable })
    }
}

pub(crate) fn chars_equal(a: &Vec<char>, b: &Vec<char>) -> (r: bool)
    ensures
        r == (a@ == b@),
{
    if a.len() != b.len() {
        return false;
    }
    let mut i: usize = 0;
    while i < a.len()
        invariant
            a.len() == b.len(),
            i <= a.len(),
            a@.take(i as int) == b@.take(i as int),
        decreases a.len() - i,
    {
        if a[i] != b[i] {
            return false;
        }
        i = i + 1;
        assert(a@.take(i as int) =~= b@.take(i as int));
    }
    assert(a@ =~= a@.take(i as int));
    assert(b@ =~= b@.take(i as int));
    true
}

/// The first item of `list` whose keyword is `w`.
fn find_named<T: Named>(list: &Vec<T>, w: &Vec<char>) -> (r: Option<T>)
    ensures
        r == first_named(list@, w@),
{
    let mut i: usize = 0;
    assert(list@.skip(0) =~= list@);
    while i < list.len()
        invariant
            i <= list.len(),
            first_named(list@, w@) == first_named(list@.skip(i as int), w@),
        decreases list.len() - i,
    {
        let item = list[i];
        let name = item.name_chars();
        assert(list@.skip(i as int)[0] == item);
        assert(list@.skip(i as int).drop_first() =~= list@.skip(i as int + 1));
        if chars_equal(&name, w) {
            return Some(item);
        }
        i = i + 1;
    }
    None
}

fn lower_word(w: &Vec<char>) -> (r: Vec<char>)
    ensures
        r@ == lowered(w@),
{
    let mut out: Vec<char> = Vec::new();
    let mut i: usize = 0;
    while i < w.len()
        invariant
            i <= w.len(),
            out@ == lowered(w@).take(i as int),
        decreases w.len() - i,
    {
        let c = w[i];
        let l = if 'A' <= c && c <= 'Z' {
            ((c as u8) + 32) as char
        } else {
            c
        };
        out.push(l);
        i = i + 1;
        assert(out@ =~= lowered(w@).take(i as int));
    }
    assert(lowered(w@).take(i as int) =~= lowered(w@));
    out
}


/// A byte range of the source: where it starts and how many bytes it covers.
#[derive(Debug, Clone, Copy, PartialEq, Eq, Hash, Structural)]
pub struct SourceSpan {
    pub offset: usize,
    pub length: usize,
}

/// The kinds of token, with what each carries.
#[derive(Debug, Clone, PartialEq, Eq, Hash)]
pub enum TokenKind {
    Label(String),
    LeftParen,
    RightParen,
    Opcode(Opcode),
    Register(Register),
    ControlStatusRegister(ControlStatusRegister),
    Segment,
    Block,
    Export,
    Number(u16),
    String(String),
    SegmentPermissions(SegmentPermissions),
}

/// The mathematical content of a token kind.
pub enum TokenView {
    Label(Seq<char>),
    LeftParen,
    RightParen,
    Opcode(Opcode),
    Register(Register),
    ControlStatusRegister(ControlStatusRegister),
    Segment,
    Block,
    Export,
    Number(u16),
    String(Seq<char>),
    SegmentPermissions(SegmentPermissions),
}

impl View for TokenKind {
    type V = TokenView;

    open spec fn view(&self) -> TokenView {
        match self {
            TokenKind::Label(s) => TokenView::Label(s@),
            TokenKind::LeftParen => TokenView::LeftParen,
            TokenKind::RightParen => TokenView::RightParen,
            TokenKind::Opcode(o) => TokenView::Opcode(*o),
            TokenKind::Register(r) => TokenView::Register(*r),
            TokenKind::ControlStatusRegister(c) => TokenView::ControlStatusRegister(*c),
            TokenKind::Segment => TokenView::Segment,
            TokenKind::Block => TokenView::Block,
            TokenKind::Export => TokenView::Export,
            TokenKind::Number(n) => TokenView::Number(*n),
            TokenKind::String(s) => TokenView::String(s@),
            TokenKind::SegmentPermissions(p) => TokenView::SegmentPermissions(*p),
        }
    }
}

#[derive(Debug, Clone, PartialEq, Eq, Hash)]
pub struct Token {
    pub token_kind: TokenKind,
    pub source_span: SourceSpan,
}

/// Why the source could not be split into tokens.
#[derive(Debug, Clone, Copy, PartialEq, Eq, Hash, Structural)]
pub enum LexError {
    /// A character that starts no token.
    InvalidCharacter { character: char, span: SourceSpan },
    /// A string literal with no closing quote; the span runs to the end of the source.
    UnterminatedString { span: SourceSpan },
    /// A numeric literal with no digits, or whose value does not fit in a word.
    InvalidNumber { span: SourceSpan },
}

/// What a word of letters, digits, underscores and dots reads as: a mnemonic, a register,
/// a control/status register (all three in any case), segment permissions (exactly as
/// written), one of the keywords `segment`, `block` and `export` (in any case), else a label.
pub open spec fn classify(w: Seq<char>) -> TokenView {
    let lw = lowered(w);
    match first_named(Opcode::spec_all(), lw) {
        Some(op) => TokenView::Opcode(op),
        None => match first_named(Register::spec_all(), lw) {
            Some(r) => TokenView::Register(r),
            None => match first_named(ControlStatusRegister::spec_all(), lw) {
                Some(c) => TokenView::ControlStatusRegister(c),
                None => match permissions_of(w) {
                    Some(p) => TokenView::SegmentPermissions(p),
                    None => if lw == seq!['s', 'e', 'g', 'm', 'e', 'n', 't'] {
                        TokenView::Segment
                    } else if lw == seq!['b', 'l', 'o', 'c', 'k'] {
                        TokenView::Block
                    } else if lw == seq!['e', 'x', 'p', 'o', 'r', 't'] {
                        TokenView::Export
                    } else {
                        TokenView::Label(w)
                    },
                },
            },
        },
    }
}

/// The index of the first character at or after `p` that is neither white space nor part
/// of a comment; a comment runs from `;` to the end of its line.
pub open spec fn skip_trivia(s: Seq<char>, p: int, in_comment: bool) -> int
    decreases s.len() - p,
{
    if p < 0 || p >= s.len() {
        p
    } else if in_comment {
        skip_trivia(s, p + 1, s[p] != '\n')
    } else if s[p] == ';' {
        skip_trivia(s, p + 1, true)
    } else if is_white_space(s[p]) {
        skip_trivia(s, p + 1, false)
    } else {
        p
    }
}

/// The end of the run of digits of `radix` that starts at `p`.
pub open spec fn scan_digits(s: Seq<char>, p: int, radix: nat) -> int
    decreases s.len() - p,
{
    if 0 <= p < s.len() && is_digit(s[p], radix) {
        scan_digits(s, p + 1, radix)
    } else {
        p
    }
}

pub open spec fn word_char(c: char) -> bool {
    xid_continue(c) || c == '.'
}

/// The end of the word that starts at `p`.
pub open spec fn scan_word(s: Seq<char>, p: int) -> int
    decreases s.len() - p,
{
    if 0 <= p < s.len() && word_char(s[p]) {
        scan_word(s, p + 1)
    } else {
        p
    }
}

/// The index of the first `"` at or after `p`, or the length when there is none.
pub open spec fn find_quote(s: Seq<char>, p: int) -> int
    decreases s.len() - p,
{
    if 0 <= p < s.len() && s[p] != '"' {
        find_quote(s, p + 1)
    } else {
        p
    }
}

pub open spec fn span_of(s: Seq<char>, start: int, end: int) -> SourceSpan {
    SourceSpan {
        offset: byte_offset(s, start) as usize,
        length: (byte_offset(s, end) - byte_offset(s, start)) as usize,
    }
}

/// The radix of the numeric literal that starts at `p`: a `0b`, `0o` or `0x` prefix, else
/// decimal.
pub open spec fn radix_at(s: Seq<char>, p: int) -> nat {
    if s[p] == '0' && p + 1 < s.len() && s[p + 1] == 'b' {
        2
    } else if s[p] == '0' && p + 1 < s.len() && s[p + 1] == 'o' {
        8
    } else if s[p] == '0' && p + 1 < s.len() && s[p + 1] == 'x' {
        16
    } else {
        10
    }
}

/// The token that starts at character index `p`, which is neither white space nor in a
/// comment, with the index just past it.
pub open spec fn token_at(s: Seq<char>, p: int) -> Result<(TokenView, int), LexError> {
    let c = s[p];
    if c == '(' {
        Ok((TokenView::LeftParen, p + 1))
    } else if c == ')' {
        Ok((TokenView::RightParen, p + 1))
    } else if c == '"' {
        let q = find_quote(s, p + 1);
        if q >= s.len() {
            Err(LexError::UnterminatedString { span: span_of(s, p, s.len() as int) })
        } else {
            Ok((TokenView::String(s.subrange(p + 1, q)), q + 1))
        }
    } else if '0' <= c <= '9' {
        let radix = radix_at(s, p);
        let start = if radix == 10 { p } else { p + 2 };
        let end = scan_digits(s, start, radix);
        let value = digits_value(s.subrange(start, end), radix);
        if end == start || value > 0xffff {
            Err(LexError::InvalidNumber { span: span_of(s, p, end) })
        } else {
            Ok((TokenView::Number(value as u16), end))
        }
    } else if xid_start(c) || c == '_' {
        let end = scan_word(s, p + 1);
        Ok((classify(s.subrange(p, end)), end))
    } else {
        Err(LexError::InvalidCharacter { character: c, span: span_of(s, p, p + 1) })
    }
}

/// The next token of `s` after index `p`: `None` at the end of the source.
pub open spec fn lex_at(s: Seq<char>, p: int) -> Option<Result<(TokenView, int), LexError>> {
    let start = skip_trivia(s, p, false);
    if start >= s.len() {
        None
    } else {
        Some(token_at(s, start))
    }
}

proof fn lemma_byte_offset_step(s: Seq<char>, i: int)
    requires
        0 <= i < s.len(),
    ensures
        byte_offset(s, i + 1) == byte_offset(s, i) + utf8_len(s[i]),
{
    assert(s.take(i + 1).drop_last() =~= s.take(i));
}

proof fn lemma_byte_offset_monotone(s: Seq<char>, i: int, j: int)
    requires
        0 <= i <= j <= s.len(),
    ensures
        byte_offset(s, i) <= byte_offset(s, j),
    decreases j - i,
{
    if i < j {
        lemma_byte_offset_step(s, j - 1);
        lemma_byte_offset_monotone(s, i, j - 1);
    }
}

proof fn lemma_byte_offset_bounded(s: Seq<char>, i: int)
    requires
        0 <= i <= s.len(),
    ensures
        byte_offset(s, i) <= byte_len(s),
{
    lemma_byte_offset_monotone(s, i, s.len() as int);
    assert(s.take(s.len() as int) =~= s);
}


fn utf8_width(c: char) -> (r: usize)
    ensures
        r == utf8_len(c),
{
    let v = c as u32;
    if v < 0x80 {
        1
    } else if v < 0x800 {
        2
    } else if v < 0x10000 {
        3
    } else {
        4
    }
}

pub fn white_space(c: char) -> (r: bool)
    ensures
        r == is_white_space(c),
{
    let v = c as u32;
    (0x09 <= v && v <= 0x0d) || v == 0x20 || v == 0x85 || v == 0xa0 || v == 0x1680 || (0x2000 <= v
        && v <= 0x200a) || v == 0x2028 || v == 0x2029 || v == 0x202f || v == 0x205f || v == 0x3000
}

fn digit_of(c: char) -> (r: u32)
    ensures
        r == digit_value(c),
{
    let v = c as u32;
    if '0' <= c && c <= '9' {
        v - 0x30
    } else if 'a' <= c && c <= 'z' {
        v - 0x61 + 10
    } else if 'A' <= c && c <= 'Z' {
        v - 0x41 + 10
    } else {
        36
    }
}

fn subrange_chars(s: &Vec<char>, start: usize, end: usize) -> (r: Vec<char>)
    requires
        start <= end <= s.len(),
    ensures
        r@ == s@.subrange(start as int, end as int),
{
    let mut out: Vec<char> = Vec::new();
    let mut i = start;
    while i < end
        invariant
            start <= i <= end <= s.len(),
            out@ == s@.subrange(start as int, i as int),
        decreases end - i,
    {
        out.push(s[i]);
        i = i + 1;
        assert(out@ =~= s@.subrange(start as int, i as int));
    }
    out
}

/// The token kind of a word; see `classify`.
fn classify_word(w: &Vec<char>, literal: &str) -> (r: TokenKind)
    requires
        literal@ == w@,
    ensures
        r@ == classify(w@),
{
    let lw = lower_word(w);
    if let Some(op) = find_named(&Opcode::all(), &lw) {
        return TokenKind::Opcode(op);
    }
    if let Some(reg) = find_named(&Register::all(), &lw) {
        return TokenKind::Register(reg);
    }
    if let Some(csr) = find_named(&ControlStatusRegister::all(), &lw) {
        return TokenKind::ControlStatusRegister(csr);
    }
    if let Ok(p) = SegmentPermissions::from_word(w) {
        return TokenKind::SegmentPermissions(p);
    }
    if chars_equal(&lw, &vec!['s', 'e', 'g', 'm', 'e', 'n', 't']) {
        TokenKind::Segment
    } else if chars_equal(&lw, &vec!['b', 'l', 'o', 'c', 'k']) {
        TokenKind::Block
    } else if chars_equal(&lw, &vec!['e', 'x', 'p', 'o', 'r', 't']) {
        TokenKind::Export
    } else {
        TokenKind::Label(literal.to_owned())
    }
}

/// Splits source text into tokens, one at a time. After the first error it yields nothing
/// more.
pub struct Lexer<'a> {
    text: &'a str,
    source: Vec<char>,
    position: usize,
    index: usize,
    errored: bool,
}

impl<'a> Lexer<'a> {
    pub closed spec fn source(&self) -> Seq<char> {
        self.source@
    }

    /// The index of the character at which lexing resumes.
    pub closed spec fn position(&self) -> int {
        self.position as int
    }

    pub closed spec fn errored(&self) -> bool {
        self.errored
    }

    pub closed spec fn wf(&self) -> bool {
        &&& self.text@ == self.source@
        &&& self.position <= self.source@.len()
        &&& self.index == byte_offset(self.source@, self.position as int)
        &&& byte_len(self.source@) <= usize::MAX
    }

    pub fn new(source: &'a str) -> (r: Lexer<'a>)
        requires
            byte_len(source@) <= usize::MAX,
        ensures
            r.wf(),
            r.source() == source@,
            r.position() == 0,
            !r.errored(),
    {
        let chars = chars_of(source);
        assert(chars@.take(0) =~= Seq::<char>::empty());
        Lexer { text: source, source: chars, position: 0, index: 0, errored: false }
    }

    fn advance(&mut self)
        requires
            old(self).wf(),
            old(self).position < old(self).source@.len(),
        ensures
            final(self).wf(),
            final(self).source == old(self).source,
            final(self).text == old(self).text,
            final(self).errored == old(self).errored,
            final(self).position == old(self).position + 1,
    {
        proof {
            lemma_byte_offset_step(self.source@, self.position as int);
            lemma_byte_offset_bounded(self.source@, self.position as int + 1);
        }
        let w = utf8_width(self.source[self.position]);
        let _n = self.source.len();
        self.index = self.index + w;
        self.position = self.position + 1;
    }

    fn span_from(&self, start: usize, start_index: usize) -> (r: SourceSpan)
        requires
            self.wf(),
            start <= self.position,
            start_index == byte_offset(self.source@, start as int),
        ensures
            r == span_of(self.source@, start as int, self.position as int),
    {
        proof {
            lemma_byte_offset_monotone(self.source@, start as int, self.position as int);
        }
        SourceSpan { offset: start_index, length: self.index - start_index }
    }

    /// The next token, `None` at the end of the source or after an error.
    pub fn next_token(&mut self) -> (r: Option<Result<Token, LexError>>)
        requires
            old(self).wf(),
        ensures
            final(self).wf(),
            final(self).source() == old(self).source(),
            final(self).position() <= final(self).source().len(),
            old(self).errored() ==> r is None && final(self).errored(),
            !old(self).errored() ==> match lex_at(old(self).source(), old(self).position()) {
                None => r is None && !final(self).errored(),
                Some(Ok((kind, end))) => r matches Some(Ok(t)) && t.token_kind@ == kind && t.source_span == span_of(
                    old(self).source(),
                    skip_trivia(old(self).source(), old(self).position(), false),
                    end,
                ) && final(self).position() == end && !final(self).errored(),
                Some(Err(e)) => r == Some(Err::<Token, LexError>(e)) && final(self).errored(),
            },
    {
        if self.errored {
            return None;
        }
        let ghost s = self.source@;
        let ghost p0 = self.position as int;
        let mut in_comment = false;
        let mut done = false;
        while !done && self.position < self.source.len()
            invariant
                self.wf(),
                self.source@ == s,
                !self.errored,
                skip_trivia(s, p0, false) == skip_trivia(s, self.position as int, in_comment),
                done ==> !in_comment && self.position < s.len() && skip_trivia(s, self.position as int, false) == self.position,
            decreases s.len() - self.position, (if done { 0int } else { 1int }),
        {
            let c = self.source[self.position];
            if in_comment {
                in_comment = c != '\n';
                self.advance();
            } else if c == ';' {
                in_comment = true;
                self.advance();
            } else if white_space(c) {
                self.advance();
            } else {
                done = true;
            }
        }
        if self.position >= self.source.len() {
            return None;
        }
        let start = self.position;
        let start_index = self.index;
        let c = self.source[start];
        proof {
            lemma_byte_offset_bounded(s, s.len() as int);
        }
        if c == '(' || c == ')' {
            self.advance();
            let kind = if c == '(' {
                TokenKind::LeftParen
            } else {
                TokenKind::RightParen
            };
            return Some(Ok(Token { token_kind: kind, source_span: self.span_from(start, start_index) }));
        }
        if c == '"' {
            self.advance();
            while self.position < self.source.len() && self.source[self.position] != '"'
                invariant
                    self.wf(),
                    self.source@ == s,
                    !self.errored,
                    start < self.position,
                    find_quote(s, start + 1) == find_quote(s, self.position as int),
                decreases s.len() - self.position,
            {
                self.advance();
            }
            if self.position >= self.source.len() {
                self.errored = true;
                return Some(Err(LexError::UnterminatedString { span: self.span_from(start, start_index) }));
            }
            let text = self.text.substring_char(start + 1, self.position).to_owned();
            self.advance();
            return Some(Ok(Token { token_kind: TokenKind::String(text), source_span: self.span_from(start, start_index) }));
        }
        if '0' <= c && c <= '9' {
            let radix: u32 = if c == '0' && start + 1 < self.source.len() && self.source[start + 1] == 'b' {
                2
            } else if c == '0' && start + 1 < self.source.len() && self.source[start + 1] == 'o' {
                8
            } else if c == '0' && start + 1 < self.source.len() && self.source[start + 1] == 'x' {
                16
            } else {
                10
            };
            if radix != 10 {
                self.advance();
                self.advance();
            }
            let digits_start = self.position;
            let mut value: u32 = 0;
            let mut overflow = false;
            while self.position < self.source.len() && digit_of(self.source[self.position]) < radix
                invariant
                    self.wf(),
                    self.source@ == s,
                    !self.errored,
                    2 <= radix <= 16,
                    digits_start <= self.position,
                    scan_digits(s, digits_start as int, radix as nat) == scan_digits(s, self.position as int, radix as nat),
                    !overflow ==> value == digits_value(s.subrange(digits_start as int, self.position as int), radix as nat) && value <= 0xffff,
                    overflow ==> digits_value(s.subrange(digits_start as int, self.position as int), radix as nat) > 0xffff,
                decreases s.len() - self.position,
            {
                let d = digit_of(self.source[self.position]);
                let ghost before = digits_value(s.subrange(digits_start as int, self.position as int), radix as nat);
                proof {
                    assert(s.subrange(digits_start as int, self.position + 1).drop_last() =~= s.subrange(digits_start as int, self.position as int));
                    assert(before * radix >= before) by (nonlinear_arith)
                        requires
                            radix >= 2,
                    ;
                }
                if !overflow {
                    assert(value * radix <= 0xffff * 16) by (nonlinear_arith)
                        requires
                            value <= 0xffff,
                            radix <= 16,
                    ;
                    let next = value * radix + d;
                    if next > 0xffff {
                        overflow = true;
                    } else {
                        value = next;
                    }
                }
                self.advance();
            }
            let end = self.position;
            if end == digits_start || overflow {
                self.errored = true;
                return Some(Err(LexError::InvalidNumber { span: self.span_from(start, start_index) }));
            }
            return Some(Ok(Token { token_kind: TokenKind::Number(value as u16), source_span: self.span_from(start, start_index) }));
        }
        if is_xid_start(c) || c == '_' {
            self.advance();
            while self.position < self.source.len() && (is_xid_continue(self.source[self.position]) || self.source[self.position] == '.')
                invariant
                    self.wf(),
                    self.source@ == s,
                    !self.errored,
                    start < self.position,
                    scan_word(s, start + 1) == scan_word(s, self.position as int),
                decreases s.len() - self.position,
            {
                self.advance();
            }
            let word = subrange_chars(&self.source, start, self.position);
            let literal = self.text.substring_char(start, self.position);
            let kind = classify_word(&word, literal);
            return Some(Ok(Token { token_kind: kind, source_span: self.span_from(start, start_index) }));
        }
        self.advance();
        self.errored = true;
        Some(Err(LexError::InvalidCharacter { character: c, span: self.span_from(start, start_index) }))
    }
}


proof fn lemma_skip_trivia_ge(s: Seq<char>, p: int, in_comment: bool)
    requires
        0 <= p,
    ensures
        skip_trivia(s, p, in_comment) >= p,
    decreases s.len() - p,
{
    if p < s.len() {
        lemma_skip_trivia_ge(s, p + 1, s[p] != '\n');
        lemma_skip_trivia_ge(s, p + 1, true);
        lemma_skip_trivia_ge(s, p + 1, false);
    }
}

proof fn lemma_scan_digits_ge(s: Seq<char>, p: int, radix: nat)
    ensures
        scan_digits(s, p, radix) >= p,
    decreases s.len() - p,
{
    if 0 <= p < s.len() && is_digit(s[p], radix) {
        lemma_scan_digits_ge(s, p + 1, radix);
    }
}

proof fn lemma_scan_word_ge(s: Seq<char>, p: int)
    ensures
        scan_word(s, p) >= p,
    decreases s.len() - p,
{
    if 0 <= p < s.len() && word_char(s[p]) {
        lemma_scan_word_ge(s, p + 1);
    }
}

proof fn lemma_find_quote_ge(s: Seq<char>, p: int)
    ensures
        find_quote(s, p) >= p,
    decreases s.len() - p,
{
    if 0 <= p < s.len() && s[p] != '"' {
        lemma_find_quote_ge(s, p + 1);
    }
}

/// Every token covers at least one character.
proof fn lemma_token_progress(s: Seq<char>, p: int)
    requires
        0 <= p,
        lex_at(s, p) matches Some(Ok((k, end))),
    ensures
        lex_at(s, p) matches Some(Ok((k, end))) && end > p,
{
    let start = skip_trivia(s, p, false);
    lemma_skip_trivia_ge(s, p, false);
    lemma_find_quote_ge(s, start + 1);
    lemma_scan_word_ge(s, start + 1);
    let radix = radix_at(s, start);
    lemma_scan_digits_ge(s, if radix == 10 { start } else { start + 2 }, radix);
}

/// The tokens of `s` from index `p` on, each with its span, and the error that ended them if
/// one did.
pub open spec fn lex_all(s: Seq<char>, p: int) -> (Seq<(TokenView, SourceSpan)>, Option<LexError>)
    decreases s.len() - p,
{
    match lex_at(s, p) {
        None => (Seq::empty(), None),
        Some(Err(e)) => (Seq::empty(), Some(e)),
        Some(Ok((kind, end))) => if p < end <= s.len() {
            let rest = lex_all(s, end);
            (seq![(kind, span_of(s, skip_trivia(s, p, false), end))] + rest.0, rest.1)
        } else {
            (Seq::empty(), None)
        },
    }
}

pub open spec fn token_view(t: Token) -> (TokenView, SourceSpan) {
    (t.token_kind@, t.source_span)
}

/// Splits the whole source into tokens, stopping at the first error, which is returned
/// beside the tokens before it.
pub fn tokenize(source: &str) -> (r: (Vec<Token>, Option<LexError>))
    requires
        byte_len(source@) <= usize::MAX,
    ensures
        r.0@.map_values(|t: Token| token_view(t)) == lex_all(source@, 0).0,
        r.1 == lex_all(source@, 0).1,
{
    let ghost s = source@;
    let ghost tv = |t: Token| token_view(t);
    let mut lexer = Lexer::new(source);
    let mut tokens: Vec<Token> = Vec::new();
    loop
        invariant
            lexer.wf(),
            s == source@,
            lexer.source() == s,
            !lexer.errored(),
            0 <= lexer.position() <= s.len(),
            tv == (|t: Token| token_view(t)),
            lex_all(s, 0).0 == tokens@.map_values(tv) + lex_all(s, lexer.position()).0,
            lex_all(s, 0).1 == lex_all(s, lexer.position()).1,
        decreases s.len() - lexer.position(),
    {
        let ghost p = lexer.position();
        match lexer.next_token() {
            None => {
                assert(tokens@.map_values(tv) + Seq::<(TokenView, SourceSpan)>::empty() =~= tokens@.map_values(tv));
                return (tokens, None);
            },
            Some(Err(e)) => {
                assert(tokens@.map_values(tv) + Seq::<(TokenView, SourceSpan)>::empty() =~= tokens@.map_values(tv));
                return (tokens, Some(e));
            },
            Some(Ok(t)) => {
                proof {
                    lemma_token_progress(s, p);
                    let rest = lex_all(s, lexer.position());
                    assert(tokens@.push(t).map_values(tv) =~= tokens@.map_values(tv).push(token_view(t)));
                    assert(tokens@.map_values(tv) + (seq![token_view(t)] + rest.0) =~= tokens@.push(t).map_values(tv) + rest.0);
                }
                tokens.push(t);
            },
        }
    }
}

} // verus!
