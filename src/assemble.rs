use vstd::prelude::*;

use crate::isa::Opcode;
use crate::lex::{byte_len, chars_equal, chars_of, SourceSpan};
use crate::parse::{view_code, view_codes, Code, CodeView, Immediate, ImmediateView, LabelRef, Program, ProgramView};
use crate::poki::{encode_utf16, utf16_of, Poki, PokiView, RelocationTableEntry, Segment, SegmentView};

verus! {

/// The size in words of what a node of code emits.
pub open spec fn node_size(c: CodeView, inner: nat) -> nat {
    match c {
        CodeView::Block { .. } => inner,
        CodeView::String(s) => utf16_of(s).len(),
        CodeView::ImmediateInstruction { .. } => 2,
        _ => 1,
    }
}

/// The size in words of a sequence of code: a block is as large as its contents, a string
/// as its UTF-16 code units, an instruction with an immediate takes two words, and
/// everything else one.
pub open spec fn codes_size(cs: Seq<CodeView>) -> nat
    decreases cs,
{
    if cs.len() == 0 {
        0
    } else {
        let last = cs[cs.len() - 1];
        let inner = match last {
            CodeView::Block { contents, .. } => codes_size(contents),
            _ => 0,
        };
        codes_size(cs.subrange(0, cs.len() - 1)) + node_size(last, inner)
    }
}


/// The size in words of one node of code.
pub open spec fn code_size(c: CodeView) -> nat {
    codes_size(seq![c])
}

/// A label's qualified name: the names of the enclosing blocks and its own, joined by dots.
pub open spec fn qualify(context: Seq<char>, label: Seq<char>) -> Seq<char> {
    if context.len() == 0 {
        label
    } else {
        context + seq!['.'] + label
    }
}

/// A label definition: its qualified name, where it points, and where it was written.
pub struct Definition {
    pub name: Seq<char>,
    pub segment_index: u16,
    pub segment_offset: nat,
    pub span: SourceSpan,
}

/// The labels that the blocks of `cs` define, in the order of a depth-first walk, for code
/// that starts at offset `base` of segment `segment` inside the blocks named by `context`.
pub open spec fn definitions(cs: Seq<CodeView>, segment: u16, base: nat, context: Seq<char>) -> Seq<Definition>
    decreases cs,
{
    if cs.len() == 0 {
        Seq::empty()
    } else {
        let front = cs.subrange(0, cs.len() - 1);
        let last = cs[cs.len() - 1];
        let before = definitions(front, segment, base, context);
        match last {
            CodeView::Block { label, span, contents } => {
                let name = qualify(context, label);
                let offset = base + codes_size(front);
                before + seq![Definition { name, segment_index: segment, segment_offset: offset, span }]
                    + definitions(contents, segment, offset, name)
            },
            _ => before,
        }
    }
}

/// The definitions of segments `k` and on.
pub open spec fn definitions_from(p: ProgramView, k: int) -> Seq<Definition>
    decreases 8 - k,
{
    if k < 0 || k >= 8 {
        Seq::empty()
    } else {
        definitions(p.segments[k], k as u16, 0, Seq::empty()) + definitions_from(p, k + 1)
    }
}

/// Every label definition of the program, segment by segment.
pub open spec fn program_definitions(p: ProgramView) -> Seq<Definition> {
    definitions_from(p, 0)
}

/// The first definition of `name` in `ds`.
pub open spec fn lookup(ds: Seq<Definition>, name: Seq<char>) -> Option<Definition>
    decreases ds.len(),
{
    if ds.len() == 0 {
        None
    } else if ds[0].name == name {
        Some(ds[0])
    } else {
        lookup(ds.drop_first(), name)
    }
}

/// Why a program could not be assembled.
#[derive(Debug, Clone, Copy, PartialEq, Eq, Hash, Structural)]
pub enum AssembleError {
    /// A segment's code is more than 0xFFFF words long.
    OversizedSegment { segment_index: u16 },
    /// A qualified label is defined twice: where first, and where again.
    DuplicateLabel { first: SourceSpan, second: SourceSpan },
    /// An exported label is not defined.
    UndefinedExport { span: SourceSpan },
    /// More than 0xFFFF distinct labels are left unresolved.
    OversizedUnresolvedTable,
}

/// The first definition, from index `j` on, whose name an earlier one already has.
pub open spec fn first_duplicate(ds: Seq<Definition>, j: int) -> Option<AssembleError>
    decreases ds.len() - j,
{
    if j < 0 || j >= ds.len() {
        None
    } else {
        match lookup(ds.take(j), ds[j].name) {
            Some(d) => Some(AssembleError::DuplicateLabel { first: d.span, second: ds[j].span }),
            None => first_duplicate(ds, j + 1),
        }
    }
}

/// The first segment, from `k` on, whose code does not fit in 0xFFFF words.
pub open spec fn first_oversized(p: ProgramView, k: int) -> Option<AssembleError>
    decreases 8 - k,
{
    if k < 0 || k >= 8 {
        None
    } else if codes_size(p.segments[k]) > 0xffff {
        Some(AssembleError::OversizedSegment { segment_index: k as u16 })
    } else {
        first_oversized(p, k + 1)
    }
}

/// The first export, from index `j` on, that names no definition.
pub open spec fn first_undefined_export(p: ProgramView, ds: Seq<Definition>, j: int) -> Option<AssembleError>
    decreases p.exports.len() - j,
{
    if j < 0 || j >= p.exports.len() {
        None
    } else if lookup(ds, p.exports[j].0) is None {
        Some(AssembleError::UndefinedExport { span: p.exports[j].1 })
    } else {
        first_undefined_export(p, ds, j + 1)
    }
}

/// An instruction word: the opcode in bits 0 to 5, then the destination and source fields.
pub open spec fn instruction_word(opcode: u16, dst: u16, src: u16) -> u16 {
    (opcode | (dst << 6) | (src << 11)) as u16
}

/// What emission has produced so far: the current segment's body, and the unresolved table
/// shared by all segments.
pub struct Emission {
    pub contents: Seq<u16>,
    pub relocations: Seq<RelocationTableEntry>,
    pub exports: Seq<(Seq<char>, u16)>,
    pub unresolved: Seq<Seq<char>>,
}

/// The index of the first occurrence of `name` in `table`.
pub open spec fn index_of(table: Seq<Seq<char>>, name: Seq<char>) -> Option<int>
    decreases table.len(),
{
    if table.len() == 0 {
        None
    } else if table[0] == name {
        Some(0)
    } else {
        match index_of(table.drop_first(), name) {
            Some(i) => Some(i + 1),
            None => None,
        }
    }
}

/// A relocation of the word at `offset` to the label `name`: to its definition when there is
/// one, else to its entry in the unresolved table, which is added when missing.
pub open spec fn relocate(e: Emission, ds: Seq<Definition>, name: Seq<char>, offset: int) -> Emission {
    match lookup(ds, name) {
        Some(d) => Emission {
            relocations: e.relocations.push(
                RelocationTableEntry { offset: offset as u16, segment_index: d.segment_index, segment_offset: d.segment_offset as u16 },
            ),
            ..e
        },
        None => {
            let (index, unresolved) = match index_of(e.unresolved, name) {
                Some(i) => (i, e.unresolved),
                None => (e.unresolved.len() as int, e.unresolved.push(name)),
            };
            Emission {
                relocations: e.relocations.push(
                    RelocationTableEntry { offset: offset as u16, segment_index: 0xffff, segment_offset: (index % 0x10000) as u16 },
                ),
                unresolved,
                ..e
            }
        },
    }
}

pub open spec fn emit_word(e: Emission, w: u16) -> Emission {
    Emission { contents: e.contents.push(w), ..e }
}

/// Emits a node that is not a block.
pub open spec fn emit_node(c: CodeView, e: Emission, ds: Seq<Definition>) -> Emission {
    let at = e.contents.len() as int;
    match c {
        CodeView::String(s) => Emission { contents: e.contents + utf16_of(s), ..e },
        CodeView::Number(n) => emit_word(e, n),
        CodeView::Instruction { opcode, dst, src } => emit_word(
            e,
            instruction_word(opcode.spec_code(), dst.spec_index(), src.spec_index()),
        ),
        CodeView::ImmediateInstruction { opcode, dst, src, imm } => {
            let e1 = emit_word(e, instruction_word(opcode.spec_code(), dst.spec_index(), src.spec_index()));
            match imm {
                ImmediateView::Number(n) => emit_word(e1, n),
                ImmediateView::Label(l, _) => emit_word(relocate(e1, ds, l, at + 1), 0),
            }
        },
        CodeView::Rcsr { dst, src } => emit_word(
            e,
            instruction_word(Opcode::RCSR.spec_code(), dst.spec_index(), src.spec_index()),
        ),
        CodeView::Wcsr { dst, src } => emit_word(
            e,
            instruction_word(Opcode::WCSR.spec_code(), dst.spec_index(), src.spec_index()),
        ),
        CodeView::Jsh { imm } => match imm {
            ImmediateView::Number(n) => emit_word(e, (Opcode::JSH.spec_code() | (n << 6)) as u16),
            ImmediateView::Label(l, _) => emit_word(relocate(e, ds, l, at), Opcode::JSH.spec_code()),
        },
        CodeView::Block { .. } => e,
    }
}

/// Emits a sequence of code into the current segment. A block whose own (unqualified) label
/// is among `exports` adds an export entry at its offset.
pub open spec fn emit_codes(cs: Seq<CodeView>, e: Emission, ds: Seq<Definition>, exports: Seq<Seq<char>>) -> Emission
    decreases cs,
{
    if cs.len() == 0 {
        e
    } else {
        let e1 = emit_codes(cs.subrange(0, cs.len() - 1), e, ds, exports);
        match cs[cs.len() - 1] {
            CodeView::Block { label, contents, .. } => {
                let e2 = if exports.contains(label) {
                    Emission { exports: e1.exports.push((label, e1.contents.len() as u16)), ..e1 }
                } else {
                    e1
                };
                emit_codes(contents, e2, ds, exports)
            },
            other => emit_node(other, e1, ds),
        }
    }
}

/// The segments `k` and on, emitted after the unresolved table `unresolved`.
pub open spec fn emit_segments(p: ProgramView, k: int, unresolved: Seq<Seq<char>>, ds: Seq<Definition>) -> (Seq<SegmentView>, Seq<Seq<char>>)
    decreases 8 - k,
{
    if k < 0 || k >= 8 {
        (Seq::empty(), unresolved)
    } else {
        let start = Emission { contents: Seq::empty(), relocations: Seq::empty(), exports: Seq::empty(), unresolved };
        let e = emit_codes(p.segments[k], start, ds, p.exports.map_values(|x: (Seq<char>, SourceSpan)| x.0));
        let rest = emit_segments(p, k + 1, e.unresolved, ds);
        (seq![SegmentView { contents: e.contents, relocations: e.relocations, exports: e.exports }] + rest.0, rest.1)
    }
}

/// The object file that a parsed program assembles to, or why it does not.
pub open spec fn assemble_program(p: ProgramView) -> Result<PokiView, AssembleError> {
    let ds = program_definitions(p);
    match first_oversized(p, 0) {
        Some(e) => Err(e),
        None => match first_duplicate(ds, 0) {
            Some(e) => Err(e),
            None => match first_undefined_export(p, ds, 0) {
                Some(e) => Err(e),
                None => {
                    let (segments, unresolved) = emit_segments(p, 0, Seq::empty(), ds);
                    if unresolved.len() > 0xffff {
                        Err(AssembleError::OversizedUnresolvedTable)
                    } else {
                        Ok(PokiView { segments, unresolved })
                    }
                },
            },
        },
    }
}


proof fn lemma_codes_size_take(v: Seq<CodeView>, i: int)
    requires
        0 <= i < v.len(),
    ensures
        codes_size(v.take(i + 1)) == codes_size(v.take(i)) + node_size(
            v[i],
            match v[i] {
                CodeView::Block { contents, .. } => codes_size(contents),
                _ => 0,
            },
        ),
{
    assert(v.take(i + 1).subrange(0, i) =~= v.take(i));
}

proof fn lemma_block_contents_view(label: LabelRef, contents: Vec<Code>)
    ensures
        (Code::Block { label, contents })@ == (CodeView::Block { label: label.label@, span: label.source_span, contents: view_codes(contents@) }),
{
    let c = Code::Block { label, contents };
    if let CodeView::Block { contents: cv, .. } = c@ {
        assert(cv =~= view_codes(contents@));
    }
}

/// The size in words of a sequence of code, `None` when it is more than 0xFFFF.
pub fn measure_codes(cs: &Vec<Code>) -> (r: Option<u16>)
    ensures
        codes_size(view_codes(cs@)) <= 0xffff ==> r == Some(codes_size(view_codes(cs@)) as u16),
        codes_size(view_codes(cs@)) > 0xffff ==> r is None,
    decreases cs@,
{
    let ghost v = view_codes(cs@);
    let mut total: u32 = 0;
    let mut i: usize = 0;
    assert(v.take(0) =~= Seq::<CodeView>::empty());
    while i < cs.len()
        invariant
            v == view_codes(cs@),
            i <= cs.len(),
            total <= 0xffff,
            total == codes_size(v.take(i as int)),
        decreases cs.len() - i,
    {
        proof {
            lemma_codes_size_take(v, i as int);
            lemma_codes_size_prefix_le(v, i as int + 1);
        }
        let size: u32 = match &cs[i] {
            Code::Block { label, contents } => {
                proof {
                    lemma_block_contents_view(*label, *contents);
                    assert(decreases_to!(cs@ => cs@[i as int]));
                }
                match measure_codes(contents) {
                    Some(s) => s as u32,
                    None => {
                        return None;
                    },
                }
            },
            Code::String(s) => {
                let units = encode_utf16(s.as_str());
                if units.len() > 0xffff {
                    return None;
                }
                units.len() as u32
            },
            Code::ImmediateInstruction { .. } => 2,
            _ => 1,
        };
        if total + size > 0xffff {
            return None;
        }
        total = total + size;
        i = i + 1;
    }
    assert(v.take(i as int) =~= v);
    Some(total as u16)
}

proof fn lemma_codes_size_prefix_le(v: Seq<CodeView>, i: int)
    requires
        0 <= i <= v.len(),
    ensures
        codes_size(v.take(i)) <= codes_size(v),
    decreases v.len() - i,
{
    if i < v.len() {
        lemma_codes_size_take(v, i);
        lemma_codes_size_prefix_le(v, i + 1);
    } else {
        assert(v.take(i) =~= v);
    }
}

impl Code {
    /// The size in words of what this node emits.
    pub fn size(&self) -> (r: u16)
        requires
            code_size(self@) <= 0xffff,
        ensures
            r == code_size(self@),
    {
        let ghost one = seq![self@];
        assert(one.subrange(0, 0) =~= Seq::<CodeView>::empty());
        assert(codes_size(Seq::<CodeView>::empty()) == 0);
        assert(one[0] == self@);
        assert(code_size(self@) == node_size(self@, match self@ {
            CodeView::Block { contents, .. } => codes_size(contents),
            _ => 0,
        }));
        match self {
            Code::Block { label, contents } => {
                proof {
                    lemma_block_contents_view(*label, *contents);
                }
                match measure_codes(contents) {
                    Some(s) => s,
                    None => 0,
                }
            },
            Code::String(s) => encode_utf16(s.as_str()).len() as u16,
            Code::ImmediateInstruction { .. } => 2,
            _ => 1,
        }
    }
}

/// A label definition as the symbol table holds it.
#[derive(Debug, Clone, PartialEq, Eq, Hash)]
pub struct SymbolTableEntry {
    pub name: Vec<char>,
    pub segment_index: u16,
    pub segment_offset: u16,
    pub source_span: SourceSpan,
}

impl View for SymbolTableEntry {
    type V = Definition;

    open spec fn view(&self) -> Definition {
        Definition {
            name: self.name@,
            segment_index: self.segment_index,
            segment_offset: self.segment_offset as nat,
            span: self.source_span,
        }
    }
}

pub open spec fn entries_view(es: Seq<SymbolTableEntry>) -> Seq<Definition> {
    es.map_values(|e: SymbolTableEntry| e@)
}

fn qualify_exec(context: &Vec<char>, label: &Vec<char>) -> (r: Vec<char>)
    ensures
        r@ == qualify(context@, label@),
{
    let mut out: Vec<char> = Vec::new();
    if context.len() > 0 {
        let mut i: usize = 0;
        while i < context.len()
            invariant
                i <= context.len(),
                out@ == context@.take(i as int),
            decreases context.len() - i,
        {
            out.push(context[i]);
            i = i + 1;
            assert(out@ =~= context@.take(i as int));
        }
        out.push('.');
    }
    let ghost base = out@;
    let mut j: usize = 0;
    while j < label.len()
        invariant
            j <= label.len(),
            out@ == base + label@.take(j as int),
        decreases label.len() - j,
    {
        out.push(label[j]);
        j = j + 1;
        assert(out@ =~= base + label@.take(j as int));
    }
    assert(label@.take(j as int) =~= label@);
    assert(context@.take(context@.len() as int) =~= context@);
    assert(out@ =~= qualify(context@, label@));
    out
}

proof fn lemma_definitions_take(v: Seq<CodeView>, i: int, segment: u16, base: nat, context: Seq<char>)
    requires
        0 <= i < v.len(),
    ensures
        definitions(v.take(i + 1), segment, base, context) == definitions(v.take(i), segment, base, context) + match v[i] {
            CodeView::Block { label, span, contents } => {
                let name = qualify(context, label);
                let offset = base + codes_size(v.take(i));
                seq![Definition { name, segment_index: segment, segment_offset: offset, span }] + definitions(contents, segment, offset, name)
            },
            _ => Seq::<Definition>::empty(),
        },
{
    assert(v.take(i + 1).subrange(0, i) =~= v.take(i));
    match v[i] {
        CodeView::Block { .. } => {},
        _ => {
            assert(definitions(v.take(i), segment, base, context) + Seq::<Definition>::empty() =~= definitions(v.take(i), segment, base, context));
        },
    }
}

/// Appends the definitions of the blocks of `cs`, which starts at offset `base` of segment
/// `segment` inside the blocks named by `context`.
fn collect_definitions(cs: &Vec<Code>, segment: u16, base: u16, context: &Vec<char>, out: &mut Vec<SymbolTableEntry>)
    requires
        base + codes_size(view_codes(cs@)) <= 0xffff,
    ensures
        entries_view(final(out)@) == entries_view(old(out)@) + definitions(view_codes(cs@), segment, base as nat, context@),
    decreases cs@,
{
    let ghost v = view_codes(cs@);
    let ghost start = entries_view(out@);
    let mut offset: u16 = base;
    let mut i: usize = 0;
    assert(v.take(0) =~= Seq::<CodeView>::empty());
    assert(start + Seq::<Definition>::empty() =~= start);
    while i < cs.len()
        invariant
            v == view_codes(cs@),
            i <= cs.len(),
            base + codes_size(v) <= 0xffff,
            offset == base + codes_size(v.take(i as int)),
            entries_view(out@) == start + definitions(v.take(i as int), segment, base as nat, context@),
        decreases cs.len() - i,
    {
        proof {
            lemma_codes_size_take(v, i as int);
            lemma_codes_size_prefix_le(v, i as int + 1);
            lemma_definitions_take(v, i as int, segment, base as nat, context@);
        }
        let ghost before = entries_view(out@);
        let size: u16 = match &cs[i] {
            Code::Block { label, contents } => {
                proof {
                    lemma_block_contents_view(*label, *contents);
                    assert(decreases_to!(cs@ => cs@[i as int]));
                }
                let label_chars = chars_of(label.label.as_str());
                let name = qualify_exec(context, &label_chars);
                let entry = SymbolTableEntry { name: qualify_exec(context, &label_chars), segment_index: segment, segment_offset: offset, source_span: label.source_span };
                let ghost ev = entry@;
                let ghost name_view = entry.name@;
                out.push(entry);
                proof {
                    assert(entries_view(out@) =~= before.push(ev));
                }
                let ghost mid = entries_view(out@);
                collect_definitions(contents, segment, offset, &name, out);
                proof {
                    assert(entries_view(out@) =~= before + (seq![ev] + definitions(view_codes(contents@), segment, offset as nat, name@)));
                }
                match measure_codes(contents) {
                    Some(s) => s,
                    None => 0,
                }
            },
            Code::String(s) => encode_utf16(s.as_str()).len() as u16,
            Code::ImmediateInstruction { .. } => 2,
            _ => 1,
        };
        offset = offset + size;
        i = i + 1;
        proof {
            if !(cs@[i - 1] is Block) {
                assert(entries_view(out@) == before);
            }
            assert(entries_view(out@) =~= start + definitions(v.take(i as int), segment, base as nat, context@));
        }
    }
    assert(v.take(i as int) =~= v);
}


pub open spec fn strings_view(s: Seq<String>) -> Seq<Seq<char>> {
    s.map_values(|x: String| x@)
}

pub open spec fn emission_of(seg: Segment, unresolved: Seq<String>) -> Emission {
    Emission {
        contents: seg.contents@,
        relocations: seg.relocation_table@,
        exports: seg.export_table@.map_values(|e: crate::poki::ExportTableEntry| e@),
        unresolved: strings_view(unresolved),
    }
}

pub open spec fn names_view(names: Seq<Vec<char>>) -> Seq<Seq<char>> {
    names.map_values(|v: Vec<char>| v@)
}

/// The index of the first entry among the first `upto` whose name is `name`.
fn lookup_entry(ds: &Vec<SymbolTableEntry>, upto: usize, name: &Vec<char>) -> (r: Option<usize>)
    requires
        upto <= ds@.len(),
    ensures
        match lookup(entries_view(ds@).take(upto as int), name@) {
            Some(d) => r matches Some(i) && i < upto && ds@[i as int]@ == d,
            None => r is None,
        },
{
    let ghost whole = entries_view(ds@).take(upto as int);
    let mut i: usize = 0;
    assert(whole.skip(0) =~= whole);
    while i < upto
        invariant
            upto <= ds@.len(),
            whole == entries_view(ds@).take(upto as int),
            i <= upto,
            lookup(whole, name@) == lookup(whole.skip(i as int), name@),
        decreases upto - i,
    {
        assert(whole.skip(i as int)[0] == ds@[i as int]@);
        assert(whole.skip(i as int).drop_first() =~= whole.skip(i as int + 1));
        if chars_equal(&ds[i].name, name) {
            return Some(i);
        }
        i = i + 1;
    }
    None
}

/// The index of the first entry of `table` equal to `name`.
fn index_in(table: &Vec<String>, name: &String) -> (r: Option<usize>)
    ensures
        match index_of(strings_view(table@), name@) {
            Some(k) => r == Some(k as usize),
            None => r is None,
        },
{
    let ghost whole = strings_view(table@);
    let mut i: usize = 0;
    assert(whole.skip(0) =~= whole);
    while i < table.len()
        invariant
            whole == strings_view(table@),
            i <= table.len(),
            index_of(whole, name@) == match index_of(whole.skip(i as int), name@) {
                Some(k) => Some(k + i),
                None => None,
            },
        decreases table.len() - i,
    {
        assert(whole.skip(i as int)[0] == table@[i as int]@);
        assert(whole.skip(i as int).drop_first() =~= whole.skip(i as int + 1));
        if table[i] == *name {
            return Some(i);
        }
        i = i + 1;
    }
    None
}

proof fn lemma_index_of_bounds(table: Seq<Seq<char>>, name: Seq<char>)
    ensures
        index_of(table, name) matches Some(k) ==> 0 <= k < table.len(),
    decreases table.len(),
{
    if table.len() > 0 {
        lemma_index_of_bounds(table.drop_first(), name);
    }
}

/// Records a relocation of the word at `offset` to `label`; see `relocate`.
fn add_relocation(seg: &mut Segment, unresolved: &mut Vec<String>, ds: &Vec<SymbolTableEntry>, label: &String, offset: u16)
    ensures
        emission_of(*final(seg), final(unresolved)@) == relocate(emission_of(*old(seg), old(unresolved)@), entries_view(ds@), label@, offset as int),
{
    let name = chars_of(label.as_str());
    let _n = unresolved.len();
    let ghost e = emission_of(*seg, unresolved@);
    assert(entries_view(ds@).take(ds@.len() as int) =~= entries_view(ds@));
    proof {
        lemma_index_of_bounds(e.unresolved, label@);
    }
    match lookup_entry(ds, ds.len(), &name) {
        Some(i) => {
            let entry = RelocationTableEntry { offset, segment_index: ds[i].segment_index, segment_offset: ds[i].segment_offset };
            seg.relocation_table.push(entry);
            proof {
                let r = relocate(e, entries_view(ds@), label@, offset as int);
                assert(r.relocations == e.relocations.push(entry));
                assert(emission_of(*seg, unresolved@).relocations == r.relocations);
                assert(emission_of(*seg, unresolved@).exports =~= r.exports);
                assert(emission_of(*seg, unresolved@).unresolved =~= r.unresolved);
            }
        },
        None => {
            let index = match index_in(unresolved, label) {
                Some(k) => k,
                None => {
                    unresolved.push(label.clone());
                    proof {
                        assert(strings_view(unresolved@) =~= e.unresolved.push(label@));
                    }
                    unresolved.len() - 1
                },
            };
            let segment_offset = (index % 0x10000) as u16;
            let entry = RelocationTableEntry { offset, segment_index: 0xffff, segment_offset };
            seg.relocation_table.push(entry);
            proof {
                let r = relocate(e, entries_view(ds@), label@, offset as int);
                assert(lookup(entries_view(ds@), label@) is None);
                match index_of(e.unresolved, label@) {
                    Some(k) => {
                        assert(index as int == k);
                    },
                    None => {
                        assert(index as int == e.unresolved.len());
                    },
                }
                assert(r.relocations == e.relocations.push(entry));
                assert(emission_of(*seg, unresolved@).relocations == r.relocations);
                assert(emission_of(*seg, unresolved@).exports =~= r.exports);
                assert(emission_of(*seg, unresolved@).unresolved =~= r.unresolved);
            }
        },
    }
}


fn contains_name(names: &Vec<Vec<char>>, name: &Vec<char>) -> (r: bool)
    ensures
        r == names_view(names@).contains(name@),
{
    let mut i: usize = 0;
    while i < names.len()
        invariant
            i <= names.len(),
            forall|j: int| 0 <= j < i ==> names@[j]@ != name@,
        decreases names.len() - i,
    {
        if chars_equal(&names[i], name) {
            assert(names_view(names@)[i as int] == name@);
            return true;
        }
        i = i + 1;
    }
    proof {
        if names_view(names@).contains(name@) {
            let j = choose|j: int| 0 <= j < names_view(names@).len() && names_view(names@)[j] == name@;
            assert(names@[j]@ == name@);
        }
    }
    false
}

fn encode_instruction(opcode: u16, dst: u16, src: u16) -> (r: u16)
    ensures
        r == instruction_word(opcode, dst, src),
{
    opcode | (dst << 6) | (src << 11)
}

proof fn lemma_emit_take(v: Seq<CodeView>, i: int, e: Emission, ds: Seq<Definition>, exports: Seq<Seq<char>>)
    requires
        0 <= i < v.len(),
    ensures
        emit_codes(v.take(i + 1), e, ds, exports) == match v[i] {
            CodeView::Block { label, contents, .. } => {
                let e1 = emit_codes(v.take(i), e, ds, exports);
                let e2 = if exports.contains(label) {
                    Emission { exports: e1.exports.push((label, e1.contents.len() as u16)), ..e1 }
                } else {
                    e1
                };
                emit_codes(contents, e2, ds, exports)
            },
            other => emit_node(other, emit_codes(v.take(i), e, ds, exports), ds),
        },
{
    assert(v.take(i + 1).subrange(0, i) =~= v.take(i));
}

/// Emits `cs` into the segment `seg`, adding unresolved labels to `unresolved`.
fn emit_code_seq(cs: &Vec<Code>, seg: &mut Segment, unresolved: &mut Vec<String>, ds: &Vec<SymbolTableEntry>, exports: &Vec<Vec<char>>)
    requires
        old(seg).contents@.len() + codes_size(view_codes(cs@)) <= 0xffff,
    ensures
        emission_of(*final(seg), final(unresolved)@) == emit_codes(view_codes(cs@), emission_of(*old(seg), old(unresolved)@), entries_view(ds@), names_view(exports@)),
        final(seg).contents@.len() == old(seg).contents@.len() + codes_size(view_codes(cs@)),
    decreases cs@,
{
    let ghost v = view_codes(cs@);
    let ghost e0 = emission_of(*seg, unresolved@);
    let ghost dv = entries_view(ds@);
    let ghost xv = names_view(exports@);
    let ghost base = seg.contents@.len();
    let mut i: usize = 0;
    assert(v.take(0) =~= Seq::<CodeView>::empty());
    while i < cs.len()
        invariant
            v == view_codes(cs@),
            dv == entries_view(ds@),
            xv == names_view(exports@),
            i <= cs.len(),
            base + codes_size(v) <= 0xffff,
            seg.contents@.len() == base + codes_size(v.take(i as int)),
            emission_of(*seg, unresolved@) == emit_codes(v.take(i as int), e0, dv, xv),
        decreases cs.len() - i,
    {
        proof {
            lemma_emit_take(v, i as int, e0, dv, xv);
            lemma_codes_size_take(v, i as int);
            lemma_codes_size_prefix_le(v, i as int + 1);
        }
        let ghost prev = emission_of(*seg, unresolved@);
        let at = seg.contents.len();
        match &cs[i] {
            Code::Block { label, contents } => {
                proof {
                    lemma_block_contents_view(*label, *contents);
                    assert(decreases_to!(cs@ => cs@[i as int]));
                }
                let label_chars = chars_of(label.label.as_str());
                if contains_name(exports, &label_chars) {
                    let entry = crate::poki::ExportTableEntry { label: label.label.clone(), offset: at as u16 };
                    seg.export_table.push(entry);
                    proof {
                        assert(emission_of(*seg, unresolved@).exports =~= prev.exports.push((label.label@, at as u16)));
                    }
                }
                emit_code_seq(contents, seg, unresolved, ds, exports);
            },
            Code::String(s) => {
                let units = encode_utf16(s.as_str());
                let mut j: usize = 0;
                while j < units.len()
                    invariant
                        j <= units.len(),
                        seg.contents@ == prev.contents + units@.take(j as int),
                        seg.relocation_table@ == prev.relocations,
                        emission_of(*seg, unresolved@).exports == prev.exports,
                        strings_view(unresolved@) == prev.unresolved,
                    decreases units.len() - j,
                {
                    seg.contents.push(units[j]);
                    j = j + 1;
                    assert(seg.contents@ =~= prev.contents + units@.take(j as int));
                }
                assert(units@.take(j as int) =~= units@);
            },
            Code::Number(n) => {
                seg.contents.push(*n);
            },
            Code::Instruction { opcode, dst, src } => {
                seg.contents.push(encode_instruction(opcode.code(), dst.index(), src.index()));
            },
            Code::ImmediateInstruction { opcode, dst, src, imm } => {
                seg.contents.push(encode_instruction(opcode.code(), dst.index(), src.index()));
                match imm {
                    Immediate::Number(n) => {
                        seg.contents.push(*n);
                    },
                    Immediate::Label(l) => {
                        add_relocation(seg, unresolved, ds, &l.label, (at + 1) as u16);
                        seg.contents.push(0);
                    },
                }
            },
            Code::RCSR { dst, src } => {
                seg.contents.push(encode_instruction(Opcode::RCSR.code(), dst.index(), src.index()));
            },
            Code::WCSR { dst, src } => {
                seg.contents.push(encode_instruction(Opcode::WCSR.code(), dst.index(), src.index()));
            },
            Code::JSH { imm } => {
                match imm {
                    Immediate::Number(n) => {
                        seg.contents.push(Opcode::JSH.code() | (*n << 6));
                    },
                    Immediate::Label(l) => {
                        add_relocation(seg, unresolved, ds, &l.label, at as u16);
                        seg.contents.push(Opcode::JSH.code());
                    },
                }
            },
        }
        i = i + 1;
    }
    assert(v.take(i as int) =~= v);
}


/// The first definition, from index `j` on, whose name an earlier one already has.
fn find_duplicate(ds: &Vec<SymbolTableEntry>) -> (r: Option<AssembleError>)
    ensures
        r == first_duplicate(entries_view(ds@), 0),
{
    let ghost dv = entries_view(ds@);
    let mut j: usize = 0;
    while j < ds.len()
        invariant
            dv == entries_view(ds@),
            j <= ds.len(),
            first_duplicate(dv, 0) == first_duplicate(dv, j as int),
        decreases ds.len() - j,
    {
        assert(entries_view(ds@).take(j as int) =~= dv.take(j as int));
        match lookup_entry(ds, j, &ds[j].name) {
            Some(i) => {
                return Some(AssembleError::DuplicateLabel { first: ds[i].source_span, second: ds[j].source_span });
            },
            None => {},
        }
        j = j + 1;
    }
    None
}

/// The first segment whose code does not fit in 0xFFFF words.
fn find_oversized(segments: &Vec<Vec<Code>>) -> (r: Option<AssembleError>)
    requires
        segments@.len() == 8,
    ensures
        r == first_oversized(program_segments_view(segments@), 0),
{
    let ghost pv = program_segments_view(segments@);
    let mut k: usize = 0;
    while k < 8
        invariant
            pv == program_segments_view(segments@),
            segments@.len() == 8,
            k <= 8,
            first_oversized(pv, 0) == first_oversized(pv, k as int),
        decreases 8 - k,
    {
        if measure_codes(&segments[k]).is_none() {
            return Some(AssembleError::OversizedSegment { segment_index: k as u16 });
        }
        k = k + 1;
    }
    None
}

/// A program with these segments and no exports; only its segments matter here.
pub open spec fn program_segments_view(segments: Seq<Vec<Code>>) -> ProgramView {
    ProgramView { exports: Seq::empty(), segments: segments.map_values(|s: Vec<Code>| view_codes(s@)) }
}

pub open spec fn segments_fit(p: ProgramView) -> bool {
    forall|k: int| 0 <= k < 8 ==> codes_size(#[trigger] p.segments[k]) <= 0xffff
}

proof fn lemma_first_oversized_none(p: ProgramView, k: int)
    requires
        0 <= k <= 8,
        first_oversized(p, k) is None,
    ensures
        forall|m: int| k <= m < 8 ==> codes_size(#[trigger] p.segments[m]) <= 0xffff,
    decreases 8 - k,
{
    if k < 8 {
        lemma_first_oversized_none(p, k + 1);
    }
}

impl Program {
    /// The label definitions of all eight segments, in the order of a depth-first walk; or
    /// the first segment that is too large to address, or the first label defined twice.
    pub fn symbol_table(&self) -> (r: Result<Vec<SymbolTableEntry>, AssembleError>)
        requires
            self.segments@.len() == 8,
        ensures
            match first_oversized(self@, 0) {
                Some(e) => r == Err::<Vec<SymbolTableEntry>, AssembleError>(e),
                None => match first_duplicate(program_definitions(self@), 0) {
                    Some(e) => r == Err::<Vec<SymbolTableEntry>, AssembleError>(e),
                    None => r matches Ok(t) && entries_view(t@) == program_definitions(self@),
                },
            },
    {
        let ghost pv = self@;
        assert(program_segments_view(self.segments@).segments == pv.segments);
        proof {
            lemma_first_oversized_same(program_segments_view(self.segments@), pv, 0);
        }
        if let Some(e) = find_oversized(&self.segments) {
            return Err(e);
        }
        proof {
            lemma_first_oversized_none(pv, 0);
        }
        let mut table: Vec<SymbolTableEntry> = Vec::new();
        let empty: Vec<char> = Vec::new();
        let mut k: usize = 0;
        assert(entries_view(table@) =~= Seq::<Definition>::empty());
        while k < 8
            invariant
                pv == self@,
                self.segments@.len() == 8,
                empty@.len() == 0,
                k <= 8,
                segments_fit(pv),
                program_definitions(pv) == entries_view(table@) + definitions_from(pv, k as int),
            decreases 8 - k,
        {
            assert(pv.segments[k as int] == view_codes(self.segments@[k as int]@));
            assert(codes_size(pv.segments[k as int]) <= 0xffff);
            let ghost before = entries_view(table@);
            collect_definitions(&self.segments[k], k as u16, 0, &empty, &mut table);
            assert(empty@ =~= Seq::<char>::empty());
            assert(before + definitions_from(pv, k as int) =~= entries_view(table@) + definitions_from(pv, k as int + 1));
            k = k + 1;
        }
        assert(entries_view(table@) + definitions_from(pv, 8) =~= entries_view(table@));
        if let Some(e) = find_duplicate(&table) {
            return Err(e);
        }
        Ok(table)
    }
}

proof fn lemma_first_oversized_same(a: ProgramView, b: ProgramView, k: int)
    requires
        a.segments == b.segments,
    ensures
        first_oversized(a, k) == first_oversized(b, k),
    decreases 8 - k,
{
    if 0 <= k < 8 {
        lemma_first_oversized_same(a, b, k + 1);
    }
}


/// Assembles one source text into an object file.
pub struct Assembler {
    pub program: Program,
}

/// Why a source text could not be assembled.
#[derive(Debug, Clone, Copy, PartialEq, Eq, Hash, Structural)]
pub enum AssemblyError {
    Parse(crate::parse::ParseError),
    Assemble(AssembleError),
}

/// The object file that source text assembles to, or why it does not.
pub open spec fn assemble_source(s: Seq<char>) -> Result<PokiView, AssemblyError> {
    match crate::parse::parse_source(s) {
        Err(e) => Err(AssemblyError::Parse(e)),
        Ok(p) => match assemble_program(p) {
            Err(e) => Err(AssemblyError::Assemble(e)),
            Ok(v) => Ok(v),
        },
    }
}

impl Assembler {
    /// Parses `source`.
    pub fn try_new(source: &str) -> (r: Result<Assembler, crate::parse::ParseError>)
        requires
            byte_len(source@) <= usize::MAX,
        ensures
            match crate::parse::parse_source(source@) {
                Ok(p) => r matches Ok(a) && a.program@ == p && a.program.segments@.len() == 8,
                Err(e) => r == Err::<Assembler, crate::parse::ParseError>(e),
            },
    {
        let parser = crate::parse::Parser::new(source);
        let program = parser.parse()?;
        Ok(Assembler { program })
    }

    /// The first export that names no definition in `table`.
    fn check_exports(&self, table: &Vec<SymbolTableEntry>) -> (r: Option<AssembleError>)
        ensures
            r == first_undefined_export(self.program@, entries_view(table@), 0),
    {
        let ghost pv = self.program@;
        assert(entries_view(table@).take(table@.len() as int) =~= entries_view(table@));
        let mut j: usize = 0;
        while j < self.program.exports.len()
            invariant
                pv == self.program@,
                j <= self.program.exports@.len(),
                entries_view(table@).take(table@.len() as int) == entries_view(table@),
                first_undefined_export(pv, entries_view(table@), 0) == first_undefined_export(pv, entries_view(table@), j as int),
            decreases self.program.exports@.len() - j,
        {
            let name = chars_of(self.program.exports[j].label.as_str());
            if lookup_entry(table, table.len(), &name).is_none() {
                return Some(AssembleError::UndefinedExport { span: self.program.exports[j].source_span });
            }
            j = j + 1;
        }
        None
    }

    /// Assembles the program: every segment's words, relocations and exports, and the table of
    /// labels used but not defined.
    pub fn assemble(self) -> (r: Result<Poki, AssembleError>)
        requires
            self.program.segments@.len() == 8,
        ensures
            match assemble_program(self.program@) {
                Ok(v) => r matches Ok(p) && p@ == v && p.wf(),
                Err(e) => r == Err::<Poki, AssembleError>(e),
            },
    {
        let ghost pv = self.program@;
        let table = self.program.symbol_table()?;
        let ghost dv = entries_view(table@);
        if let Some(e) = self.check_exports(&table) {
            return Err(e);
        }
        proof {
            lemma_first_oversized_none(pv, 0);
        }
        let mut exports: Vec<Vec<char>> = Vec::new();
        let mut j: usize = 0;
        while j < self.program.exports.len()
            invariant
                pv == self.program@,
                j <= self.program.exports@.len(),
                names_view(exports@) == pv.exports.take(j as int).map_values(|x: (Seq<char>, SourceSpan)| x.0),
            decreases self.program.exports@.len() - j,
        {
            let ghost before = names_view(exports@);
            let name = chars_of(self.program.exports[j].label.as_str());
            assert(pv.exports[j as int].0 == name@);
            exports.push(name);
            assert(names_view(exports@) =~= before.push(name@));
            j = j + 1;
            assert(names_view(exports@) =~= pv.exports.take(j as int).map_values(|x: (Seq<char>, SourceSpan)| x.0));
        }
        assert(pv.exports.take(j as int) =~= pv.exports);
        let ghost xv = names_view(exports@);
        let mut unresolved: Vec<String> = Vec::new();
        let mut segments: Vec<Segment> = Vec::new();
        let ghost sv = |s: Segment| s@;
        let mut k: usize = 0;
        assert(strings_view(unresolved@) =~= Seq::<Seq<char>>::empty());
        assert(segments@.map_values(sv) =~= Seq::<SegmentView>::empty());
        while k < 8
            invariant
                pv == self.program@,
                self.program.segments@.len() == 8,
                dv == entries_view(table@),
                dv == program_definitions(pv),
                xv == names_view(exports@),
                xv == pv.exports.map_values(|x: (Seq<char>, SourceSpan)| x.0),
                sv == (|s: Segment| s@),
                segments_fit(pv),
                k <= 8,
                segments@.len() == k,
                emit_segments(pv, 0, Seq::empty(), dv) == (
                    segments@.map_values(sv) + emit_segments(pv, k as int, strings_view(unresolved@), dv).0,
                    emit_segments(pv, k as int, strings_view(unresolved@), dv).1,
                ),
            decreases 8 - k,
        {
            let ghost before = segments@.map_values(sv);
            let ghost u0 = strings_view(unresolved@);
            let mut segment = Segment::new();
            assert(pv.segments[k as int] == view_codes(self.program.segments@[k as int]@));
            assert(codes_size(pv.segments[k as int]) <= 0xffff);
            proof {
                let e = emission_of(segment, unresolved@);
                assert(e.contents =~= Seq::<u16>::empty());
                assert(e.relocations =~= Seq::<RelocationTableEntry>::empty());
                assert(e.exports =~= Seq::<(Seq<char>, u16)>::empty());
            }
            emit_code_seq(&self.program.segments[k], &mut segment, &mut unresolved, &table, &exports);
            let ghost seg_view = segment@;
            segments.push(segment);
            proof {
                assert(segments@.map_values(sv) =~= before.push(seg_view));
                let rest = emit_segments(pv, k as int + 1, strings_view(unresolved@), dv);
                assert(before + emit_segments(pv, k as int, u0, dv).0 =~= segments@.map_values(sv) + rest.0);
            }
            k = k + 1;
        }
        assert(segments@.map_values(sv) + Seq::<SegmentView>::empty() =~= segments@.map_values(sv));
        if unresolved.len() > 0xffff {
            return Err(AssembleError::OversizedUnresolvedTable);
        }
        let poki = Poki { segments, unresolved_table: unresolved };
        assert(poki@.unresolved =~= strings_view(unresolved@));
        Ok(poki)
    }
}

/// Assembles source text into an object file.
pub fn assemble(source: &str) -> (r: Result<Poki, AssemblyError>)
    requires
        byte_len(source@) <= usize::MAX,
    ensures
        match assemble_source(source@) {
            Ok(v) => r matches Ok(p) && p@ == v && p.wf(),
            Err(e) => r == Err::<Poki, AssemblyError>(e),
        },
{
    match Assembler::try_new(source) {
        Err(e) => Err(AssemblyError::Parse(e)),
        Ok(a) => match a.assemble() {
            Err(e) => Err(AssemblyError::Assemble(e)),
            Ok(p) => Ok(p),
        },
    }
}


/// Assembling depends on the source alone: two runs on one source that both succeed give
/// the same object file, and so byte-identical output.
pub proof fn assembly_is_deterministic(s: Seq<char>, a: PokiView, b: PokiView)
    requires
        assemble_source(s) == Ok::<PokiView, AssemblyError>(a),
        assemble_source(s) == Ok::<PokiView, AssemblyError>(b),
    ensures
        a == b,
        crate::poki::bytes_of(crate::poki::poki_words(a)) == crate::poki::bytes_of(crate::poki::poki_words(b)),
{
}

proof fn lemma_lookup_none(ds: Seq<Definition>, name: Seq<char>)
    requires
        lookup(ds, name) is None,
    ensures
        forall|i: int| 0 <= i < ds.len() ==> (#[trigger] ds[i]).name != name,
    decreases ds.len(),
{
    if ds.len() > 0 {
        lemma_lookup_none(ds.drop_first(), name);
        assert forall|i: int| 0 <= i < ds.len() implies (#[trigger] ds[i]).name != name by {
            if i > 0 {
                assert(ds[i] == ds.drop_first()[i - 1]);
            }
        }
    }
}

proof fn lemma_no_duplicate(ds: Seq<Definition>, j: int)
    requires
        0 <= j,
        first_duplicate(ds, j) is None,
    ensures
        forall|a: int, b: int| 0 <= a < b < ds.len() && j <= b ==> (#[trigger] ds[a]).name != (#[trigger] ds[b]).name,
    decreases ds.len() - j,
{
    if j < ds.len() {
        lemma_no_duplicate(ds, j + 1);
        lemma_lookup_none(ds.take(j), ds[j].name);
        assert forall|a: int, b: int| 0 <= a < b < ds.len() && j <= b implies (#[trigger] ds[a]).name != (#[trigger] ds[b]).name by {
            if b == j {
                assert(ds.take(j)[a] == ds[a]);
            }
        }
    }
}

/// In every program that assembles, each qualified label is defined exactly once: no two
/// definitions share a name.
pub proof fn symbol_table_disjointness(p: ProgramView)
    requires
        assemble_program(p) is Ok,
    ensures
        forall|a: int, b: int| 0 <= a < program_definitions(p).len() && 0 <= b < program_definitions(p).len()
            && (#[trigger] program_definitions(p)[a]).name == (#[trigger] program_definitions(p)[b]).name ==> a == b,
{
    let ds = program_definitions(p);
    lemma_no_duplicate(ds, 0);
    assert forall|a: int, b: int| 0 <= a < ds.len() && 0 <= b < ds.len() && (#[trigger] ds[a]).name == (#[trigger] ds[b]).name implies a == b by {
        if a < b {
            assert(ds[a].name != ds[b].name);
        } else if b < a {
            assert(ds[b].name != ds[a].name);
        }
    }
}


proof fn lemma_emit_len(cs: Seq<CodeView>, e: Emission, ds: Seq<Definition>, xs: Seq<Seq<char>>)
    ensures
        emit_codes(cs, e, ds, xs).contents.len() == e.contents.len() + codes_size(cs),
        emit_codes(cs, e, ds, xs).unresolved.len() >= e.unresolved.len(),
    decreases cs,
{
    if cs.len() > 0 {
        let front = cs.subrange(0, cs.len() - 1);
        lemma_emit_len(front, e, ds, xs);
        let e1 = emit_codes(front, e, ds, xs);
        match cs[cs.len() - 1] {
            CodeView::Block { label, contents, .. } => {
                let e2 = if xs.contains(label) {
                    Emission { exports: e1.exports.push((label, e1.contents.len() as u16)), ..e1 }
                } else {
                    e1
                };
                lemma_emit_len(contents, e2, ds, xs);
            },
            _ => {},
        }
    }
}

/// Whether a relocation points into the program: at a definition's offset, which is at
/// most the length of the segment it is in, or at an entry of an unresolved table of
/// `unresolved` entries.
pub open spec fn relocation_points_into(p: ProgramView, r: RelocationTableEntry, unresolved: nat) -> bool {
    ||| (r.segment_index < 8 && r.segment_offset <= codes_size(p.segments[r.segment_index as int]))
    ||| (r.segment_index == 0xffff && r.segment_offset < unresolved)
}

pub open spec fn relocations_point_into(p: ProgramView, rs: Seq<RelocationTableEntry>, unresolved: nat) -> bool {
    forall|i: int| 0 <= i < rs.len() ==> relocation_points_into(p, #[trigger] rs[i], unresolved)
}

pub open spec fn definitions_point_into(p: ProgramView, ds: Seq<Definition>) -> bool {
    forall|i: int| 0 <= i < ds.len() ==> (#[trigger] ds[i]).segment_index < 8 && ds[i].segment_offset <= codes_size(p.segments[ds[i].segment_index as int]) && ds[i].segment_offset <= 0xffff
}

proof fn lemma_lookup_member(ds: Seq<Definition>, name: Seq<char>)
    ensures
        lookup(ds, name) matches Some(d) ==> exists|i: int| 0 <= i < ds.len() && ds[i] == d,
    decreases ds.len(),
{
    if ds.len() > 0 {
        lemma_lookup_member(ds.drop_first(), name);
        if let Some(d) = lookup(ds.drop_first(), name) {
            if ds[0].name != name {
                let i = choose|i: int| 0 <= i < ds.drop_first().len() && ds.drop_first()[i] == d;
                assert(ds[i + 1] == d);
            }
        }
    }
}

proof fn lemma_relocate_points_into(p: ProgramView, e: Emission, ds: Seq<Definition>, name: Seq<char>, offset: int, bound: nat)
    requires
        definitions_point_into(p, ds),
        relocations_point_into(p, e.relocations, e.unresolved.len()),
        relocate(e, ds, name, offset).unresolved.len() <= bound,
        bound <= 0xffff,
    ensures
        relocations_point_into(p, relocate(e, ds, name, offset).relocations, relocate(e, ds, name, offset).unresolved.len()),
        relocate(e, ds, name, offset).contents == e.contents,
        relocate(e, ds, name, offset).unresolved.len() >= e.unresolved.len(),
{
    lemma_lookup_member(ds, name);
    lemma_index_of_bounds(e.unresolved, name);
    let r = relocate(e, ds, name, offset);
    assert forall|i: int| 0 <= i < r.relocations.len() implies relocation_points_into(p, #[trigger] r.relocations[i], r.unresolved.len()) by {
        if i < e.relocations.len() {
            assert(relocation_points_into(p, e.relocations[i], e.unresolved.len()));
        } else {
            if let Some(d) = lookup(ds, name) {
                let j = choose|j: int| 0 <= j < ds.len() && ds[j] == d;
                assert(ds[j].segment_index < 8);
            }
        }
    }
}

proof fn lemma_emit_points_into(p: ProgramView, cs: Seq<CodeView>, e: Emission, ds: Seq<Definition>, xs: Seq<Seq<char>>, bound: nat)
    requires
        definitions_point_into(p, ds),
        relocations_point_into(p, e.relocations, e.unresolved.len()),
        emit_codes(cs, e, ds, xs).unresolved.len() <= bound,
        bound <= 0xffff,
    ensures
        relocations_point_into(p, emit_codes(cs, e, ds, xs).relocations, emit_codes(cs, e, ds, xs).unresolved.len()),
    decreases cs,
{
    if cs.len() > 0 {
        let front = cs.subrange(0, cs.len() - 1);
        let e1 = emit_codes(front, e, ds, xs);
        match cs[cs.len() - 1] {
            CodeView::Block { label, contents, .. } => {
                let e2 = if xs.contains(label) {
                    Emission { exports: e1.exports.push((label, e1.contents.len() as u16)), ..e1 }
                } else {
                    e1
                };
                lemma_emit_len(contents, e2, ds, xs);
                lemma_emit_points_into(p, front, e, ds, xs, bound);
                lemma_emit_points_into(p, contents, e2, ds, xs, bound);
            },
            other => {
                let at = e1.contents.len() as int;
                assert(emit_codes(cs, e, ds, xs).unresolved.len() >= e1.unresolved.len());
                lemma_emit_points_into(p, front, e, ds, xs, bound);
                match other {
                    CodeView::ImmediateInstruction { opcode, dst, src, imm } => {
                        let e1w = emit_word(e1, instruction_word(opcode.spec_code(), dst.spec_index(), src.spec_index()));
                        if let ImmediateView::Label(l, _) = imm {
                            lemma_relocate_points_into(p, e1w, ds, l, at + 1, bound);
                        }
                    },
                    CodeView::Jsh { imm } => {
                        if let ImmediateView::Label(l, _) = imm {
                            lemma_relocate_points_into(p, e1, ds, l, at, bound);
                        }
                    },
                    _ => {},
                }
                let r = emit_codes(cs, e, ds, xs);
                assert forall|i: int| 0 <= i < r.relocations.len() implies relocation_points_into(p, #[trigger] r.relocations[i], r.unresolved.len()) by {
                    if i < e1.relocations.len() {
                        assert(relocation_points_into(p, e1.relocations[i], e1.unresolved.len()));
                    }
                }
            },
        }
    }
}


proof fn lemma_definitions_bounds(cs: Seq<CodeView>, segment: u16, base: nat, context: Seq<char>)
    ensures
        forall|i: int| 0 <= i < definitions(cs, segment, base, context).len() ==> {
            let d = #[trigger] definitions(cs, segment, base, context)[i];
            d.segment_index == segment && base <= d.segment_offset <= base + codes_size(cs)
        },
    decreases cs,
{
    if cs.len() > 0 {
        let front = cs.subrange(0, cs.len() - 1);
        lemma_definitions_bounds(front, segment, base, context);
        match cs[cs.len() - 1] {
            CodeView::Block { label, span, contents } => {
                let name = qualify(context, label);
                let offset = base + codes_size(front);
                lemma_definitions_bounds(contents, segment, offset, name);
                let before = definitions(front, segment, base, context);
                let mid = seq![Definition { name, segment_index: segment, segment_offset: offset, span }];
                let after = definitions(contents, segment, offset, name);
                let all = definitions(cs, segment, base, context);
                assert(all == before + mid + after);
                assert forall|i: int| 0 <= i < all.len() implies {
                    let d = #[trigger] all[i];
                    d.segment_index == segment && base <= d.segment_offset <= base + codes_size(cs)
                } by {
                    if i < before.len() {
                        assert(all[i] == before[i]);
                    } else if i == before.len() {
                        assert(all[i] == mid[0]);
                    } else {
                        assert(all[i] == after[i - before.len() - 1]);
                    }
                }
            },
            _ => {},
        }
    }
}

proof fn lemma_definitions_from_point_into(p: ProgramView, k: int)
    requires
        0 <= k <= 8,
        p.segments.len() == 8,
        segments_fit(p),
    ensures
        definitions_point_into(p, definitions_from(p, k)),
    decreases 8 - k,
{
    if k < 8 {
        lemma_definitions_from_point_into(p, k + 1);
        let here = definitions(p.segments[k], k as u16, 0, Seq::empty());
        lemma_definitions_bounds(p.segments[k], k as u16, 0, Seq::empty());
        let rest = definitions_from(p, k + 1);
        let all = definitions_from(p, k);
        assert(all == here + rest);
        assert(codes_size(p.segments[k]) <= 0xffff);
        assert forall|i: int| 0 <= i < all.len() implies (#[trigger] all[i]).segment_index < 8 && all[i].segment_offset <= codes_size(p.segments[all[i].segment_index as int]) && all[i].segment_offset <= 0xffff by {
            if i < here.len() {
                assert(all[i] == here[i]);
            } else {
                assert(all[i] == rest[i - here.len()]);
            }
        }
    }
}

proof fn lemma_emit_segments(p: ProgramView, k: int, unresolved: Seq<Seq<char>>, ds: Seq<Definition>)
    requires
        0 <= k <= 8,
        p.segments.len() == 8,
        definitions_point_into(p, ds),
        emit_segments(p, k, unresolved, ds).1.len() <= 0xffff,
    ensures
        emit_segments(p, k, unresolved, ds).0.len() == 8 - k,
        emit_segments(p, k, unresolved, ds).1.len() >= unresolved.len(),
        forall|j: int| 0 <= j < 8 - k ==> {
            let s = #[trigger] emit_segments(p, k, unresolved, ds).0[j];
            s.contents.len() == codes_size(p.segments[k + j])
                && relocations_point_into(p, s.relocations, emit_segments(p, k, unresolved, ds).1.len())
        },
    decreases 8 - k,
{
    if k < 8 {
        let start = Emission { contents: Seq::empty(), relocations: Seq::empty(), exports: Seq::empty(), unresolved };
        let xs = p.exports.map_values(|x: (Seq<char>, SourceSpan)| x.0);
        let e = emit_codes(p.segments[k], start, ds, xs);
        lemma_emit_len(p.segments[k], start, ds, xs);
        lemma_emit_segments(p, k + 1, e.unresolved, ds);
        let fin = emit_segments(p, k, unresolved, ds).1.len();
        lemma_emit_points_into(p, p.segments[k], start, ds, xs, fin);
        let all = emit_segments(p, k, unresolved, ds).0;
        let rest = emit_segments(p, k + 1, e.unresolved, ds).0;
        assert forall|j: int| 0 <= j < 8 - k implies {
            let s = #[trigger] all[j];
            s.contents.len() == codes_size(p.segments[k + j]) && relocations_point_into(p, s.relocations, fin)
        } by {
            if j == 0 {
                assert(relocations_point_into(p, e.relocations, e.unresolved.len()));
                assert forall|i: int| 0 <= i < e.relocations.len() implies relocation_points_into(p, #[trigger] e.relocations[i], fin) by {
                    assert(relocation_points_into(p, e.relocations[i], e.unresolved.len()));
                }
            } else {
                assert(all[j] == rest[j - 1]);
            }
        }
    }
}

/// Every relocation that assembly emits points into the object file: a resolved one names
/// one of the eight segments and an offset at most that segment's length (the length
/// itself where the label closes its segment), an unresolved one an entry of the
/// unresolved table.
pub proof fn relocation_integrity(p: ProgramView)
    requires
        p.segments.len() == 8,
        assemble_program(p) is Ok,
    ensures
        assemble_program(p) matches Ok(v) && v.segments.len() == 8 && forall|k: int, i: int| 0 <= k < 8 && 0 <= i < v.segments[k].relocations.len() ==> {
            let r = #[trigger] v.segments[k].relocations[i];
            ||| (r.segment_index < 8 && r.segment_offset <= v.segments[r.segment_index as int].contents.len())
            ||| (r.segment_index == 0xffff && r.segment_offset < v.unresolved.len())
        },
{
    let ds = program_definitions(p);
    lemma_first_oversized_none(p, 0);
    lemma_definitions_from_point_into(p, 0);
    lemma_emit_segments(p, 0, Seq::empty(), ds);
    let (segments, unresolved) = emit_segments(p, 0, Seq::empty(), ds);
    assert forall|k: int, i: int| 0 <= k < 8 && 0 <= i < segments[k].relocations.len() implies {
        let r = #[trigger] segments[k].relocations[i];
        ||| (r.segment_index < 8 && r.segment_offset <= segments[r.segment_index as int].contents.len())
        ||| (r.segment_index == 0xffff && r.segment_offset < unresolved.len())
    } by {
        let s = segments[k];
        assert(relocations_point_into(p, s.relocations, unresolved.len()));
        assert(relocation_points_into(p, s.relocations[i], unresolved.len()));
        let r = s.relocations[i];
        if r.segment_index < 8 {
            assert(segments[r.segment_index as int].contents.len() == codes_size(p.segments[r.segment_index as int]));
        }
    }
}

} // verus!
