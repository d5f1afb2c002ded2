use vstd::prelude::*;
use vstd::arithmetic::div_mod::lemma_fundamental_div_mod;
use vstd::seq_lib::lemma_flatten_concat;
use vstd::utf8::{char_is_scalar, char_u32_cast};

use crate::lex::chars_of;

verus! {

/// The UTF-16 code units of one character.
pub open spec fn char_utf16(c: char) -> Seq<u16> {
    let v = c as u32;
    if v < 0x10000 {
        seq![v as u16]
    } else {
        seq![(0xd800 + (v - 0x10000) / 0x400) as u16, (0xdc00 + (v - 0x10000) % 0x400) as u16]
    }
}

/// The UTF-16 encoding of a string.
pub open spec fn utf16_of(s: Seq<char>) -> Seq<u16> {
    s.map_values(|c: char| char_utf16(c)).flatten()
}

/// Decodes UTF-16 code units; `None` when a surrogate is unpaired.
pub open spec fn utf16_decode(u: Seq<u16>) -> Option<Seq<char>>
    decreases u.len(),
{
    if u.len() == 0 {
        Some(Seq::empty())
    } else if u[0] < 0xd800 || u[0] > 0xdfff {
        match utf16_decode(u.drop_first()) {
            Some(rest) => Some(seq![(u[0] as u32) as char] + rest),
            None => None,
        }
    } else if u[0] <= 0xdbff && u.len() >= 2 && 0xdc00 <= u[1] <= 0xdfff {
        let v = (0x10000 + (u[0] - 0xd800) * 0x400 + (u[1] - 0xdc00)) as u32;
        match utf16_decode(u.skip(2)) {
            Some(rest) => Some(seq![v as char] + rest),
            None => None,
        }
    } else {
        None
    }
}

/// The UTF-16 code units of `s`.
pub fn encode_utf16(s: &str) -> (r: Vec<u16>)
    ensures
        r@ == utf16_of(s@),
{
    let chars = chars_of(s);
    let ghost f = |c: char| char_utf16(c);
    let mut out: Vec<u16> = Vec::new();
    let mut i: usize = 0;
    assert(chars@.take(0).map_values(f) =~= Seq::<Seq<u16>>::empty());
    while i < chars.len()
        invariant
            i <= chars.len(),
            f == (|c: char| char_utf16(c)),
            out@ == chars@.take(i as int).map_values(f).flatten(),
        decreases chars.len() - i,
    {
        let c = chars[i];
        proof {
            char_is_scalar(c);
            assert(chars@.take(i + 1).map_values(f) =~= chars@.take(i as int).map_values(f).push(f(c)));
            chars@.take(i as int).map_values(f).lemma_flatten_push(f(c));
        }
        let v = c as u32;
        if v < 0x10000 {
            out.push(v as u16);
            assert(out@ =~= chars@.take(i as int).map_values(f).flatten() + char_utf16(c));
        } else {
            let x = v - 0x10000;
            out.push((0xd800 + x / 0x400) as u16);
            out.push((0xdc00 + x % 0x400) as u16);
            assert(out@ =~= chars@.take(i as int).map_values(f).flatten() + char_utf16(c));
        }
        i = i + 1;
    }
    assert(chars@.take(i as int) =~= s@);
    out
}

/// Relies on String::from_utf16: the decoded string, or an error when `units` holds an
/// unpaired surrogate.
#[verifier::external_body]
pub(crate) fn decode_utf16(units: &[u16]) -> (r: Option<String>)
    ensures
        r.is_some() == utf16_decode(units@).is_some(),
        r.is_some() ==> r.unwrap()@ == utf16_decode(units@).unwrap(),
{
    String::from_utf16(units).ok()
}

/// A fix-up of one word of a segment. When `segment_index` is 0xFFFF the target is not
/// defined in this file, and `segment_offset` indexes the unresolved table instead.
#[derive(Debug, Clone, Copy, PartialEq, Eq, Hash, Structural)]
pub struct RelocationTableEntry {
    pub offset: u16,
    pub segment_index: u16,
    pub segment_offset: u16,
}

/// A label that this file exports, and its offset in the segment.
#[derive(Debug, Clone, PartialEq, Eq, Hash)]
pub struct ExportTableEntry {
    pub label: String,
    pub offset: u16,
}

#[derive(Debug, Clone, PartialEq, Eq, Hash)]
pub struct Segment {
    pub contents: Vec<u16>,
    pub relocation_table: Vec<RelocationTableEntry>,
    pub export_table: Vec<ExportTableEntry>,
}

/// A relocatable object file: eight segments, one for each set of permissions, and the
/// names that its relocations refer to but that it does not define.
#[derive(Debug, Clone, PartialEq, Eq, Hash)]
pub struct Poki {
    pub segments: Vec<Segment>,
    pub unresolved_table: Vec<String>,
}

pub struct SegmentView {
    pub contents: Seq<u16>,
    pub relocations: Seq<RelocationTableEntry>,
    pub exports: Seq<(Seq<char>, u16)>,
}

pub struct PokiView {
    pub segments: Seq<SegmentView>,
    pub unresolved: Seq<Seq<char>>,
}

impl View for ExportTableEntry {
    type V = (Seq<char>, u16);

    open spec fn view(&self) -> (Seq<char>, u16) {
        (self.label@, self.offset)
    }
}

impl View for Segment {
    type V = SegmentView;

    open spec fn view(&self) -> SegmentView {
        SegmentView {
            contents: self.contents@,
            relocations: self.relocation_table@,
            exports: self.export_table@.map_values(|e: ExportTableEntry| e@),
        }
    }
}

impl View for Poki {
    type V = PokiView;

    open spec fn view(&self) -> PokiView {
        PokiView {
            segments: self.segments@.map_values(|s: Segment| s@),
            unresolved: self.unresolved_table@.map_values(|s: String| s@),
        }
    }
}

/// The magic words that open a file: "poki" in UTF-16.
pub open spec fn magic() -> Seq<u16> {
    seq![0x70u16, 0x6fu16, 0x6bu16, 0x69u16]
}

/// A string as stored: its length in code units, then the code units.
pub open spec fn label_words(l: Seq<char>) -> Seq<u16> {
    seq![utf16_of(l).len() as u16] + utf16_of(l)
}

pub open spec fn relocation_words(r: RelocationTableEntry) -> Seq<u16> {
    seq![r.offset, r.segment_index, r.segment_offset]
}

pub open spec fn relocations_words(rs: Seq<RelocationTableEntry>) -> Seq<u16> {
    rs.map_values(|r: RelocationTableEntry| relocation_words(r)).flatten()
}

pub open spec fn export_words(e: (Seq<char>, u16)) -> Seq<u16> {
    label_words(e.0) + seq![e.1]
}

pub open spec fn exports_words(es: Seq<(Seq<char>, u16)>) -> Seq<u16> {
    es.map_values(|e: (Seq<char>, u16)| export_words(e)).flatten()
}

/// A segment's header: the sizes, in words, of its contents, relocation table and export
/// table.
pub open spec fn header_words(s: SegmentView) -> Seq<u16> {
    seq![
        s.contents.len() as u16,
        relocations_words(s.relocations).len() as u16,
        exports_words(s.exports).len() as u16,
    ]
}

pub open spec fn body_words(s: SegmentView) -> Seq<u16> {
    s.contents + relocations_words(s.relocations) + exports_words(s.exports)
}

pub open spec fn unresolved_words(us: Seq<Seq<char>>) -> Seq<u16> {
    us.map_values(|l: Seq<char>| label_words(l)).flatten()
}

/// The words of a file: the magic, the eight headers, the eight bodies, then the
/// unresolved table.
pub open spec fn poki_words(p: PokiView) -> Seq<u16> {
    magic() + p.segments.map_values(|s: SegmentView| header_words(s)).flatten()
        + p.segments.map_values(|s: SegmentView| body_words(s)).flatten() + unresolved_words(
        p.unresolved,
    )
}

/// Whether every size that goes to disk fits in a word.
pub open spec fn segment_fits(s: SegmentView) -> bool {
    &&& s.contents.len() <= 0xffff
    &&& 3 * s.relocations.len() <= 0xffff
    &&& exports_words(s.exports).len() <= 0xffff
}

pub open spec fn fits(p: PokiView) -> bool {
    &&& forall|i: int| 0 <= i < p.segments.len() ==> segment_fits(#[trigger] p.segments[i])
    &&& forall|i: int| 0 <= i < p.unresolved.len() ==> utf16_of(#[trigger] p.unresolved[i]).len() <= 0xffff
}

/// A file on disk stores each word as two bytes, low byte first.
pub open spec fn bytes_of(words: Seq<u16>) -> Seq<u8> {
    words.map_values(|w: u16| seq![(w % 256) as u8, (w / 256) as u8]).flatten()
}


/// Why a file could not be written: a size that goes to disk does not fit in a word. Each
/// variant carries the size found, or `usize::MAX` where that size is larger still.
#[derive(Debug, Clone, Copy, PartialEq, Eq, Hash)]
pub enum PokiSerializationError {
    OversizedSegmentContents(usize),
    OversizedRelocationTable(usize),
    OversizedExportTable(usize),
    OversizedLabel(usize),
}

/// A size as an error carries it: the size itself, or `usize::MAX` where it is larger.
pub open spec fn saturated(n: nat) -> usize {
    if n > usize::MAX {
        usize::MAX
    } else {
        n as usize
    }
}

/// The first size of a segment that does not fit, checked in the order of its header, as
/// the error that reports it.
pub open spec fn segment_misfit(s: SegmentView) -> Option<PokiSerializationError> {
    if s.contents.len() > 0xffff {
        Some(PokiSerializationError::OversizedSegmentContents(saturated(s.contents.len())))
    } else if 3 * s.relocations.len() > 0xffff {
        Some(PokiSerializationError::OversizedRelocationTable(saturated(3 * s.relocations.len())))
    } else if exports_words(s.exports).len() > 0xffff {
        Some(PokiSerializationError::OversizedExportTable(saturated(exports_words(s.exports).len())))
    } else {
        None
    }
}

/// The first label of the unresolved table, from index `j` on, that is too long.
pub open spec fn first_long_label(us: Seq<Seq<char>>, j: int) -> Option<PokiSerializationError>
    decreases us.len() - j,
{
    if j < 0 || j >= us.len() {
        None
    } else if utf16_of(us[j]).len() > 0xffff {
        Some(PokiSerializationError::OversizedLabel(saturated(utf16_of(us[j]).len())))
    } else {
        first_long_label(us, j + 1)
    }
}

/// The first size that does not fit, from segment `i` on: the segments in order, then the
/// labels of the unresolved table.
pub open spec fn first_misfit(p: PokiView, i: int) -> Option<PokiSerializationError>
    decreases p.segments.len() - i,
{
    if i < 0 || i >= p.segments.len() {
        first_long_label(p.unresolved, 0)
    } else {
        match segment_misfit(p.segments[i]) {
            Some(e) => Some(e),
            None => first_misfit(p, i + 1),
        }
    }
}

pub open spec fn oversized_size(e: PokiSerializationError) -> usize {
    match e {
        PokiSerializationError::OversizedSegmentContents(n) => n,
        PokiSerializationError::OversizedRelocationTable(n) => n,
        PokiSerializationError::OversizedExportTable(n) => n,
        PokiSerializationError::OversizedLabel(n) => n,
    }
}

proof fn lemma_flatten_map_push<A>(s: Seq<A>, f: spec_fn(A) -> Seq<u16>, i: int)
    requires
        0 <= i < s.len(),
    ensures
        s.take(i + 1).map_values(f).flatten() == s.take(i).map_values(f).flatten() + f(s[i]),
{
    assert(s.take(i + 1).map_values(f) =~= s.take(i).map_values(f).push(f(s[i])));
    s.take(i).map_values(f).lemma_flatten_push(f(s[i]));
}

proof fn lemma_flatten_map_split<A>(s: Seq<A>, f: spec_fn(A) -> Seq<u16>, i: int)
    requires
        0 <= i <= s.len(),
    ensures
        s.map_values(f).flatten() == s.take(i).map_values(f).flatten() + s.skip(i).map_values(f).flatten(),
{
    assert(s.map_values(f) =~= s.take(i).map_values(f) + s.skip(i).map_values(f));
    lemma_flatten_concat(s.take(i).map_values(f), s.skip(i).map_values(f));
}

proof fn lemma_relocations_words_len(rs: Seq<RelocationTableEntry>)
    ensures
        relocations_words(rs).len() == 3 * rs.len(),
    decreases rs.len(),
{
    let f = |r: RelocationTableEntry| relocation_words(r);
    if rs.len() > 0 {
        lemma_relocations_words_len(rs.drop_first());
        assert(rs.map_values(f).drop_first() =~= rs.drop_first().map_values(f));
    }
}

proof fn lemma_flatten_map_all<A>(s: Seq<A>, f: spec_fn(A) -> Seq<u16>)
    ensures
        s.take(s.len() as int).map_values(f).flatten() == s.map_values(f).flatten(),
{
    assert(s.take(s.len() as int) =~= s);
}

/// Appends a string as stored: its length, then its code units.
fn push_label(out: &mut Vec<u16>, units: &Vec<u16>)
    requires
        units.len() <= 0xffff,
    ensures
        final(out)@ == old(out)@ + seq![units.len() as u16] + units@,
{
    out.push(units.len() as u16);
    let mut i: usize = 0;
    while i < units.len()
        invariant
            i <= units.len() <= 0xffff,
            out@ == old(out)@ + seq![units.len() as u16] + units@.take(i as int),
        decreases units.len() - i,
    {
        out.push(units[i]);
        i = i + 1;
        assert(out@ =~= old(out)@ + seq![units.len() as u16] + units@.take(i as int));
    }
    assert(units@.take(i as int) =~= units@);
}

impl RelocationTableEntry {
    pub fn serialize(&self, out: &mut Vec<u16>)
        ensures
            final(out)@ == old(out)@ + relocation_words(*self),
    {
        out.push(self.offset);
        out.push(self.segment_index);
        out.push(self.segment_offset);
        assert(out@ =~= old(out)@ + relocation_words(*self));
    }
}

impl ExportTableEntry {
    pub fn serialize(&self, out: &mut Vec<u16>) -> (r: Result<(), PokiSerializationError>)
        ensures
            r is Ok <==> utf16_of(self.label@).len() <= 0xffff,
            r is Ok ==> final(out)@ == old(out)@ + export_words(self@),
            r matches Err(e) ==> oversized_size(e) > 0xffff,
    {
        let units = encode_utf16(self.label.as_str());
        if units.len() > 0xffff {
            return Err(PokiSerializationError::OversizedLabel(units.len()));
        }
        push_label(out, &units);
        out.push(self.offset);
        assert(out@ =~= old(out)@ + export_words(self@));
        Ok(())
    }
}

impl Segment {
    pub fn new() -> (r: Segment)
        ensures
            r@.contents.len() == 0,
            r@.relocations.len() == 0,
            r@.exports.len() == 0,
    {
        Segment { contents: Vec::new(), relocation_table: Vec::new(), export_table: Vec::new() }
    }

    /// The size of the export table in words.
    fn export_table_size(&self) -> (r: Result<u16, PokiSerializationError>)
        ensures
            r is Ok <==> exports_words(self@.exports).len() <= 0xffff,
            r matches Ok(n) ==> n == exports_words(self@.exports).len(),
            r matches Err(e) ==> e == PokiSerializationError::OversizedExportTable(saturated(exports_words(self@.exports).len())),
    {
        let ghost es = self@.exports;
        let ghost f = |e: (Seq<char>, u16)| export_words(e);
        let mut total: usize = 0;
        let mut i: usize = 0;
        while i < self.export_table.len()
            invariant
                es == self@.exports,
                es.len() == self.export_table.len(),
                f == (|e: (Seq<char>, u16)| export_words(e)),
                i <= es.len(),
                total == saturated(es.take(i as int).map_values(f).flatten().len()),
            decreases es.len() - i,
        {
            let units = encode_utf16(self.export_table[i].label.as_str());
            proof {
                lemma_flatten_map_push(es, f, i as int);
                assert(es[i as int] == self.export_table@[i as int]@);
            }
            total = if total <= usize::MAX - 2 && units.len() <= usize::MAX - 2 - total {
                total + units.len() + 2
            } else {
                usize::MAX
            };
            i = i + 1;
        }
        proof {
            lemma_flatten_map_all(es, f);
        }
        if total > 0xffff {
            return Err(PokiSerializationError::OversizedExportTable(total));
        }
        Ok(total as u16)
    }

    /// Appends the segment's header.
    pub fn serialize_header(&self, out: &mut Vec<u16>) -> (r: Result<(), PokiSerializationError>)
        ensures
            r is Ok <==> segment_fits(self@),
            r is Ok ==> final(out)@ == old(out)@ + header_words(self@),
            r matches Err(e) ==> oversized_size(e) > 0xffff && segment_misfit(self@) == Some(e),
    {
        let n = self.contents.len();
        if n > 0xffff {
            return Err(PokiSerializationError::OversizedSegmentContents(n));
        }
        let m = self.relocation_table.len();
        if m > 0x5555 {
            let reported = if m <= usize::MAX / 3 {
                3 * m
            } else {
                usize::MAX
            };
            return Err(PokiSerializationError::OversizedRelocationTable(reported));
        }
        let e = self.export_table_size()?;
        proof {
            lemma_relocations_words_len(self@.relocations);
        }
        out.push(n as u16);
        out.push((3 * m) as u16);
        out.push(e);
        assert(out@ =~= old(out)@ + header_words(self@));
        Ok(())
    }

    /// Appends the segment's body: its contents, relocation table and export table.
    pub fn serialize(&self, out: &mut Vec<u16>)
        requires
            segment_fits(self@),
        ensures
            final(out)@ == old(out)@ + body_words(self@),
    {
        let mut i: usize = 0;
        while i < self.contents.len()
            invariant
                i <= self.contents.len(),
                out@ == old(out)@ + self.contents@.take(i as int),
            decreases self.contents.len() - i,
        {
            out.push(self.contents[i]);
            i = i + 1;
            assert(out@ =~= old(out)@ + self.contents@.take(i as int));
        }
        assert(self.contents@.take(i as int) =~= self.contents@);
        let ghost base = out@;
        let ghost rs = self@.relocations;
        let ghost f = |r: RelocationTableEntry| relocation_words(r);
        let mut i: usize = 0;
        while i < self.relocation_table.len()
            invariant
                rs == self@.relocations,
                f == (|r: RelocationTableEntry| relocation_words(r)),
                i <= rs.len(),
                out@ == base + rs.take(i as int).map_values(f).flatten(),
            decreases rs.len() - i,
        {
            proof {
                lemma_flatten_map_push(rs, f, i as int);
            }
            self.relocation_table[i].serialize(out);
            i = i + 1;
            assert(out@ =~= base + rs.take(i as int).map_values(f).flatten());
        }
        proof {
            lemma_flatten_map_all(rs, f);
        }
        let ghost base2 = out@;
        let ghost es = self@.exports;
        let ghost g = |e: (Seq<char>, u16)| export_words(e);
        let mut i: usize = 0;
        while i < self.export_table.len()
            invariant
                es == self@.exports,
                es.len() == self.export_table.len(),
                exports_words(es).len() <= 0xffff,
                g == (|e: (Seq<char>, u16)| export_words(e)),
                i <= es.len(),
                out@ == base2 + es.take(i as int).map_values(g).flatten(),
            decreases es.len() - i,
        {
            proof {
                lemma_flatten_map_push(es, g, i as int);
                lemma_flatten_map_split(es, g, i as int + 1);
                assert(es[i as int] == self.export_table@[i as int]@);
                assert(utf16_of(es[i as int].0).len() <= 0xffff);
            }
            let r = self.export_table[i].serialize(out);
            i = i + 1;
            assert(out@ =~= base2 + es.take(i as int).map_values(g).flatten());
        }
        proof {
            lemma_flatten_map_all(es, g);
        }
        assert(out@ =~= old(out)@ + body_words(self@));
    }
}


proof fn lemma_first_misfit_after(p: PokiView, i: int)
    requires
        i == p.segments.len(),
    ensures
        first_misfit(p, i) == first_long_label(p.unresolved, 0),
{
}

pub open spec fn poki_wf(p: PokiView) -> bool {
    p.segments.len() == 8
}

impl Poki {
    pub open spec fn wf(&self) -> bool {
        poki_wf(self@)
    }

    /// A file with eight empty segments and an empty unresolved table.
    pub fn new_empty() -> (r: Poki)
        ensures
            r.wf(),
            forall|i: int| 0 <= i < 8 ==> (#[trigger] r@.segments[i]).contents.len() == 0
                && r@.segments[i].relocations.len() == 0 && r@.segments[i].exports.len() == 0,
            r@.unresolved.len() == 0,
    {
        let mut segments: Vec<Segment> = Vec::new();
        let mut i: usize = 0;
        while i < 8
            invariant
                i <= 8,
                segments@.len() == i,
                forall|j: int| 0 <= j < i ==> (#[trigger] segments@[j])@.contents.len() == 0
                    && segments@[j]@.relocations.len() == 0 && segments@[j]@.exports.len() == 0,
            decreases 8 - i,
        {
            segments.push(Segment::new());
            i = i + 1;
        }
        Poki { segments, unresolved_table: Vec::new() }
    }

    /// The file as words: `Ok` exactly when every size that goes to disk fits in a word.
    pub fn to_words(&self) -> (r: Result<Vec<u16>, PokiSerializationError>)
        ensures
            r is Ok <==> fits(self@),
            r matches Ok(w) ==> w@ == poki_words(self@),
            r matches Err(e) ==> oversized_size(e) > 0xffff && first_misfit(self@, 0) == Some(e),
    {
        let mut out: Vec<u16> = Vec::new();
        out.push(0x70);
        out.push(0x6f);
        out.push(0x6b);
        out.push(0x69);
        assert(out@ =~= magic());
        let ghost segs = self@.segments;
        let ghost h = |s: SegmentView| header_words(s);
        let ghost b = |s: SegmentView| body_words(s);
        let mut i: usize = 0;
        while i < self.segments.len()
            invariant
                segs == self@.segments,
                segs.len() == self.segments.len(),
                h == (|s: SegmentView| header_words(s)),
                i <= segs.len(),
                out@ == magic() + segs.take(i as int).map_values(h).flatten(),
                forall|j: int| 0 <= j < i ==> segment_fits(#[trigger] segs[j]),
                first_misfit(self@, 0) == first_misfit(self@, i as int),
            decreases segs.len() - i,
        {
            proof {
                lemma_flatten_map_push(segs, h, i as int);
            }
            let r = self.segments[i].serialize_header(&mut out);
            assert(segs[i as int] == self.segments@[i as int]@);
            if r.is_err() {
                return match r {
                    Err(e) => Err(e),
                    Ok(_) => Err(PokiSerializationError::OversizedSegmentContents(usize::MAX)),
                };
            }
            i = i + 1;
            assert(out@ =~= magic() + segs.take(i as int).map_values(h).flatten());
        }
        proof {
            lemma_flatten_map_all(segs, h);
            lemma_first_misfit_after(self@, i as int);
        }
        let ghost base = out@;
        let mut i: usize = 0;
        while i < self.segments.len()
            invariant
                segs == self@.segments,
                segs.len() == self.segments.len(),
                b == (|s: SegmentView| body_words(s)),
                i <= segs.len(),
                forall|j: int| 0 <= j < segs.len() ==> segment_fits(#[trigger] segs[j]),
                first_misfit(self@, 0) == first_misfit(self@, segs.len() as int),
                out@ == base + segs.take(i as int).map_values(b).flatten(),
            decreases segs.len() - i,
        {
            proof {
                lemma_flatten_map_push(segs, b, i as int);
                assert(segment_fits(segs[i as int]));
            }
            self.segments[i].serialize(&mut out);
            i = i + 1;
            assert(out@ =~= base + segs.take(i as int).map_values(b).flatten());
        }
        proof {
            lemma_flatten_map_all(segs, b);
        }
        let ghost base2 = out@;
        let ghost us = self@.unresolved;
        let ghost l = |x: Seq<char>| label_words(x);
        let mut i: usize = 0;
        while i < self.unresolved_table.len()
            invariant
                us == self@.unresolved,
                us.len() == self.unresolved_table.len(),
                l == (|x: Seq<char>| label_words(x)),
                i <= us.len(),
                forall|j: int| 0 <= j < segs.len() ==> segment_fits(#[trigger] segs[j]),
                forall|j: int| 0 <= j < i ==> utf16_of(#[trigger] us[j]).len() <= 0xffff,
                first_long_label(us, 0) == first_long_label(us, i as int),
                segs == self@.segments,
                first_misfit(self@, 0) == first_misfit(self@, segs.len() as int),
                out@ == base2 + us.take(i as int).map_values(l).flatten(),
            decreases us.len() - i,
        {
            let units = encode_utf16(self.unresolved_table[i].as_str());
            proof {
                lemma_flatten_map_push(us, l, i as int);
                assert(us[i as int] == self.unresolved_table@[i as int]@);
            }
            if units.len() > 0xffff {
                assert(utf16_of(us[i as int]).len() > 0xffff);
                proof {
                    lemma_first_misfit_after(self@, segs.len() as int);
                }
                return Err(PokiSerializationError::OversizedLabel(units.len()));
            }
            push_label(&mut out, &units);
            i = i + 1;
            assert(out@ =~= base2 + us.take(i as int).map_values(l).flatten());
        }
        proof {
            lemma_flatten_map_all(us, l);
        }
        assert(out@ =~= poki_words(self@));
        Ok(out)
    }

    /// The object file that a parsed program assembles to; see `Assembler::assemble`.
    pub fn from_program(program: crate::parse::Program) -> (r: Result<Poki, crate::assemble::AssembleError>)
        requires
            program.segments@.len() == 8,
        ensures
            match crate::assemble::assemble_program(program@) {
                Ok(v) => r matches Ok(p) && p@ == v && p.wf(),
                Err(e) => r == Err::<Poki, crate::assemble::AssembleError>(e),
            },
    {
        crate::assemble::Assembler { program }.assemble()
    }

    /// The bytes of the file; the same as `serialize`.
    pub fn to_bytes(&self) -> (r: Result<Vec<u8>, PokiSerializationError>)
        ensures
            r is Ok <==> fits(self@),
            r matches Ok(b) ==> b@ == bytes_of(poki_words(self@)),
            r matches Err(e) ==> oversized_size(e) > 0xffff && first_misfit(self@, 0) == Some(e),
    {
        self.serialize()
    }

    /// The file as bytes, each word stored low byte first. `Ok` exactly when every size that
    /// goes to disk fits in a word.
    pub fn serialize(&self) -> (r: Result<Vec<u8>, PokiSerializationError>)
        ensures
            r is Ok <==> fits(self@),
            r matches Ok(b) ==> b@ == bytes_of(poki_words(self@)),
            r matches Err(e) ==> oversized_size(e) > 0xffff && first_misfit(self@, 0) == Some(e),
    {
        let words = self.to_words()?;
        Ok(words_to_bytes(&words))
    }
}

/// Each word as two bytes, low byte first.
pub fn words_to_bytes(words: &Vec<u16>) -> (r: Vec<u8>)
    ensures
        r@ == bytes_of(words@),
{
    let ghost f = |w: u16| seq![(w % 256) as u8, (w / 256) as u8];
    let mut out: Vec<u8> = Vec::new();
    let mut i: usize = 0;
    while i < words.len()
        invariant
            i <= words.len(),
            f == (|w: u16| seq![(w % 256) as u8, (w / 256) as u8]),
            out@ == words@.take(i as int).map_values(f).flatten(),
        decreases words.len() - i,
    {
        proof {
            lemma_flatten_map_push_bytes(words@, f, i as int);
        }
        let w = words[i];
        out.push((w % 256) as u8);
        out.push((w / 256) as u8);
        i = i + 1;
        assert(out@ =~= words@.take(i as int).map_values(f).flatten());
    }
    assert(words@.take(i as int) =~= words@);
    out
}

proof fn lemma_flatten_map_push_bytes(s: Seq<u16>, f: spec_fn(u16) -> Seq<u8>, i: int)
    requires
        0 <= i < s.len(),
    ensures
        s.take(i + 1).map_values(f).flatten() == s.take(i).map_values(f).flatten() + f(s[i]),
{
    assert(s.take(i + 1).map_values(f) =~= s.take(i).map_values(f).push(f(s[i])));
    s.take(i).map_values(f).lemma_flatten_push(f(s[i]));
}


/// Why bytes could not be read as a file.
#[derive(Debug, Clone, Copy, PartialEq, Eq, Hash)]
pub enum PokiDeserializationError {
    /// The bytes end inside a word, a table or a string.
    UnexpectedEndOfFile,
    /// A string holds an unpaired UTF-16 surrogate.
    FromUtf16Error,
    /// The first four words are not the magic; they are carried here.
    InvalidMagic(u16, u16, u16, u16),
    /// A relocation table size that is not a multiple of three.
    InvalidRelocationTableSize(u16),
    /// An export's label is longer than what is left of its export table.
    StringOverrun(u16),
}

pub type Parsed<T> = Result<(T, Seq<u16>), PokiDeserializationError>;

pub open spec fn parse_word(w: Seq<u16>) -> Parsed<u16> {
    if w.len() > 0 {
        Ok((w[0], w.drop_first()))
    } else {
        Err(PokiDeserializationError::UnexpectedEndOfFile)
    }
}

pub open spec fn parse_units(w: Seq<u16>, n: int) -> Parsed<Seq<u16>> {
    if w.len() >= n {
        Ok((w.take(n), w.skip(n)))
    } else {
        Err(PokiDeserializationError::UnexpectedEndOfFile)
    }
}

pub open spec fn parse_label(w: Seq<u16>) -> Parsed<Seq<char>> {
    match parse_word(w) {
        Err(e) => Err(e),
        Ok((n, r1)) => match parse_units(r1, n as int) {
            Err(e) => Err(e),
            Ok((units, r2)) => match utf16_decode(units) {
                None => Err(PokiDeserializationError::FromUtf16Error),
                Some(l) => Ok((l, r2)),
            },
        },
    }
}

pub open spec fn prepend<T>(head: Seq<T>, r: Parsed<Seq<T>>) -> Parsed<Seq<T>> {
    match r {
        Ok((tail, rest)) => Ok((head + tail, rest)),
        Err(e) => Err(e),
    }
}

pub open spec fn relocation_of(t: Seq<u16>) -> RelocationTableEntry {
    RelocationTableEntry { offset: t[0], segment_index: t[1], segment_offset: t[2] }
}

pub open spec fn parse_relocations(w: Seq<u16>, n: nat) -> Parsed<Seq<RelocationTableEntry>>
    decreases n,
{
    if n == 0 {
        Ok((Seq::empty(), w))
    } else {
        match parse_units(w, 3) {
            Err(e) => Err(e),
            Ok((t, r)) => prepend(seq![relocation_of(t)], parse_relocations(r, (n - 1) as nat)),
        }
    }
}

pub open spec fn parse_exports(w: Seq<u16>, remaining: nat) -> Parsed<Seq<(Seq<char>, u16)>>
    decreases remaining,
{
    if remaining == 0 {
        Ok((Seq::empty(), w))
    } else {
        match parse_word(w) {
            Err(e) => Err(e),
            Ok((n, r1)) => if n + 2 > remaining {
                Err(PokiDeserializationError::StringOverrun((n + 1 - remaining) as u16))
            } else {
                match parse_units(r1, n as int) {
                    Err(e) => Err(e),
                    Ok((units, r2)) => match utf16_decode(units) {
                        None => Err(PokiDeserializationError::FromUtf16Error),
                        Some(l) => match parse_word(r2) {
                            Err(e) => Err(e),
                            Ok((offset, r3)) => prepend(
                                seq![(l, offset)],
                                parse_exports(r3, (remaining - (n + 2)) as nat),
                            ),
                        },
                    },
                }
            },
        }
    }
}

pub open spec fn parse_headers(w: Seq<u16>, n: nat) -> Parsed<Seq<Seq<u16>>>
    decreases n,
{
    if n == 0 {
        Ok((Seq::empty(), w))
    } else {
        match parse_units(w, 3) {
            Err(e) => Err(e),
            Ok((h, r)) => prepend(seq![h], parse_headers(r, (n - 1) as nat)),
        }
    }
}

pub open spec fn parse_segment(w: Seq<u16>, h: Seq<u16>) -> Parsed<SegmentView> {
    match parse_units(w, h[0] as int) {
        Err(e) => Err(e),
        Ok((contents, r1)) => if h[1] % 3 != 0 {
            Err(PokiDeserializationError::InvalidRelocationTableSize(h[1]))
        } else {
            match parse_relocations(r1, (h[1] / 3) as nat) {
                Err(e) => Err(e),
                Ok((relocations, r2)) => match parse_exports(r2, h[2] as nat) {
                    Err(e) => Err(e),
                    Ok((exports, r3)) => Ok((SegmentView { contents, relocations, exports }, r3)),
                },
            }
        },
    }
}

pub open spec fn parse_segments(w: Seq<u16>, hs: Seq<Seq<u16>>) -> Parsed<Seq<SegmentView>>
    decreases hs.len(),
{
    if hs.len() == 0 {
        Ok((Seq::empty(), w))
    } else {
        match parse_segment(w, hs[0]) {
            Err(e) => Err(e),
            Ok((s, r)) => prepend(seq![s], parse_segments(r, hs.drop_first())),
        }
    }
}

pub open spec fn parse_unresolved(w: Seq<u16>) -> Result<Seq<Seq<char>>, PokiDeserializationError>
    decreases w.len(),
{
    if w.len() == 0 {
        Ok(Seq::empty())
    } else {
        match parse_label(w) {
            Err(e) => Err(e),
            Ok((l, r)) => if r.len() < w.len() {
                match parse_unresolved(r) {
                    Ok(us) => Ok(seq![l] + us),
                    Err(e) => Err(e),
                }
            } else {
                Err(PokiDeserializationError::UnexpectedEndOfFile)
            },
        }
    }
}

/// What a sequence of words reads as.
pub open spec fn parse_poki(w: Seq<u16>) -> Result<PokiView, PokiDeserializationError> {
    match parse_units(w, 4) {
        Err(e) => Err(e),
        Ok((m, r1)) => if m != magic() {
            Err(PokiDeserializationError::InvalidMagic(m[0], m[1], m[2], m[3]))
        } else {
            parse_after_magic(r1)
        },
    }
}

pub open spec fn parse_after_magic(w: Seq<u16>) -> Result<PokiView, PokiDeserializationError> {
    match parse_headers(w, 8) {
        Err(e) => Err(e),
        Ok((hs, r)) => parse_after_headers(r, hs),
    }
}

pub open spec fn parse_after_headers(w: Seq<u16>, hs: Seq<Seq<u16>>) -> Result<PokiView, PokiDeserializationError> {
    match parse_segments(w, hs) {
        Err(e) => Err(e),
        Ok((segments, r)) => parse_after_segments(r, segments),
    }
}

pub open spec fn parse_after_segments(w: Seq<u16>, segments: Seq<SegmentView>) -> Result<PokiView, PokiDeserializationError> {
    match parse_unresolved(w) {
        Err(e) => Err(e),
        Ok(unresolved) => Ok(PokiView { segments, unresolved }),
    }
}

/// The words that bytes hold, two bytes each, low byte first; a last odd byte is left out.
pub open spec fn words_of(b: Seq<u8>) -> Seq<u16> {
    Seq::new(b.len() / 2, |i: int| (b[2 * i] + 256 * b[2 * i + 1]) as u16)
}

/// What bytes read as. A stray byte after the unresolved table is a short read.
pub open spec fn poki_of_bytes(b: Seq<u8>) -> Result<PokiView, PokiDeserializationError> {
    match parse_poki(words_of(b)) {
        Ok(p) => if b.len() % 2 == 1 {
            Err(PokiDeserializationError::UnexpectedEndOfFile)
        } else {
            Ok(p)
        },
        Err(e) => Err(e),
    }
}


fn read_word(w: &Vec<u16>, pos: usize) -> (r: Result<(u16, usize), PokiDeserializationError>)
    requires
        pos <= w.len(),
    ensures
        match parse_word(w@.skip(pos as int)) {
            Ok((v, rest)) => r matches Ok((x, p)) && x == v && pos < p <= w.len() && w@.skip(p as int) == rest,
            Err(e) => r == Err::<(u16, usize), PokiDeserializationError>(e),
        },
{
    if pos < w.len() {
        assert(w@.skip(pos as int).drop_first() =~= w@.skip(pos as int + 1));
        Ok((w[pos], pos + 1))
    } else {
        Err(PokiDeserializationError::UnexpectedEndOfFile)
    }
}

fn read_units(w: &Vec<u16>, pos: usize, n: u16) -> (r: Result<(Vec<u16>, usize), PokiDeserializationError>)
    requires
        pos <= w.len(),
    ensures
        match parse_units(w@.skip(pos as int), n as int) {
            Ok((u, rest)) => r matches Ok((x, p)) && x@ == u && p == pos + n && p <= w.len() && w@.skip(p as int) == rest,
            Err(e) => r == Err::<(Vec<u16>, usize), PokiDeserializationError>(e),
        },
{
    if w.len() - pos < n as usize {
        return Err(PokiDeserializationError::UnexpectedEndOfFile);
    }
    let mut units: Vec<u16> = Vec::new();
    let mut i: usize = 0;
    while i < n as usize
        invariant
            pos + n <= w.len(),
            i <= n,
            units@ == w@.subrange(pos as int, pos + i),
        decreases n - i,
    {
        units.push(w[pos + i]);
        i = i + 1;
        assert(units@ =~= w@.subrange(pos as int, pos + i));
    }
    assert(w@.skip(pos as int).take(n as int) =~= units@);
    assert(w@.skip(pos as int).skip(n as int) =~= w@.skip(pos + n));
    Ok((units, pos + n as usize))
}

fn read_label(w: &Vec<u16>, pos: usize) -> (r: Result<(String, usize), PokiDeserializationError>)
    requires
        pos <= w.len(),
    ensures
        match parse_label(w@.skip(pos as int)) {
            Ok((l, rest)) => r matches Ok((x, p)) && x@ == l && pos < p <= w.len() && w@.skip(p as int) == rest,
            Err(e) => r == Err::<(String, usize), PokiDeserializationError>(e),
        },
{
    let (n, p1) = read_word(w, pos)?;
    let (units, p2) = read_units(w, p1, n)?;
    match decode_utf16(units.as_slice()) {
        Some(s) => Ok((s, p2)),
        None => Err(PokiDeserializationError::FromUtf16Error),
    }
}

fn read_relocations(w: &Vec<u16>, pos: usize, n: u16) -> (r: Result<(Vec<RelocationTableEntry>, usize), PokiDeserializationError>)
    requires
        pos <= w.len(),
    ensures
        match parse_relocations(w@.skip(pos as int), n as nat) {
            Ok((v, rest)) => r matches Ok((x, p)) && x@ == v && p <= w.len() && w@.skip(p as int) == rest,
            Err(e) => r == Err::<(Vec<RelocationTableEntry>, usize), PokiDeserializationError>(e),
        },
{
    let mut entries: Vec<RelocationTableEntry> = Vec::new();
    let mut p = pos;
    let mut i: u16 = 0;
    while i < n
        invariant
            p <= w.len(),
            i <= n,
            parse_relocations(w@.skip(pos as int), n as nat) == prepend(entries@, parse_relocations(w@.skip(p as int), (n - i) as nat)),
        decreases n - i,
    {
        let (t, p2) = match read_units(w, p, 3) {
            Ok(x) => x,
            Err(e) => {
                assert(prepend(entries@, parse_relocations(w@.skip(p as int), (n - i) as nat)) == Err::<(Seq<RelocationTableEntry>, Seq<u16>), PokiDeserializationError>(e));
                return Err(e);
            },
        };
        let entry = RelocationTableEntry { offset: t[0], segment_index: t[1], segment_offset: t[2] };
        proof {
            let tail = parse_relocations(w@.skip(p2 as int), (n - i - 1) as nat);
            assert(parse_relocations(w@.skip(p as int), (n - i) as nat) == prepend(seq![relocation_of(t@)], tail));
            assert(entry == relocation_of(t@));
            match tail {
                Ok((v, rest)) => {
                    assert(entries@.push(entry) + v =~= entries@ + (seq![entry] + v));
                },
                Err(e) => {},
            }
        }
        entries.push(entry);
        p = p2;
        i = i + 1;
    }
    assert(entries@ + Seq::<RelocationTableEntry>::empty() =~= entries@);
    Ok((entries, p))
}

fn read_exports(w: &Vec<u16>, pos: usize, size: u16) -> (r: Result<(Vec<ExportTableEntry>, usize), PokiDeserializationError>)
    requires
        pos <= w.len(),
    ensures
        match parse_exports(w@.skip(pos as int), size as nat) {
            Ok((v, rest)) => r matches Ok((x, p)) && x@.map_values(|e: ExportTableEntry| e@) == v && p <= w.len() && w@.skip(p as int) == rest,
            Err(e) => r == Err::<(Vec<ExportTableEntry>, usize), PokiDeserializationError>(e),
        },
{
    let ghost f = |e: ExportTableEntry| e@;
    let mut entries: Vec<ExportTableEntry> = Vec::new();
    let mut p = pos;
    let mut remaining: u16 = size;
    while remaining != 0
        invariant
            p <= w.len(),
            f == (|e: ExportTableEntry| e@),
            parse_exports(w@.skip(pos as int), size as nat) == prepend(entries@.map_values(f), parse_exports(w@.skip(p as int), remaining as nat)),
        decreases remaining,
    {
        let ghost whole = parse_exports(w@.skip(p as int), remaining as nat);
        let (n, p1) = match read_word(w, p) {
            Ok(x) => x,
            Err(e) => {
                return Err(e);
            },
        };
        if n as u32 + 2 > remaining as u32 {
            return Err(PokiDeserializationError::StringOverrun((n as u32 + 1 - remaining as u32) as u16));
        }
        let (units, p2) = match read_units(w, p1, n) {
            Ok(x) => x,
            Err(e) => {
                return Err(e);
            },
        };
        let label = match decode_utf16(units.as_slice()) {
            Some(s) => s,
            None => {
                return Err(PokiDeserializationError::FromUtf16Error);
            },
        };
        let (offset, p3) = match read_word(w, p2) {
            Ok(x) => x,
            Err(e) => {
                return Err(e);
            },
        };
        let entry = ExportTableEntry { label, offset };
        let next_remaining = remaining - (n + 2);
        proof {
            let tail = parse_exports(w@.skip(p3 as int), next_remaining as nat);
            assert(whole == prepend(seq![(entry.label@, offset)], tail));
            assert(entries@.push(entry).map_values(f) =~= entries@.map_values(f).push(entry@));
            match tail {
                Ok((v, rest)) => {
                    assert(entries@.map_values(f).push(entry@) + v =~= entries@.map_values(f) + (seq![entry@] + v));
                },
                Err(e) => {},
            }
        }
        entries.push(entry);
        p = p3;
        remaining = next_remaining;
    }
    assert(entries@.map_values(f) + Seq::<(Seq<char>, u16)>::empty() =~= entries@.map_values(f));
    Ok((entries, p))
}


impl Segment {
    /// Reads a segment's body at `pos`, given its header.
    fn deserialize(w: &Vec<u16>, pos: usize, header: &Vec<u16>) -> (r: Result<(Segment, usize), PokiDeserializationError>)
        requires
            pos <= w.len(),
            header.len() == 3,
        ensures
            match parse_segment(w@.skip(pos as int), header@) {
                Ok((v, rest)) => r matches Ok((x, p)) && x@ == v && p <= w.len() && w@.skip(p as int) == rest,
                Err(e) => r == Err::<(Segment, usize), PokiDeserializationError>(e),
            },
    {
        let (contents, p1) = read_units(w, pos, header[0])?;
        if header[1] % 3 != 0 {
            return Err(PokiDeserializationError::InvalidRelocationTableSize(header[1]));
        }
        let (relocation_table, p2) = read_relocations(w, p1, header[1] / 3)?;
        let (export_table, p3) = read_exports(w, p2, header[2])?;
        Ok((Segment { contents, relocation_table, export_table }, p3))
    }
}

/// The words that `bytes` hold, two bytes each, low byte first; a last odd byte is left out.
pub fn bytes_to_words(bytes: &[u8]) -> (r: Vec<u16>)
    ensures
        r@ == words_of(bytes@),
{
    let mut out: Vec<u16> = Vec::new();
    let mut i: usize = 0;
    while i < bytes.len() / 2
        invariant
            i <= bytes.len() / 2,
            out@ == words_of(bytes@).take(i as int),
        decreases bytes.len() / 2 - i,
    {
        let w = bytes[2 * i] as u16 + 256 * (bytes[2 * i + 1] as u16);
        out.push(w);
        i = i + 1;
        assert(out@ =~= words_of(bytes@).take(i as int));
    }
    assert(words_of(bytes@).take(i as int) =~= words_of(bytes@));
    out
}

impl Poki {
    /// Reads a file from its bytes, each word stored low byte first.
    pub fn deserialize(bytes: &[u8]) -> (r: Result<Poki, PokiDeserializationError>)
        ensures
            match poki_of_bytes(bytes@) {
                Ok(v) => r matches Ok(p) && p@ == v,
                Err(e) => r == Err::<Poki, PokiDeserializationError>(e),
            },
    {
        let w = bytes_to_words(bytes);
        let r = Self::from_words(&w);
        match r {
            Ok(p) => {
                if bytes.len() % 2 == 1 {
                    Err(PokiDeserializationError::UnexpectedEndOfFile)
                } else {
                    Ok(p)
                }
            },
            Err(e) => Err(e),
        }
    }

    /// Reads a file from its words.
    pub fn from_words(w: &Vec<u16>) -> (r: Result<Poki, PokiDeserializationError>)
        ensures
            match parse_poki(w@) {
                Ok(v) => r matches Ok(p) && p@ == v,
                Err(e) => r == Err::<Poki, PokiDeserializationError>(e),
            },
    {
        assert(w@.skip(0) =~= w@);
        let (m, p0) = read_units(w, 0, 4)?;
        if !(m[0] == 0x70 && m[1] == 0x6f && m[2] == 0x6b && m[3] == 0x69) {
            assert(m@ != magic());
            return Err(PokiDeserializationError::InvalidMagic(m[0], m[1], m[2], m[3]));
        }
        assert(m@ =~= magic());
        // The eight headers.
        let mut headers: Vec<Vec<u16>> = Vec::new();
        let mut p = p0;
        let mut i: usize = 0;
        while i < 8
            invariant
                p <= w.len(),
                i <= 8,
                forall|j: int| 0 <= j < headers.len() ==> (#[trigger] headers@[j])@.len() == 3,
                parse_poki(w@) == parse_after_magic(w@.skip(p0 as int)),
                parse_headers(w@.skip(p0 as int), 8) == prepend(headers@.map_values(|h: Vec<u16>| h@), parse_headers(w@.skip(p as int), (8 - i) as nat)),
                headers.len() == i,
            decreases 8 - i,
        {
            let ghost hv = |h: Vec<u16>| h@;
            let (h, p2) = match read_units(w, p, 3) {
                Ok(x) => x,
                Err(e) => {
                    assert(parse_headers(w@.skip(p as int), (8 - i) as nat) == Err::<(Seq<Seq<u16>>, Seq<u16>), PokiDeserializationError>(e));
                    return Err(e);
                },
            };
            proof {
                let tail = parse_headers(w@.skip(p2 as int), (8 - i - 1) as nat);
                assert(headers@.push(h).map_values(hv) =~= headers@.map_values(hv).push(h@));
                match tail {
                    Ok((v, rest)) => {
                        assert(headers@.map_values(hv).push(h@) + v =~= headers@.map_values(hv) + (seq![h@] + v));
                    },
                    Err(e) => {},
                }
            }
            headers.push(h);
            p = p2;
            i = i + 1;
        }
        let ghost hs = headers@.map_values(|h: Vec<u16>| h@);
        assert(hs + Seq::<Seq<u16>>::empty() =~= hs);
        // The eight bodies.
        let ghost p1 = p;
        proof {
            assert(hs.skip(0) =~= hs);
            match parse_segments(w@.skip(p1 as int), hs) {
                Ok((v, rest)) => {
                    assert(Seq::<SegmentView>::empty() + v =~= v);
                },
                Err(e) => {},
            }
        }
        let mut segments: Vec<Segment> = Vec::new();
        let mut i: usize = 0;
        while i < 8
            invariant
                p <= w.len(),
                i <= 8,
                headers.len() == 8,
                hs == headers@.map_values(|h: Vec<u16>| h@),
                forall|j: int| 0 <= j < headers.len() ==> (#[trigger] headers@[j])@.len() == 3,
                parse_poki(w@) == parse_after_headers(w@.skip(p1 as int), hs),
                parse_segments(w@.skip(p1 as int), hs) == prepend(segments@.map_values(|s: Segment| s@), parse_segments(w@.skip(p as int), hs.skip(i as int))),
                segments.len() == i,
            decreases 8 - i,
        {
            let ghost sv = |s: Segment| s@;
            proof {
                assert(hs.skip(i as int)[0] == headers@[i as int]@);
                assert(hs.skip(i as int).drop_first() =~= hs.skip(i as int + 1));
            }
            let (s, p2) = match Segment::deserialize(w, p, &headers[i]) {
                Ok(x) => x,
                Err(e) => {
                    assert(parse_segments(w@.skip(p as int), hs.skip(i as int)) == Err::<(Seq<SegmentView>, Seq<u16>), PokiDeserializationError>(e));
                    return Err(e);
                },
            };
            proof {
                let tail = parse_segments(w@.skip(p2 as int), hs.skip(i as int + 1));
                assert(segments@.push(s).map_values(sv) =~= segments@.map_values(sv).push(s@));
                match tail {
                    Ok((v, rest)) => {
                        assert(segments@.map_values(sv).push(s@) + v =~= segments@.map_values(sv) + (seq![s@] + v));
                    },
                    Err(e) => {},
                }
            }
            segments.push(s);
            p = p2;
            i = i + 1;
        }
        let ghost segs = segments@.map_values(|s: Segment| s@);
        assert(segs + Seq::<SegmentView>::empty() =~= segs);
        // The unresolved table, up to the end.
        let ghost p2 = p;
        let mut unresolved_table: Vec<String> = Vec::new();
        while p < w.len()
            invariant
                p <= w.len(),
                parse_poki(w@) == parse_after_segments(w@.skip(p2 as int), segs),
                parse_unresolved(w@.skip(p2 as int)) == prepend_labels(unresolved_table@.map_values(|s: String| s@), parse_unresolved(w@.skip(p as int))),
            decreases w.len() - p,
        {
            let ghost lv = |s: String| s@;
            let (label, p3) = match read_label(w, p) {
                Ok(x) => x,
                Err(e) => {
                    assert(parse_unresolved(w@.skip(p as int)) == Err::<Seq<Seq<char>>, PokiDeserializationError>(e));
                    return Err(e);
                },
            };
            proof {
                let tail = parse_unresolved(w@.skip(p3 as int));
                assert(unresolved_table@.push(label).map_values(lv) =~= unresolved_table@.map_values(lv).push(label@));
                match tail {
                    Ok(v) => {
                        assert(unresolved_table@.map_values(lv).push(label@) + v =~= unresolved_table@.map_values(lv) + (seq![label@] + v));
                    },
                    Err(e) => {},
                }
            }
            unresolved_table.push(label);
            p = p3;
        }
        let ghost us = unresolved_table@.map_values(|s: String| s@);
        assert(w@.skip(p as int) =~= Seq::<u16>::empty());
        assert(us + Seq::<Seq<char>>::empty() =~= us);
        let poki = Poki { segments, unresolved_table };
        assert(poki@.segments =~= segs);
        assert(poki@.unresolved =~= us);
        Ok(poki)
    }
}

pub open spec fn prepend_labels(head: Seq<Seq<char>>, r: Result<Seq<Seq<char>>, PokiDeserializationError>) -> Result<Seq<Seq<char>>, PokiDeserializationError> {
    match r {
        Ok(tail) => Ok(head + tail),
        Err(e) => Err(e),
    }
}


proof fn lemma_map_flatten_cons<A, B>(s: Seq<A>, f: spec_fn(A) -> Seq<B>)
    requires
        s.len() > 0,
    ensures
        s.map_values(f).flatten() == f(s[0]) + s.drop_first().map_values(f).flatten(),
{
    assert(s.map_values(f).drop_first() =~= s.drop_first().map_values(f));
}

proof fn lemma_char_utf16_decodes(c: char, rest: Seq<u16>)
    ensures
        utf16_decode(char_utf16(c) + rest) == match utf16_decode(rest) {
            Some(r) => Some(seq![c] + r),
            None => None::<Seq<char>>,
        },
{
    let v = c as u32;
    char_is_scalar(c);
    let u = char_utf16(c) + rest;
    if v < 0x10000 {
        assert(u.drop_first() =~= rest);
        char_u32_cast(c, v);
        assert(((v as u16) as u32) == v);
    } else {
        let x = (v - 0x10000) as int;
        lemma_fundamental_div_mod(x, 0x400);
        let hi = (0xd800 + x / 0x400) as u16;
        let lo = (0xdc00 + x % 0x400) as u16;
        assert(x / 0x400 < 0x400);
        assert(u[0] == hi && u[1] == lo);
        assert(u.skip(2) =~= rest);
        let w = (0x10000 + (hi - 0xd800) * 0x400 + (lo - 0xdc00)) as u32;
        assert(w == v);
        char_u32_cast(c, v);
    }
}

/// Decoding the UTF-16 encoding of a string gives the string back.
pub proof fn lemma_utf16_round_trip(s: Seq<char>)
    ensures
        utf16_decode(utf16_of(s)) == Some(s),
    decreases s.len(),
{
    let f = |c: char| char_utf16(c);
    if s.len() == 0 {
        assert(utf16_of(s) =~= Seq::<u16>::empty());
    } else {
        lemma_map_flatten_cons(s, f);
        lemma_utf16_round_trip(s.drop_first());
        lemma_char_utf16_decodes(s[0], utf16_of(s.drop_first()));
        assert(seq![s[0]] + s.drop_first() =~= s);
    }
}

proof fn lemma_parse_label(l: Seq<char>, rest: Seq<u16>)
    requires
        utf16_of(l).len() <= 0xffff,
    ensures
        parse_label(label_words(l) + rest) == Ok::<(Seq<char>, Seq<u16>), PokiDeserializationError>((l, rest)),
{
    let u = utf16_of(l);
    let w = label_words(l) + rest;
    assert(w.drop_first() =~= u + rest);
    assert((u + rest).take(u.len() as int) =~= u);
    assert((u + rest).skip(u.len() as int) =~= rest);
    lemma_utf16_round_trip(l);
}

proof fn lemma_parse_relocations(rs: Seq<RelocationTableEntry>, rest: Seq<u16>)
    ensures
        parse_relocations(relocations_words(rs) + rest, rs.len()) == Ok::<(Seq<RelocationTableEntry>, Seq<u16>), PokiDeserializationError>((rs, rest)),
    decreases rs.len(),
{
    let f = |r: RelocationTableEntry| relocation_words(r);
    if rs.len() == 0 {
        assert(relocations_words(rs) + rest =~= rest);
        assert(rs =~= Seq::<RelocationTableEntry>::empty());
    } else {
        lemma_map_flatten_cons(rs, f);
        let tail = relocations_words(rs.drop_first()) + rest;
        let w = relocations_words(rs) + rest;
        assert(w =~= relocation_words(rs[0]) + tail);
        assert(w.take(3) =~= relocation_words(rs[0]));
        assert(w.skip(3) =~= tail);
        lemma_parse_relocations(rs.drop_first(), rest);
        assert(seq![rs[0]] + rs.drop_first() =~= rs);
    }
}

proof fn lemma_parse_exports(es: Seq<(Seq<char>, u16)>, rest: Seq<u16>)
    requires
        exports_words(es).len() <= 0xffff,
    ensures
        parse_exports(exports_words(es) + rest, exports_words(es).len()) == Ok::<(Seq<(Seq<char>, u16)>, Seq<u16>), PokiDeserializationError>((es, rest)),
    decreases es.len(),
{
    let f = |e: (Seq<char>, u16)| export_words(e);
    if es.len() == 0 {
        assert(exports_words(es) + rest =~= rest);
        assert(es =~= Seq::<(Seq<char>, u16)>::empty());
    } else {
        lemma_map_flatten_cons(es, f);
        let e = es[0];
        let u = utf16_of(e.0);
        let tail = exports_words(es.drop_first()) + rest;
        let w = exports_words(es) + rest;
        assert(w =~= seq![u.len() as u16] + u + seq![e.1] + tail);
        let r1 = w.drop_first();
        assert(r1 =~= u + (seq![e.1] + tail));
        assert(r1.take(u.len() as int) =~= u);
        assert(r1.skip(u.len() as int) =~= seq![e.1] + tail);
        assert((seq![e.1] + tail).drop_first() =~= tail);
        lemma_utf16_round_trip(e.0);
        lemma_parse_exports(es.drop_first(), rest);
        assert(seq![e] + es.drop_first() =~= es);
    }
}

proof fn lemma_parse_segment(s: SegmentView, rest: Seq<u16>)
    requires
        segment_fits(s),
    ensures
        parse_segment(body_words(s) + rest, header_words(s)) == Ok::<(SegmentView, Seq<u16>), PokiDeserializationError>((s, rest)),
{
    lemma_relocations_words_len(s.relocations);
    let rw = relocations_words(s.relocations);
    let ew = exports_words(s.exports);
    let w = body_words(s) + rest;
    assert(w =~= s.contents + (rw + (ew + rest)));
    assert(w.take(s.contents.len() as int) =~= s.contents);
    assert(w.skip(s.contents.len() as int) =~= rw + (ew + rest));
    lemma_parse_relocations(s.relocations, ew + rest);
    lemma_parse_exports(s.exports, rest);
    let h = header_words(s);
    assert(h[1] as int == 3 * s.relocations.len());
    assert(h[1] % 3 == 0);
    assert(h[1] / 3 == s.relocations.len());
}

proof fn lemma_parse_headers(segs: Seq<SegmentView>, rest: Seq<u16>)
    ensures
        parse_headers(segs.map_values(|s: SegmentView| header_words(s)).flatten() + rest, segs.len())
            == Ok::<(Seq<Seq<u16>>, Seq<u16>), PokiDeserializationError>((segs.map_values(|s: SegmentView| header_words(s)), rest)),
    decreases segs.len(),
{
    let f = |s: SegmentView| header_words(s);
    if segs.len() == 0 {
        assert(segs.map_values(f).flatten() + rest =~= rest);
        assert(segs.map_values(f) =~= Seq::<Seq<u16>>::empty());
    } else {
        lemma_map_flatten_cons(segs, f);
        let tail = segs.drop_first().map_values(f).flatten() + rest;
        let w = segs.map_values(f).flatten() + rest;
        assert(w =~= header_words(segs[0]) + tail);
        assert(w.take(3) =~= header_words(segs[0]));
        assert(w.skip(3) =~= tail);
        lemma_parse_headers(segs.drop_first(), rest);
        assert(seq![header_words(segs[0])] + segs.drop_first().map_values(f) =~= segs.map_values(f));
    }
}

proof fn lemma_parse_segments(segs: Seq<SegmentView>, rest: Seq<u16>)
    requires
        forall|i: int| 0 <= i < segs.len() ==> segment_fits(#[trigger] segs[i]),
    ensures
        parse_segments(segs.map_values(|s: SegmentView| body_words(s)).flatten() + rest, segs.map_values(|s: SegmentView| header_words(s)))
            == Ok::<(Seq<SegmentView>, Seq<u16>), PokiDeserializationError>((segs, rest)),
    decreases segs.len(),
{
    let f = |s: SegmentView| body_words(s);
    let h = |s: SegmentView| header_words(s);
    if segs.len() == 0 {
        assert(segs.map_values(f).flatten() + rest =~= rest);
        assert(segs =~= Seq::<SegmentView>::empty());
    } else {
        lemma_map_flatten_cons(segs, f);
        let tail = segs.drop_first().map_values(f).flatten() + rest;
        let w = segs.map_values(f).flatten() + rest;
        assert(w =~= body_words(segs[0]) + tail);
        assert(segment_fits(segs[0]));
        lemma_parse_segment(segs[0], tail);
        assert(segs.map_values(h).drop_first() =~= segs.drop_first().map_values(h));
        assert forall|i: int| 0 <= i < segs.drop_first().len() implies segment_fits(#[trigger] segs.drop_first()[i]) by {
            assert(segment_fits(segs[i + 1]));
        }
        lemma_parse_segments(segs.drop_first(), rest);
        assert(seq![segs[0]] + segs.drop_first() =~= segs);
    }
}

proof fn lemma_parse_unresolved(us: Seq<Seq<char>>)
    requires
        forall|i: int| 0 <= i < us.len() ==> utf16_of(#[trigger] us[i]).len() <= 0xffff,
    ensures
        parse_unresolved(unresolved_words(us)) == Ok::<Seq<Seq<char>>, PokiDeserializationError>(us),
    decreases us.len(),
{
    let f = |l: Seq<char>| label_words(l);
    if us.len() == 0 {
        assert(unresolved_words(us) =~= Seq::<u16>::empty());
        assert(us =~= Seq::<Seq<char>>::empty());
    } else {
        lemma_map_flatten_cons(us, f);
        let tail = unresolved_words(us.drop_first());
        assert(utf16_of(us[0]).len() <= 0xffff);
        lemma_parse_label(us[0], tail);
        assert forall|i: int| 0 <= i < us.drop_first().len() implies utf16_of(#[trigger] us.drop_first()[i]).len() <= 0xffff by {
            assert(utf16_of(us[i + 1]).len() <= 0xffff);
        }
        lemma_parse_unresolved(us.drop_first());
        assert(seq![us[0]] + us.drop_first() =~= us);
    }
}

proof fn lemma_words_of_bytes_of(w: Seq<u16>)
    ensures
        words_of(bytes_of(w)) == w,
        bytes_of(w).len() == 2 * w.len(),
    decreases w.len(),
{
    let f = |x: u16| seq![(x % 256) as u8, (x / 256) as u8];
    if w.len() == 0 {
        assert(words_of(bytes_of(w)) =~= w);
    } else {
        lemma_words_of_bytes_of(w.drop_last());
        assert(w.map_values(f) =~= w.drop_last().map_values(f).push(f(w.last())));
        w.drop_last().map_values(f).lemma_flatten_push(f(w.last()));
        let b = bytes_of(w);
        let b0 = bytes_of(w.drop_last());
        assert(b =~= b0 + f(w.last()));
        assert forall|i: int| 0 <= i < w.len() implies #[trigger] words_of(b)[i] == w[i] by {
            if i < w.len() - 1 {
                assert(words_of(b0)[i] == w.drop_last()[i]);
            }
        }
        assert(words_of(b) =~= w);
    }
}

/// Reading back what was written gives the same file: for every well-formed file whose sizes
/// fit in a word, the bytes that `serialize` produces are read by `deserialize` as that file.
pub proof fn round_trip(p: PokiView)
    requires
        poki_wf(p),
        fits(p),
    ensures
        poki_of_bytes(bytes_of(poki_words(p))) == Ok::<PokiView, PokiDeserializationError>(p),
{
    let h = |s: SegmentView| header_words(s);
    let b = |s: SegmentView| body_words(s);
    let hw = p.segments.map_values(h).flatten();
    let bw = p.segments.map_values(b).flatten();
    let uw = unresolved_words(p.unresolved);
    let w = poki_words(p);
    lemma_words_of_bytes_of(w);
    assert(w =~= magic() + (hw + (bw + uw)));
    assert(w.take(4) =~= magic());
    assert(w.skip(4) =~= hw + (bw + uw));
    lemma_parse_headers(p.segments, bw + uw);
    lemma_parse_segments(p.segments, uw);
    lemma_parse_unresolved(p.unresolved);
}

} // verus!
