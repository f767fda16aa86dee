use vstd::prelude::*;

verus! {

/// A structured source, as a driving decoder presents it: one node per
/// callback of the construction protocol.
///
/// `Entries` carries a map whose keys are already in text form; `Fail`
/// stands for an error that the driving decoder reports at that point.
#[derive(Debug, PartialEq, Eq)]
pub enum Source {
    Bool(bool),
    I8(i8),
    I16(i16),
    I32(i32),
    I64(i64),
    I128(i128),
    U8(u8),
    U16(u16),
    U32(u32),
    U64(u64),
    U128(u128),
    Char(char),
    Str(String),
    Bytes(Vec<u8>),
    Absent,
    Present(Box<Source>),
    Unit,
    Newtype(Box<Source>),
    Sequence(Vec<Source>),
    Entries(Vec<(String, Source)>),
    Enum(String, Payload),
    Fail(String),
}

/// What an enum case of a source carries after its name.
#[derive(Debug, PartialEq, Eq)]
pub enum Payload {
    Unit,
    Newtype(Box<Source>),
    Tuple(Vec<Source>),
    Struct(Vec<(String, Source)>),
}

/// Why a value could not be built or extracted from a source.
#[derive(Clone, Debug, PartialEq, Eq)]
pub enum DecodeError {
    /// The source's shape disagrees with the requested target.
    StructuralMismatch,
    /// A byte run of the wrong length was given where a 256-bit primitive
    /// was requested.
    LengthMismatch { expected: usize, found: usize },
    /// An enum case that does not carry exactly one payload value.
    UnsupportedConstruct,
    /// An error reported by the source itself, passed through unchanged.
    Source(String),
}

/// Mathematical model of a `Source`.
pub enum SourceV {
    Bool(bool),
    I8(i8),
    I16(i16),
    I32(i32),
    I64(i64),
    I128(i128),
    U8(u8),
    U16(u16),
    U32(u32),
    U64(u64),
    U128(u128),
    Char(char),
    Str(Seq<char>),
    Bytes(Seq<u8>),
    Absent,
    Present(Box<SourceV>),
    Unit,
    Newtype(Box<SourceV>),
    Sequence(Seq<SourceV>),
    Entries(Seq<(Seq<char>, SourceV)>),
    Enum(Seq<char>, PayloadV),
    Fail(String),
}

/// Mathematical model of a `Payload`.
pub enum PayloadV {
    Unit,
    Newtype(Box<SourceV>),
    Tuple(Seq<SourceV>),
    Struct(Seq<(Seq<char>, SourceV)>),
}

/// The model of a source.
pub open spec fn source_view(s: Source) -> SourceV
    decreases s,
{
    match s {
        Source::Bool(b) => SourceV::Bool(b),
        Source::I8(n) => SourceV::I8(n),
        Source::I16(n) => SourceV::I16(n),
        Source::I32(n) => SourceV::I32(n),
        Source::I64(n) => SourceV::I64(n),
        Source::I128(n) => SourceV::I128(n),
        Source::U8(n) => SourceV::U8(n),
        Source::U16(n) => SourceV::U16(n),
        Source::U32(n) => SourceV::U32(n),
        Source::U64(n) => SourceV::U64(n),
        Source::U128(n) => SourceV::U128(n),
        Source::Char(c) => SourceV::Char(c),
        Source::Str(t) => SourceV::Str(t@),
        Source::Bytes(b) => SourceV::Bytes(b@),
        Source::Absent => SourceV::Absent,
        Source::Present(inner) => SourceV::Present(Box::new(source_view(*inner))),
        Source::Unit => SourceV::Unit,
        Source::Newtype(inner) => SourceV::Newtype(Box::new(source_view(*inner))),
        Source::Sequence(items) => SourceV::Sequence(sources_view(items@)),
        Source::Entries(es) => SourceV::Entries(entries_view(es@)),
        Source::Enum(name, payload) => SourceV::Enum(name@, payload_view(payload)),
        Source::Fail(m) => SourceV::Fail(m),
    }
}

/// The model of an enum payload.
pub open spec fn payload_view(p: Payload) -> PayloadV
    decreases p,
{
    match p {
        Payload::Unit => PayloadV::Unit,
        Payload::Newtype(inner) => PayloadV::Newtype(Box::new(source_view(*inner))),
        Payload::Tuple(items) => PayloadV::Tuple(sources_view(items@)),
        Payload::Struct(es) => PayloadV::Struct(entries_view(es@)),
    }
}

/// The models of a sequence of sources, element by element.
pub open spec fn sources_view(items: Seq<Source>) -> Seq<SourceV>
    decreases items,
{
    if items.len() == 0 {
        Seq::empty()
    } else {
        let last = items.len() - 1;
        sources_view(items.subrange(0, last)).push(source_view(items[last]))
    }
}

/// The models of a sequence of keyed sources, pair by pair.
pub open spec fn entries_view(es: Seq<(String, Source)>) -> Seq<(Seq<char>, SourceV)>
    decreases es,
{
    if es.len() == 0 {
        Seq::empty()
    } else {
        let last = es.len() - 1;
        entries_view(es.subrange(0, last)).push((es[last].0@, source_view(es[last].1)))
    }
}

impl View for Source {
    type V = SourceV;

    open spec fn view(&self) -> SourceV {
        source_view(*self)
    }
}

/// The model of a prefix one element longer.
pub proof fn lemma_sources_view_step(items: Seq<Source>, i: int)
    requires
        0 <= i < items.len(),
    ensures
        sources_view(items.subrange(0, i + 1)) == sources_view(items.subrange(0, i)).push(
            source_view(items[i]),
        ),
{
    assert(items.subrange(0, i + 1).subrange(0, i) =~= items.subrange(0, i));
}

/// The model of a prefix of entries one pair longer.
pub proof fn lemma_entries_view_step(es: Seq<(String, Source)>, i: int)
    requires
        0 <= i < es.len(),
    ensures
        entries_view(es.subrange(0, i + 1)) == entries_view(es.subrange(0, i)).push(
            (es[i].0@, source_view(es[i].1)),
        ),
{
    assert(es.subrange(0, i + 1).subrange(0, i) =~= es.subrange(0, i));
}

/// The models of a sequence keep its length.
pub proof fn lemma_sources_view_len(items: Seq<Source>)
    ensures
        sources_view(items).len() == items.len(),
    decreases items.len(),
{
    if items.len() > 0 {
        lemma_sources_view_len(items.subrange(0, items.len() - 1));
    }
}

/// Appending a source appends its model.
pub proof fn lemma_sources_view_push(items: Seq<Source>, x: Source)
    ensures
        sources_view(items.push(x)) == sources_view(items).push(source_view(x)),
{
    assert(items.push(x).subrange(0, items.len() as int) =~= items);
}

/// Appending a keyed source appends its model.
pub proof fn lemma_entries_view_push(es: Seq<(String, Source)>, e: (String, Source))
    ensures
        entries_view(es.push(e)) == entries_view(es).push((e.0@, source_view(e.1))),
{
    assert(es.push(e).subrange(0, es.len() as int) =~= es);
}

/// The model of a prefix is the prefix of the model.
pub proof fn lemma_sources_view_prefix(items: Seq<Source>, i: int)
    requires
        0 <= i <= items.len(),
    ensures
        sources_view(items.subrange(0, i)) == sources_view(items).subrange(0, i),
    decreases items.len() - i,
{
    lemma_sources_view_len(items);
    lemma_sources_view_len(items.subrange(0, i));
    if i == items.len() {
        assert(items.subrange(0, i) =~= items);
        assert(sources_view(items).subrange(0, i) =~= sources_view(items));
    } else {
        lemma_sources_view_prefix(items, i + 1);
        lemma_sources_view_step(items, i);
        assert(sources_view(items).subrange(0, i + 1).subrange(0, i) =~= sources_view(
            items,
        ).subrange(0, i));
    }
}

/// The model of a prefix of entries is the prefix of the model.
pub proof fn lemma_entries_view_prefix(es: Seq<(String, Source)>, i: int)
    requires
        0 <= i <= es.len(),
    ensures
        entries_view(es.subrange(0, i)) == entries_view(es).subrange(0, i),
        entries_view(es).len() == es.len(),
    decreases es.len() - i,
{
    lemma_entries_view_len(es);
    lemma_entries_view_len(es.subrange(0, i));
    if i == es.len() {
        assert(es.subrange(0, i) =~= es);
        assert(entries_view(es).subrange(0, i) =~= entries_view(es));
    } else {
        lemma_entries_view_prefix(es, i + 1);
        lemma_entries_view_step(es, i);
        assert(entries_view(es).subrange(0, i + 1).subrange(0, i) =~= entries_view(es).subrange(
            0,
            i,
        ));
    }
}

/// The models of a sequence of entries keep its length.
pub proof fn lemma_entries_view_len(es: Seq<(String, Source)>)
    ensures
        entries_view(es).len() == es.len(),
    decreases es.len(),
{
    if es.len() > 0 {
        lemma_entries_view_len(es.subrange(0, es.len() - 1));
    }
}

} // verus!
