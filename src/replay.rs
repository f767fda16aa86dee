//! A built value acting as a source: it replays itself through the same
//! nodes that the construction protocol consumes, so that a second reader
//! can build from it.
use vstd::prelude::*;

use crate::source::{
    entries_view, lemma_entries_view_push, lemma_sources_view_push, sources_view, PayloadV,
    Payload, Source, SourceV,
};
use crate::value::{
    lemma_named_view_step, lemma_values_view_step, named_view, values_view, Composite, CompositeV,
    Primitive, PrimitiveV, Value, ValueV, Variant, VariantV,
};

verus! {

/// The source node that a primitive replays as: the matching scalar, and a
/// 256-bit integer as its 32-byte run.
pub open spec fn primitive_source(p: PrimitiveV) -> SourceV {
    match p {
        PrimitiveV::Bool(b) => SourceV::Bool(b),
        PrimitiveV::Char(c) => SourceV::Char(c),
        PrimitiveV::Str(t) => SourceV::Str(t),
        PrimitiveV::U8(n) => SourceV::U8(n),
        PrimitiveV::U16(n) => SourceV::U16(n),
        PrimitiveV::U32(n) => SourceV::U32(n),
        PrimitiveV::U64(n) => SourceV::U64(n),
        PrimitiveV::U128(n) => SourceV::U128(n),
        PrimitiveV::U256(b) => SourceV::Bytes(b),
        PrimitiveV::I8(n) => SourceV::I8(n),
        PrimitiveV::I16(n) => SourceV::I16(n),
        PrimitiveV::I32(n) => SourceV::I32(n),
        PrimitiveV::I64(n) => SourceV::I64(n),
        PrimitiveV::I128(n) => SourceV::I128(n),
        PrimitiveV::I256(b) => SourceV::Bytes(b),
    }
}

/// The source that a value replays as.
pub open spec fn value_source(v: ValueV) -> SourceV
    decreases v,
{
    match v {
        ValueV::Primitive(p) => primitive_source(p),
        ValueV::Composite(c) => composite_source(c),
        ValueV::Variant(var) => variant_source(var),
    }
}

/// The source that a variant replays as: an enum case of the same name
/// whose one payload is its composite.
pub open spec fn variant_source(var: VariantV) -> SourceV
    decreases var,
{
    SourceV::Enum(var.name, PayloadV::Newtype(Box::new(composite_source(var.values))))
}

/// The source that a composite replays as: `Unnamed` as a sequence in
/// stored order, `Named` as a map whose pairs come in stored order.
pub open spec fn composite_source(c: CompositeV) -> SourceV
    decreases c,
{
    match c {
        CompositeV::Unnamed(items) => SourceV::Sequence(values_source(items)),
        CompositeV::Named(fields) => SourceV::Entries(named_source(fields)),
    }
}

/// The sources of a sequence of values, element by element.
pub open spec fn values_source(items: Seq<ValueV>) -> Seq<SourceV>
    decreases items,
{
    if items.len() == 0 {
        Seq::empty()
    } else {
        let last = items.len() - 1;
        values_source(items.subrange(0, last)).push(value_source(items[last]))
    }
}

/// The keyed sources of a sequence of named values, pair by pair.
pub open spec fn named_source(fields: Seq<(Seq<char>, ValueV)>) -> Seq<(Seq<char>, SourceV)>
    decreases fields,
{
    if fields.len() == 0 {
        Seq::empty()
    } else {
        let last = fields.len() - 1;
        named_source(fields.subrange(0, last)).push((fields[last].0, value_source(fields[last].1)))
    }
}

/// The bytes of a 256-bit buffer, in order.
fn wide_bytes(b: &[u8; 32]) -> (r: Vec<u8>)
    ensures
        r@ == b@,
{
    let mut out: Vec<u8> = Vec::new();
    let mut i: usize = 0;
    while i < 32
        invariant
            i <= 32,
            out@ == b@.subrange(0, i as int),
        decreases 32 - i,
    {
        out.push(b[i]);
        proof {
            assert(out@ =~= b@.subrange(0, i + 1));
        }
        i += 1;
    }
    proof {
        assert(b@.subrange(0, 32) =~= b@);
    }
    out
}

/// The sources of a sequence of values.
fn values_to_sources(items: &Vec<Value>) -> (r: Vec<Source>)
    ensures
        sources_view(r@) == values_source(values_view(items@)),
    decreases items,
{
    let mut out: Vec<Source> = Vec::new();
    let mut i: usize = 0;
    while i < items.len()
        invariant
            i <= items.len(),
            sources_view(out@) == values_source(values_view(items@.subrange(0, i as int))),
        decreases items.len() - i,
    {
        let s = items[i].to_source();
        proof {
            lemma_values_view_step(items@, i as int);
            let pre = values_view(items@.subrange(0, i as int));
            let x = crate::value::value_view(items@[i as int]);
            assert(pre.push(x).subrange(0, pre.len() as int) =~= pre);
            lemma_sources_view_push(out@, s);
        }
        out.push(s);
        i += 1;
    }
    proof {
        assert(items@.subrange(0, i as int) =~= items@);
    }
    out
}

/// The keyed sources of a sequence of named values.
fn named_to_entries(fields: &Vec<(String, Value)>) -> (r: Vec<(String, Source)>)
    ensures
        entries_view(r@) == named_source(named_view(fields@)),
    decreases fields,
{
    let mut out: Vec<(String, Source)> = Vec::new();
    let mut i: usize = 0;
    while i < fields.len()
        invariant
            i <= fields.len(),
            entries_view(out@) == named_source(named_view(fields@.subrange(0, i as int))),
        decreases fields.len() - i,
    {
        let field = &fields[i];
        let e = (field.0.clone(), field.1.to_source());
        proof {
            lemma_named_view_step(fields@, i as int);
            let pre = named_view(fields@.subrange(0, i as int));
            let x = (fields@[i as int].0@, crate::value::value_view(fields@[i as int].1));
            assert(pre.push(x).subrange(0, pre.len() as int) =~= pre);
            lemma_entries_view_push(out@, e);
        }
        out.push(e);
        i += 1;
    }
    proof {
        assert(fields@.subrange(0, i as int) =~= fields@);
    }
    out
}

impl Primitive {
    /// Replays this primitive as a source node.
    pub fn to_source(&self) -> (r: Source)
        ensures
            r@ == primitive_source(self@),
    {
        match self {
            Primitive::Bool(b) => Source::Bool(*b),
            Primitive::Char(c) => Source::Char(*c),
            Primitive::Str(t) => Source::Str(t.clone()),
            Primitive::U8(n) => Source::U8(*n),
            Primitive::U16(n) => Source::U16(*n),
            Primitive::U32(n) => Source::U32(*n),
            Primitive::U64(n) => Source::U64(*n),
            Primitive::U128(n) => Source::U128(*n),
            Primitive::U256(b) => Source::Bytes(wide_bytes(b)),
            Primitive::I8(n) => Source::I8(*n),
            Primitive::I16(n) => Source::I16(*n),
            Primitive::I32(n) => Source::I32(*n),
            Primitive::I64(n) => Source::I64(*n),
            Primitive::I128(n) => Source::I128(*n),
            Primitive::I256(b) => Source::Bytes(wide_bytes(b)),
        }
    }
}

impl Value {
    /// Replays this value as a source, so that it can drive the
    /// construction protocol a second time.
    pub fn to_source(&self) -> (r: Source)
        ensures
            r@ == value_source(self@),
        decreases self,
    {
        match self {
            Value::Primitive(p) => p.to_source(),
            Value::Composite(c) => c.to_source(),
            Value::Variant(var) => var.to_source(),
        }
    }
}

impl Composite {
    /// Replays this composite as a sequence or a map source.
    pub fn to_source(&self) -> (r: Source)
        ensures
            r@ == composite_source(self@),
        decreases self,
    {
        match self {
            Composite::Unnamed(items) => Source::Sequence(values_to_sources(items)),
            Composite::Named(fields) => Source::Entries(named_to_entries(fields)),
        }
    }
}

impl Variant {
    /// Replays this variant as an enum case carrying its composite as the
    /// one payload.
    pub fn to_source(&self) -> (r: Source)
        ensures
            r@ == variant_source(self@),
        decreases self,
    {
        let payload = Payload::Newtype(Box::new(self.values.to_source()));
        proof {
            assert(crate::source::payload_view(payload) == PayloadV::Newtype(
                Box::new(composite_source(self.values@)),
            ));
        }
        let r = Source::Enum(self.name.clone(), payload);
        proof {
            assert(r@ == SourceV::Enum(self.name@, crate::source::payload_view(payload)));
        }
        r
    }
}

} // verus!
