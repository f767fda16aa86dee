use vstd::prelude::*;

verus! {

/// A leaf scalar of a decoded datum.
///
/// The 256-bit integers are held as opaque 32-byte buffers: this library
/// neither interprets their byte order nor computes with them.
#[derive(Clone, Debug, PartialEq, Eq)]
pub enum Primitive {
    Bool(bool),
    Char(char),
    Str(String),
    U8(u8),
    U16(u16),
    U32(u32),
    U64(u64),
    U128(u128),
    U256([u8; 32]),
    I8(i8),
    I16(i16),
    I32(i32),
    I64(i64),
    I128(i128),
    I256([u8; 32]),
}

/// An ordered aggregate of values: positional fields, or named fields.
///
/// `Named` keeps its pairs in insertion order and does not require the
/// names to be unique.
#[derive(Debug, PartialEq, Eq)]
pub enum Composite {
    Named(Vec<(String, Value)>),
    Unnamed(Vec<Value>),
}

/// One named enum case, carrying exactly one payload.
#[derive(Debug, PartialEq, Eq)]
pub struct Variant {
    pub name: String,
    pub values: Composite,
}

/// Any decoded datum, without a fixed schema.
#[derive(Debug, PartialEq, Eq)]
pub enum Value {
    Composite(Composite),
    Variant(Variant),
    Primitive(Primitive),
}

/// Mathematical model of a `Primitive`.
pub enum PrimitiveV {
    Bool(bool),
    Char(char),
    Str(Seq<char>),
    U8(u8),
    U16(u16),
    U32(u32),
    U64(u64),
    U128(u128),
    U256(Seq<u8>),
    I8(i8),
    I16(i16),
    I32(i32),
    I64(i64),
    I128(i128),
    I256(Seq<u8>),
}

/// Mathematical model of a `Composite`.
pub enum CompositeV {
    Named(Seq<(Seq<char>, ValueV)>),
    Unnamed(Seq<ValueV>),
}

/// Mathematical model of a `Variant`.
pub struct VariantV {
    pub name: Seq<char>,
    pub values: CompositeV,
}

/// Mathematical model of a `Value`.
pub enum ValueV {
    Composite(CompositeV),
    Variant(VariantV),
    Primitive(PrimitiveV),
}

impl View for Primitive {
    type V = PrimitiveV;

    open spec fn view(&self) -> PrimitiveV {
        match self {
            Primitive::Bool(b) => PrimitiveV::Bool(*b),
            Primitive::Char(c) => PrimitiveV::Char(*c),
            Primitive::Str(s) => PrimitiveV::Str(s@),
            Primitive::U8(n) => PrimitiveV::U8(*n),
            Primitive::U16(n) => PrimitiveV::U16(*n),
            Primitive::U32(n) => PrimitiveV::U32(*n),
            Primitive::U64(n) => PrimitiveV::U64(*n),
            Primitive::U128(n) => PrimitiveV::U128(*n),
            Primitive::U256(b) => PrimitiveV::U256(b@),
            Primitive::I8(n) => PrimitiveV::I8(*n),
            Primitive::I16(n) => PrimitiveV::I16(*n),
            Primitive::I32(n) => PrimitiveV::I32(*n),
            Primitive::I64(n) => PrimitiveV::I64(*n),
            Primitive::I128(n) => PrimitiveV::I128(*n),
            Primitive::I256(b) => PrimitiveV::I256(b@),
        }
    }
}

/// The model of a value.
pub open spec fn value_view(v: Value) -> ValueV
    decreases v,
{
    match v {
        Value::Composite(c) => ValueV::Composite(composite_view(c)),
        Value::Variant(var) => ValueV::Variant(
            VariantV { name: var.name@, values: composite_view(var.values) },
        ),
        Value::Primitive(p) => ValueV::Primitive(p@),
    }
}

/// The model of a composite.
pub open spec fn composite_view(c: Composite) -> CompositeV
    decreases c,
{
    match c {
        Composite::Named(fields) => CompositeV::Named(named_view(fields@)),
        Composite::Unnamed(items) => CompositeV::Unnamed(values_view(items@)),
    }
}

/// The models of a sequence of values, element by element.
pub open spec fn values_view(items: Seq<Value>) -> Seq<ValueV>
    decreases items,
{
    if items.len() == 0 {
        Seq::empty()
    } else {
        let last = items.len() - 1;
        values_view(items.subrange(0, last)).push(value_view(items[last]))
    }
}

/// The models of a sequence of named fields, pair by pair.
pub open spec fn named_view(fields: Seq<(String, Value)>) -> Seq<(Seq<char>, ValueV)>
    decreases fields,
{
    if fields.len() == 0 {
        Seq::empty()
    } else {
        let last = fields.len() - 1;
        named_view(fields.subrange(0, last)).push((fields[last].0@, value_view(fields[last].1)))
    }
}

impl View for Composite {
    type V = CompositeV;

    open spec fn view(&self) -> CompositeV {
        composite_view(*self)
    }
}

impl View for Variant {
    type V = VariantV;

    open spec fn view(&self) -> VariantV {
        VariantV { name: self.name@, values: composite_view(self.values) }
    }
}

impl View for Value {
    type V = ValueV;

    open spec fn view(&self) -> ValueV {
        value_view(*self)
    }
}

/// Appending a value appends its model.
pub proof fn lemma_values_view_push(items: Seq<Value>, v: Value)
    ensures
        values_view(items.push(v)) == values_view(items).push(value_view(v)),
{
    assert(items.push(v).subrange(0, items.len() as int) =~= items);
}

/// Appending a named field appends its model.
pub proof fn lemma_named_view_push(fields: Seq<(String, Value)>, f: (String, Value))
    ensures
        named_view(fields.push(f)) == named_view(fields).push((f.0@, value_view(f.1))),
{
    assert(fields.push(f).subrange(0, fields.len() as int) =~= fields);
}

/// The model of a prefix one element longer.
pub proof fn lemma_values_view_step(items: Seq<Value>, i: int)
    requires
        0 <= i < items.len(),
    ensures
        values_view(items.subrange(0, i + 1)) == values_view(items.subrange(0, i)).push(
            value_view(items[i]),
        ),
{
    assert(items.subrange(0, i + 1).subrange(0, i) =~= items.subrange(0, i));
}

/// The model of a prefix of named fields one pair longer.
pub proof fn lemma_named_view_step(fields: Seq<(String, Value)>, i: int)
    requires
        0 <= i < fields.len(),
    ensures
        named_view(fields.subrange(0, i + 1)) == named_view(fields.subrange(0, i)).push(
            (fields[i].0@, value_view(fields[i].1)),
        ),
{
    assert(fields.subrange(0, i + 1).subrange(0, i) =~= fields.subrange(0, i));
}

} // verus!
