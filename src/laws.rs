//! What holds across building and replaying values.
use vstd::prelude::*;

use crate::decode::{
    bytes_as_values, bytes_of, decode_composite, decode_primitive, decode_value, decode_values,
    decode_entries, decode_variant, scalar_of, wrap_composite, WIDE_LEN,
};
use crate::extract::{extract_value, ExtractedV, ShapeV};
use crate::replay::{
    composite_source, named_source, primitive_source, value_source, values_source, variant_source,
};
use crate::source::{DecodeError, SourceV};
use crate::value::{Composite, CompositeV, Primitive, PrimitiveV, Value, ValueV, Variant, VariantV};

verus! {

/// Whether a primitive is not one of the 256-bit integers.
pub open spec fn is_narrow_primitive(p: PrimitiveV) -> bool {
    !(p is U256) && !(p is I256)
}

/// Whether no 256-bit integer occurs anywhere in a value.
pub open spec fn is_narrow(v: ValueV) -> bool
    decreases v,
{
    match v {
        ValueV::Primitive(p) => is_narrow_primitive(p),
        ValueV::Composite(c) => is_narrow_composite(c),
        ValueV::Variant(var) => is_narrow_composite(var.values),
    }
}

/// Whether no 256-bit integer occurs anywhere in a composite.
pub open spec fn is_narrow_composite(c: CompositeV) -> bool
    decreases c,
{
    match c {
        CompositeV::Unnamed(items) => all_narrow(items),
        CompositeV::Named(fields) => all_named_narrow(fields),
    }
}

/// Whether no 256-bit integer occurs in any of a sequence of values.
pub open spec fn all_narrow(items: Seq<ValueV>) -> bool
    decreases items,
{
    if items.len() == 0 {
        true
    } else {
        let last = items.len() - 1;
        all_narrow(items.subrange(0, last)) && is_narrow(items[last])
    }
}

/// Whether no 256-bit integer occurs in any of a sequence of named values.
pub open spec fn all_named_narrow(fields: Seq<(Seq<char>, ValueV)>) -> bool
    decreases fields,
{
    if fields.len() == 0 {
        true
    } else {
        let last = fields.len() - 1;
        all_named_narrow(fields.subrange(0, last)) && is_narrow(fields[last].1)
    }
}

/// A primitive other than the 256-bit integers replays as the scalar node
/// that maps back to it.
proof fn lemma_scalar_replay(p: PrimitiveV)
    requires
        is_narrow_primitive(p),
    ensures
        scalar_of(primitive_source(p)) == Some(p),
        decode_value(primitive_source(p)) == Ok::<ValueV, DecodeError>(ValueV::Primitive(p)),
{
    match p {
        PrimitiveV::Bool(_) => {},
        PrimitiveV::Char(_) => {},
        PrimitiveV::Str(_) => {},
        PrimitiveV::U8(_) => {},
        PrimitiveV::U16(_) => {},
        PrimitiveV::U32(_) => {},
        PrimitiveV::U64(_) => {},
        PrimitiveV::U128(_) => {},
        PrimitiveV::I8(_) => {},
        PrimitiveV::I16(_) => {},
        PrimitiveV::I32(_) => {},
        PrimitiveV::I64(_) => {},
        PrimitiveV::I128(_) => {},
        _ => {},
    }
}

proof fn lemma_value_round_trip(v: ValueV)
    requires
        is_narrow(v),
    ensures
        decode_value(value_source(v)) == Ok::<ValueV, DecodeError>(v),
    decreases v,
{
    match v {
        ValueV::Primitive(p) => {
            assert(is_narrow_primitive(p));
            assert(value_source(v) == primitive_source(p));
            lemma_scalar_replay(p);

        },
        ValueV::Composite(c) => {
            lemma_composite_round_trip(c);
            assert(composite_source(c) is Sequence || composite_source(c) is Entries);
            assert(decode_value(composite_source(c)) == wrap_composite(
                decode_composite(composite_source(c)),
            ));
        },
        ValueV::Variant(var) => {
            lemma_composite_round_trip(var.values);
            assert(decode_variant(variant_source(var)) == Ok::<VariantV, DecodeError>(var));
        },
    }
}

proof fn lemma_composite_round_trip(c: CompositeV)
    requires
        is_narrow_composite(c),
    ensures
        decode_composite(composite_source(c)) == Ok::<CompositeV, DecodeError>(c),
    decreases c,
{
    match c {
        CompositeV::Unnamed(items) => {
            lemma_values_round_trip(items);
        },
        CompositeV::Named(fields) => {
            lemma_named_round_trip(fields);
        },
    }
}

proof fn lemma_values_round_trip(items: Seq<ValueV>)
    requires
        all_narrow(items),
    ensures
        decode_values(values_source(items)) == Ok::<Seq<ValueV>, DecodeError>(items),
    decreases items,
{
    if items.len() == 0 {
        assert(items =~= Seq::<ValueV>::empty());
    } else {
        let last = items.len() - 1;
        let pre = items.subrange(0, last);
        lemma_values_round_trip(pre);
        lemma_value_round_trip(items[last]);
        let ps = values_source(pre);
        assert(ps.push(value_source(items[last])).subrange(0, ps.len() as int) =~= ps);
        assert(pre.push(items[last]) =~= items);
    }
}

proof fn lemma_named_round_trip(fields: Seq<(Seq<char>, ValueV)>)
    requires
        all_named_narrow(fields),
    ensures
        decode_entries(named_source(fields)) == Ok::<Seq<(Seq<char>, ValueV)>, DecodeError>(
            fields,
        ),
    decreases fields,
{
    if fields.len() == 0 {
        assert(fields =~= Seq::<(Seq<char>, ValueV)>::empty());
    } else {
        let last = fields.len() - 1;
        let pre = fields.subrange(0, last);
        lemma_named_round_trip(pre);
        lemma_value_round_trip(fields[last].1);
        let ps = named_source(pre);
        let x = (fields[last].0, value_source(fields[last].1));
        assert(ps.push(x).subrange(0, ps.len() as int) =~= ps);
        assert(pre.push((fields[last].0, fields[last].1)) =~= fields);
    }
}

/// Round trip: replaying a value as a source and building a value from
/// that source gives the same value back, provided no 256-bit integer
/// occurs in it.
pub proof fn lemma_round_trip(v: Value)
    requires
        is_narrow(v@),
    ensures
        decode_value(value_source(v@)) == Ok::<ValueV, DecodeError>(v@),
{
    lemma_value_round_trip(v@);
}

/// Round trip for a composite on its own: replaying it and building a
/// composite gives it back, provided no 256-bit integer occurs in it.
pub proof fn lemma_composite_round_trip_exact(c: Composite)
    requires
        is_narrow_composite(c@),
    ensures
        decode_composite(composite_source(c@)) == Ok::<CompositeV, DecodeError>(c@),
{
    lemma_composite_round_trip(c@);
}

/// Round trip for a variant on its own: replaying it and building a
/// variant gives it back, provided no 256-bit integer occurs in its payload.
pub proof fn lemma_variant_round_trip(var: Variant)
    requires
        is_narrow_composite(var@.values),
    ensures
        decode_variant(variant_source(var@)) == Ok::<VariantV, DecodeError>(var@),
{
    lemma_composite_round_trip(var@.values);
}

/// Round trip for a primitive requested as a primitive: every primitive
/// but `I256` comes back unchanged; `I256` comes back as `U256` with the
/// same bytes.
pub proof fn lemma_primitive_round_trip(p: Primitive)
    ensures
        !(p@ is I256) ==> decode_primitive(primitive_source(p@)) == Ok::<PrimitiveV, DecodeError>(
            p@,
        ),
        p@ is I256 ==> decode_primitive(primitive_source(p@)) == Ok::<PrimitiveV, DecodeError>(
            PrimitiveV::U256(p@->I256_0),
        ),
{
}

/// A field left generic is copied through extraction unchanged, provided
/// no 256-bit integer occurs in it.
pub proof fn lemma_generic_field_unchanged(v: Value)
    requires
        is_narrow(v@),
    ensures
        extract_value(v@, ShapeV::Any) == Ok::<ExtractedV, DecodeError>(ExtractedV::Value(v@)),
{
    lemma_value_round_trip(v@);
}

/// The sources of a byte run given as a sequence of `U8` nodes.
pub open spec fn byte_sources(b: Seq<u8>) -> Seq<SourceV> {
    Seq::new(b.len(), |i: int| SourceV::U8(b[i]))
}

proof fn lemma_byte_sources(b: Seq<u8>)
    ensures
        bytes_of(byte_sources(b)) == Ok::<Seq<u8>, DecodeError>(b),
        decode_values(byte_sources(b)) == Ok::<Seq<ValueV>, DecodeError>(bytes_as_values(b)),
    decreases b.len(),
{
    if b.len() == 0 {
        assert(b =~= Seq::<u8>::empty());
        assert(bytes_as_values(b) =~= Seq::<ValueV>::empty());
    } else {
        let last = b.len() - 1;
        let pre = b.subrange(0, last);
        lemma_byte_sources(pre);
        assert(byte_sources(b).subrange(0, last) =~= byte_sources(pre));
        assert(byte_sources(b)[last] == SourceV::U8(b[last]));
        assert(decode_value(SourceV::U8(b[last])) == Ok::<ValueV, DecodeError>(
            ValueV::Primitive(PrimitiveV::U8(b[last])),
        ));
        assert(pre.push(b[last]) =~= b);
        assert(bytes_as_values(pre).push(ValueV::Primitive(PrimitiveV::U8(b[last])))
            =~= bytes_as_values(b));
    }
}

/// How a run of 32 bytes is resolved, whether it comes as a byte buffer or
/// as a sequence of `U8` nodes: requested as a primitive it is a `U256`;
/// requested as a value or a composite it is 32 `U8` values in order.
/// Either 256-bit primitive replays as such a run, so an `I256` comes back
/// as those 32 `U8` values, or as a `U256` when a primitive is requested.
pub proof fn lemma_wide_policy(b: Seq<u8>)
    requires
        b.len() == WIDE_LEN,
    ensures
        decode_primitive(SourceV::Bytes(b)) == Ok::<PrimitiveV, DecodeError>(PrimitiveV::U256(b)),
        decode_primitive(SourceV::Sequence(byte_sources(b))) == Ok::<PrimitiveV, DecodeError>(
            PrimitiveV::U256(b),
        ),
        decode_composite(SourceV::Bytes(b)) == Ok::<CompositeV, DecodeError>(
            CompositeV::Unnamed(bytes_as_values(b)),
        ),
        decode_value(SourceV::Bytes(b)) == Ok::<ValueV, DecodeError>(
            ValueV::Composite(CompositeV::Unnamed(bytes_as_values(b))),
        ),
        decode_value(SourceV::Sequence(byte_sources(b))) == Ok::<ValueV, DecodeError>(
            ValueV::Composite(CompositeV::Unnamed(bytes_as_values(b))),
        ),
        decode_value(value_source(ValueV::Primitive(PrimitiveV::I256(b)))) == Ok::<
            ValueV,
            DecodeError,
        >(ValueV::Composite(CompositeV::Unnamed(bytes_as_values(b)))),
        decode_value(value_source(ValueV::Primitive(PrimitiveV::U256(b)))) == Ok::<
            ValueV,
            DecodeError,
        >(ValueV::Composite(CompositeV::Unnamed(bytes_as_values(b)))),
        decode_primitive(value_source(ValueV::Primitive(PrimitiveV::I256(b)))) == Ok::<
            PrimitiveV,
            DecodeError,
        >(PrimitiveV::U256(b)),
{
    lemma_byte_sources(b);
    assert(decode_composite(SourceV::Sequence(byte_sources(b))) == Ok::<CompositeV, DecodeError>(
        CompositeV::Unnamed(bytes_as_values(b)),
    ));
}

/// A byte run of any other length than 32 fails as a primitive, citing
/// the expected and the actual length.
pub proof fn lemma_wide_length_mismatch(b: Seq<u8>)
    requires
        b.len() != WIDE_LEN,
        b.len() <= usize::MAX,
    ensures
        decode_primitive(SourceV::Bytes(b)) == Err::<PrimitiveV, DecodeError>(
            DecodeError::LengthMismatch { expected: WIDE_LEN, found: b.len() as usize },
        ),
        decode_primitive(SourceV::Sequence(byte_sources(b))) == Err::<PrimitiveV, DecodeError>(
            DecodeError::LengthMismatch { expected: WIDE_LEN, found: b.len() as usize },
        ),
{
    lemma_byte_sources(b);
}

} // verus!
