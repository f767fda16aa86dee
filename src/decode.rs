//! The construction protocol: how a value of each target shape is built
//! from a structured source.
//!
//! One set of rules serves the four targets. Scalars go through
//! `scalar_of`, sequences and maps through `decode_values` and
//! `decode_entries`, and each target differs only in which source nodes it
//! accepts and how it wraps the result.
use vstd::prelude::*;

use crate::source::{
    entries_view, lemma_entries_view_step, lemma_sources_view_step, source_view, sources_view,
    DecodeError, Payload, PayloadV, Source, SourceV,
};
use crate::value::{
    lemma_named_view_push, lemma_values_view_push, named_view, value_view, values_view, Composite, CompositeV,
    Primitive, PrimitiveV, Value, ValueV, Variant, VariantV,
};

verus! {

/// The length of the byte buffer that holds a 256-bit integer.
pub const WIDE_LEN: usize = 32;

/// A decoding result, with the decoded value replaced by its model.
pub open spec fn result_view<T: View>(r: Result<T, DecodeError>) -> Result<T::V, DecodeError> {
    match r {
        Ok(t) => Ok(t@),
        Err(e) => Err(e),
    }
}

/// The primitive that a scalar source node maps to, one for one and at the
/// width the source reports; `None` for every other node.
pub open spec fn scalar_of(s: SourceV) -> Option<PrimitiveV> {
    match s {
        SourceV::Bool(b) => Some(PrimitiveV::Bool(b)),
        SourceV::I8(n) => Some(PrimitiveV::I8(n)),
        SourceV::I16(n) => Some(PrimitiveV::I16(n)),
        SourceV::I32(n) => Some(PrimitiveV::I32(n)),
        SourceV::I64(n) => Some(PrimitiveV::I64(n)),
        SourceV::I128(n) => Some(PrimitiveV::I128(n)),
        SourceV::U8(n) => Some(PrimitiveV::U8(n)),
        SourceV::U16(n) => Some(PrimitiveV::U16(n)),
        SourceV::U32(n) => Some(PrimitiveV::U32(n)),
        SourceV::U64(n) => Some(PrimitiveV::U64(n)),
        SourceV::U128(n) => Some(PrimitiveV::U128(n)),
        SourceV::Char(c) => Some(PrimitiveV::Char(c)),
        SourceV::Str(t) => Some(PrimitiveV::Str(t)),
        _ => None,
    }
}

/// The number that an integer source node holds, whatever its width.
pub open spec fn int_of(s: SourceV) -> Option<int> {
    match s {
        SourceV::I8(n) => Some(n as int),
        SourceV::I16(n) => Some(n as int),
        SourceV::I32(n) => Some(n as int),
        SourceV::I64(n) => Some(n as int),
        SourceV::I128(n) => Some(n as int),
        SourceV::U8(n) => Some(n as int),
        SourceV::U16(n) => Some(n as int),
        SourceV::U32(n) => Some(n as int),
        SourceV::U64(n) => Some(n as int),
        SourceV::U128(n) => Some(n as int),
        _ => None,
    }
}

/// One element of a byte run: an integer source node in `0..256`.
pub open spec fn byte_of(s: SourceV) -> Result<u8, DecodeError> {
    match s {
        SourceV::Fail(m) => Err(DecodeError::Source(m)),
        _ => match int_of(s) {
            Some(n) => if 0 <= n < 256 {
                Ok(n as u8)
            } else {
                Err(DecodeError::StructuralMismatch)
            },
            None => Err(DecodeError::StructuralMismatch),
        },
    }
}

/// The bytes of a sequence of sources, or the first element's error.
pub open spec fn bytes_of(items: Seq<SourceV>) -> Result<Seq<u8>, DecodeError>
    decreases items.len(),
{
    if items.len() == 0 {
        Ok(Seq::empty())
    } else {
        let last = items.len() - 1;
        match bytes_of(items.subrange(0, last)) {
            Err(e) => Err(e),
            Ok(bs) => match byte_of(items[last]) {
                Err(e) => Err(e),
                Ok(b) => Ok(bs.push(b)),
            },
        }
    }
}

/// A 256-bit primitive from a byte run, which must be exactly 32 long.
/// The sign cannot be told from the bytes: the result is always unsigned.
pub open spec fn wide_of(bytes: Seq<u8>) -> Result<PrimitiveV, DecodeError> {
    if bytes.len() == WIDE_LEN {
        Ok(PrimitiveV::U256(bytes))
    } else {
        Err(DecodeError::LengthMismatch { expected: WIDE_LEN, found: bytes.len() as usize })
    }
}

/// A byte run as positional values, one `U8` per byte, in order.
pub open spec fn bytes_as_values(bytes: Seq<u8>) -> Seq<ValueV> {
    Seq::new(bytes.len(), |i: int| ValueV::Primitive(PrimitiveV::U8(bytes[i])))
}

/// A source read as a `Primitive`.
pub open spec fn decode_primitive(s: SourceV) -> Result<PrimitiveV, DecodeError>
    decreases s,
{
    match s {
        SourceV::Bytes(b) => wide_of(b),
        SourceV::Sequence(items) => match bytes_of(items) {
            Ok(b) => wide_of(b),
            Err(e) => Err(e),
        },
        SourceV::Present(inner) => decode_primitive(*inner),
        SourceV::Fail(m) => Err(DecodeError::Source(m)),
        _ => match scalar_of(s) {
            Some(p) => Ok(p),
            None => Err(DecodeError::StructuralMismatch),
        },
    }
}

/// A source read as a `Value`.
///
/// Scalars become primitives; byte runs, absent and unit nodes, sequences
/// and maps are read as composites; enum cases as variants. A byte run
/// thus becomes `U8` values, never a 256-bit primitive.
pub open spec fn decode_value(s: SourceV) -> Result<ValueV, DecodeError>
    decreases s, 2nat,
{
    match s {
        SourceV::Present(inner) => decode_value(*inner),
        SourceV::Newtype(inner) => decode_value(*inner),
        SourceV::Bytes(_) => wrap_composite(decode_composite(s)),
        SourceV::Absent => wrap_composite(decode_composite(s)),
        SourceV::Unit => wrap_composite(decode_composite(s)),
        SourceV::Sequence(_) => wrap_composite(decode_composite(s)),
        SourceV::Entries(_) => wrap_composite(decode_composite(s)),
        SourceV::Enum(_, _) => match decode_variant(s) {
            Ok(v) => Ok(ValueV::Variant(v)),
            Err(e) => Err(e),
        },
        SourceV::Fail(m) => Err(DecodeError::Source(m)),
        _ => match scalar_of(s) {
            Some(p) => Ok(ValueV::Primitive(p)),
            None => Err(DecodeError::StructuralMismatch),
        },
    }
}

/// A composite result wrapped as a value.
pub open spec fn wrap_composite(r: Result<CompositeV, DecodeError>) -> Result<ValueV, DecodeError> {
    match r {
        Ok(c) => Ok(ValueV::Composite(c)),
        Err(e) => Err(e),
    }
}

/// A source read as a `Composite`.
pub open spec fn decode_composite(s: SourceV) -> Result<CompositeV, DecodeError>
    decreases s, 0nat,
{
    match s {
        SourceV::Bytes(b) => Ok(CompositeV::Unnamed(bytes_as_values(b))),
        SourceV::Absent => Ok(CompositeV::Unnamed(Seq::empty())),
        SourceV::Unit => Ok(CompositeV::Unnamed(Seq::empty())),
        SourceV::Present(inner) => decode_composite(*inner),
        SourceV::Newtype(inner) => decode_composite(*inner),
        SourceV::Sequence(items) => match decode_values(items) {
            Ok(vs) => Ok(CompositeV::Unnamed(vs)),
            Err(e) => Err(e),
        },
        SourceV::Entries(es) => match decode_entries(es) {
            Ok(fs) => Ok(CompositeV::Named(fs)),
            Err(e) => Err(e),
        },
        SourceV::Fail(m) => Err(DecodeError::Source(m)),
        _ => Err(DecodeError::StructuralMismatch),
    }
}

/// A source read as a `Variant`: an enum case whose payload is exactly
/// one value, itself read as a composite.
pub open spec fn decode_variant(s: SourceV) -> Result<VariantV, DecodeError>
    decreases s, 1nat,
{
    match s {
        SourceV::Enum(name, payload) => match payload {
            PayloadV::Newtype(inner) => match decode_composite(*inner) {
                Ok(c) => Ok(VariantV { name, values: c }),
                Err(e) => Err(e),
            },
            _ => Err(DecodeError::UnsupportedConstruct),
        },
        SourceV::Fail(m) => Err(DecodeError::Source(m)),
        _ => Err(DecodeError::StructuralMismatch),
    }
}

/// Each source of a sequence read as a value, in order; or the first error.
pub open spec fn decode_values(items: Seq<SourceV>) -> Result<Seq<ValueV>, DecodeError>
    decreases items, 0nat,
{
    if items.len() == 0 {
        Ok(Seq::empty())
    } else {
        let last = items.len() - 1;
        match decode_values(items.subrange(0, last)) {
            Err(e) => Err(e),
            Ok(vs) => match decode_value(items[last]) {
                Err(e) => Err(e),
                Ok(v) => Ok(vs.push(v)),
            },
        }
    }
}

/// Each keyed source read as a named value, in arrival order; or the
/// first error.
pub open spec fn decode_entries(es: Seq<(Seq<char>, SourceV)>) -> Result<
    Seq<(Seq<char>, ValueV)>,
    DecodeError,
>
    decreases es, 0nat,
{
    if es.len() == 0 {
        Ok(Seq::empty())
    } else {
        let last = es.len() - 1;
        match decode_entries(es.subrange(0, last)) {
            Err(e) => Err(e),
            Ok(fs) => match decode_value(es[last].1) {
                Err(e) => Err(e),
                Ok(v) => Ok(fs.push((es[last].0, v))),
            },
        }
    }
}

/// Once a prefix of a byte run has failed, the whole run fails the same way.
proof fn lemma_bytes_of_prefix_err(items: Seq<SourceV>, i: int)
    requires
        0 <= i <= items.len(),
        bytes_of(items.subrange(0, i)) is Err,
    ensures
        bytes_of(items) == bytes_of(items.subrange(0, i)),
    decreases items.len() - i,
{
    if i == items.len() {
        assert(items.subrange(0, i) =~= items);
    } else {
        assert(items.subrange(0, i + 1).subrange(0, i) =~= items.subrange(0, i));
        lemma_bytes_of_prefix_err(items, i + 1);
    }
}

/// Once a prefix of a sequence has failed, the whole sequence fails the
/// same way.
proof fn lemma_decode_values_prefix_err(items: Seq<SourceV>, i: int)
    requires
        0 <= i <= items.len(),
        decode_values(items.subrange(0, i)) is Err,
    ensures
        decode_values(items) == decode_values(items.subrange(0, i)),
    decreases items.len() - i,
{
    if i == items.len() {
        assert(items.subrange(0, i) =~= items);
    } else {
        assert(items.subrange(0, i + 1).subrange(0, i) =~= items.subrange(0, i));
        lemma_decode_values_prefix_err(items, i + 1);
    }
}

/// Once a prefix of a map has failed, the whole map fails the same way.
proof fn lemma_decode_entries_prefix_err(es: Seq<(Seq<char>, SourceV)>, i: int)
    requires
        0 <= i <= es.len(),
        decode_entries(es.subrange(0, i)) is Err,
    ensures
        decode_entries(es) == decode_entries(es.subrange(0, i)),
    decreases es.len() - i,
{
    if i == es.len() {
        assert(es.subrange(0, i) =~= es);
    } else {
        assert(es.subrange(0, i + 1).subrange(0, i) =~= es.subrange(0, i));
        lemma_decode_entries_prefix_err(es, i + 1);
    }
}

/// The primitive of a scalar source node; `None` for any other node.
fn scalar_from(s: &Source) -> (r: Option<Primitive>)
    ensures
        (match r {
            Some(p) => Some(p@),
            None => None,
        }) == scalar_of(s@),
{
    match s {
        Source::Bool(b) => Some(Primitive::Bool(*b)),
        Source::I8(n) => Some(Primitive::I8(*n)),
        Source::I16(n) => Some(Primitive::I16(*n)),
        Source::I32(n) => Some(Primitive::I32(*n)),
        Source::I64(n) => Some(Primitive::I64(*n)),
        Source::I128(n) => Some(Primitive::I128(*n)),
        Source::U8(n) => Some(Primitive::U8(*n)),
        Source::U16(n) => Some(Primitive::U16(*n)),
        Source::U32(n) => Some(Primitive::U32(*n)),
        Source::U64(n) => Some(Primitive::U64(*n)),
        Source::U128(n) => Some(Primitive::U128(*n)),
        Source::Char(c) => Some(Primitive::Char(*c)),
        Source::Str(t) => Some(Primitive::Str(t.clone())),
        _ => None,
    }
}

/// One element of a byte run.
fn byte_from(s: &Source) -> (r: Result<u8, DecodeError>)
    ensures
        r == byte_of(s@),
{
    match s {
        Source::Fail(m) => Err(DecodeError::Source(m.clone())),
        Source::U8(n) => Ok(*n),
        Source::U16(n) => if *n < 256 {
            Ok(*n as u8)
        } else {
            Err(DecodeError::StructuralMismatch)
        },
        Source::U32(n) => if *n < 256 {
            Ok(*n as u8)
        } else {
            Err(DecodeError::StructuralMismatch)
        },
        Source::U64(n) => if *n < 256 {
            Ok(*n as u8)
        } else {
            Err(DecodeError::StructuralMismatch)
        },
        Source::U128(n) => if *n < 256 {
            Ok(*n as u8)
        } else {
            Err(DecodeError::StructuralMismatch)
        },
        Source::I8(n) => if 0 <= *n {
            Ok(*n as u8)
        } else {
            Err(DecodeError::StructuralMismatch)
        },
        Source::I16(n) => if 0 <= *n && *n < 256 {
            Ok(*n as u8)
        } else {
            Err(DecodeError::StructuralMismatch)
        },
        Source::I32(n) => if 0 <= *n && *n < 256 {
            Ok(*n as u8)
        } else {
            Err(DecodeError::StructuralMismatch)
        },
        Source::I64(n) => if 0 <= *n && *n < 256 {
            Ok(*n as u8)
        } else {
            Err(DecodeError::StructuralMismatch)
        },
        Source::I128(n) => if 0 <= *n && *n < 256 {
            Ok(*n as u8)
        } else {
            Err(DecodeError::StructuralMismatch)
        },
        _ => Err(DecodeError::StructuralMismatch),
    }
}

/// The bytes of a sequence of sources.
fn bytes_from(items: &Vec<Source>) -> (r: Result<Vec<u8>, DecodeError>)
    ensures
        result_view(r) == bytes_of(sources_view(items@)),
{
    let mut out: Vec<u8> = Vec::new();
    let mut i: usize = 0;
    while i < items.len()
        invariant
            i <= items.len(),
            bytes_of(sources_view(items@.subrange(0, i as int))) == Ok::<Seq<u8>, DecodeError>(
                out@,
            ),
        decreases items.len() - i,
    {
        proof {
            lemma_sources_view_step(items@, i as int);
            let pre = sources_view(items@.subrange(0, i as int));
            let x = source_view(items@[i as int]);
            assert(pre.push(x).subrange(0, pre.len() as int) =~= pre);
        }
        match byte_from(&items[i]) {
            Ok(b) => out.push(b),
            Err(e) => {
                proof {
                    crate::source::lemma_sources_view_len(items@);
                    crate::source::lemma_sources_view_prefix(items@, i as int + 1);
                    lemma_bytes_of_prefix_err(sources_view(items@), i as int + 1);
                }
                return Err(e);
            },
        }
        i += 1;
    }
    proof {
        assert(items@.subrange(0, i as int) =~= items@);
    }
    Ok(out)
}

/// A 256-bit primitive from a byte run.
fn wide_from(bytes: &Vec<u8>) -> (r: Result<Primitive, DecodeError>)
    ensures
        result_view(r) == wide_of(bytes@),
{
    if bytes.len() == WIDE_LEN {
        let mut arr: [u8; 32] = [0u8; 32];
        let mut i: usize = 0;
        while i < WIDE_LEN
            invariant
                i <= WIDE_LEN,
                bytes@.len() == WIDE_LEN,
                forall|k: int| 0 <= k < i ==> arr@[k] == bytes@[k],
            decreases WIDE_LEN - i,
        {
            arr[i] = bytes[i];
            i += 1;
        }
        proof {
            assert(arr@ =~= bytes@);
        }
        Ok(Primitive::U256(arr))
    } else {
        Err(DecodeError::LengthMismatch { expected: WIDE_LEN, found: bytes.len() })
    }
}

/// A byte run as positional `U8` values.
fn byte_values(bytes: &Vec<u8>) -> (r: Vec<Value>)
    ensures
        values_view(r@) == bytes_as_values(bytes@),
{
    let mut out: Vec<Value> = Vec::new();
    let mut i: usize = 0;
    while i < bytes.len()
        invariant
            i <= bytes.len(),
            values_view(out@) == bytes_as_values(bytes@.subrange(0, i as int)),
        decreases bytes.len() - i,
    {
        let v = Value::Primitive(Primitive::U8(bytes[i]));
        proof {
            lemma_values_view_push(out@, v);
            assert(bytes_as_values(bytes@.subrange(0, i + 1)) =~= bytes_as_values(
                bytes@.subrange(0, i as int),
            ).push(value_view(v)));
        }
        out.push(v);
        i += 1;
    }
    proof {
        assert(bytes@.subrange(0, i as int) =~= bytes@);
    }
    out
}

/// Each source of a sequence read as a value.
fn values_from(items: &Vec<Source>) -> (r: Result<Vec<Value>, DecodeError>)
    ensures
        match r {
            Ok(vs) => decode_values(sources_view(items@)) == Ok::<Seq<ValueV>, DecodeError>(
                values_view(vs@),
            ),
            Err(e) => decode_values(sources_view(items@)) == Err::<Seq<ValueV>, DecodeError>(e),
        },
    decreases items, 0nat,
{
    let mut out: Vec<Value> = Vec::new();
    let mut i: usize = 0;
    while i < items.len()
        invariant
            i <= items.len(),
            decode_values(sources_view(items@.subrange(0, i as int))) == Ok::<
                Seq<ValueV>,
                DecodeError,
            >(values_view(out@)),
        decreases items.len() - i,
    {
        proof {
            lemma_sources_view_step(items@, i as int);
            let pre = sources_view(items@.subrange(0, i as int));
            let x = source_view(items@[i as int]);
            assert(pre.push(x).subrange(0, pre.len() as int) =~= pre);
        }
        match Value::deserialize(&items[i]) {
            Ok(v) => {
                proof {
                    lemma_values_view_push(out@, v);
                }
                out.push(v);
            },
            Err(e) => {
                proof {
                    crate::source::lemma_sources_view_len(items@);
                    crate::source::lemma_sources_view_prefix(items@, i as int + 1);
                    lemma_decode_values_prefix_err(sources_view(items@), i as int + 1);
                }
                return Err(e);
            },
        }
        i += 1;
    }
    proof {
        assert(items@.subrange(0, i as int) =~= items@);
    }
    Ok(out)
}

/// Each keyed source read as a named value.
fn entries_from(es: &Vec<(String, Source)>) -> (r: Result<Vec<(String, Value)>, DecodeError>)
    ensures
        match r {
            Ok(fs) => decode_entries(entries_view(es@)) == Ok::<
                Seq<(Seq<char>, ValueV)>,
                DecodeError,
            >(named_view(fs@)),
            Err(e) => decode_entries(entries_view(es@)) == Err::<
                Seq<(Seq<char>, ValueV)>,
                DecodeError,
            >(e),
        },
    decreases es, 0nat,
{
    let mut out: Vec<(String, Value)> = Vec::new();
    let mut i: usize = 0;
    while i < es.len()
        invariant
            i <= es.len(),
            decode_entries(entries_view(es@.subrange(0, i as int))) == Ok::<
                Seq<(Seq<char>, ValueV)>,
                DecodeError,
            >(named_view(out@)),
        decreases es.len() - i,
    {
        proof {
            lemma_entries_view_step(es@, i as int);
            let pre = entries_view(es@.subrange(0, i as int));
            let x = (es@[i as int].0@, source_view(es@[i as int].1));
            assert(pre.push(x).subrange(0, pre.len() as int) =~= pre);
        }
        let entry = &es[i];
        match Value::deserialize(&entry.1) {
            Ok(v) => {
                let f = (entry.0.clone(), v);
                proof {
                    lemma_named_view_push(out@, f);
                }
                out.push(f);
            },
            Err(e) => {
                proof {
                    crate::source::lemma_entries_view_prefix(es@, i as int + 1);
                    lemma_decode_entries_prefix_err(entries_view(es@), i as int + 1);
                }
                return Err(e);
            },
        }
        i += 1;
    }
    proof {
        assert(es@.subrange(0, i as int) =~= es@);
    }
    Ok(out)
}

impl Primitive {
    /// Builds a primitive from a source.
    ///
    /// Scalars map one for one, at the width the source reports. A byte run,
    /// or a sequence of integers that each fit a byte, must be exactly 32
    /// long and becomes `U256`; any other length fails with
    /// `LengthMismatch`, expecting 32.
    pub fn deserialize(source: &Source) -> (r: Result<Primitive, DecodeError>)
        ensures
            result_view(r) == decode_primitive(source@),
        decreases source,
    {
        match source {
            Source::Bytes(b) => wide_from(b),
            Source::Sequence(items) => match bytes_from(items) {
                Ok(b) => wide_from(&b),
                Err(e) => Err(e),
            },
            Source::Present(inner) => Primitive::deserialize(&**inner),
            Source::Fail(m) => Err(DecodeError::Source(m.clone())),
            _ => match scalar_from(source) {
                Some(p) => Ok(p),
                None => Err(DecodeError::StructuralMismatch),
            },
        }
    }
}

impl Value {
    /// Builds a value from a source.
    pub fn deserialize(source: &Source) -> (r: Result<Value, DecodeError>)
        ensures
            result_view(r) == decode_value(source@),
        decreases source, 2nat,
    {
        match source {
            Source::Present(inner) => Value::deserialize(&**inner),
            Source::Newtype(inner) => Value::deserialize(&**inner),
            Source::Bytes(_) | Source::Absent | Source::Unit | Source::Sequence(_) | Source::Entries(
                _,
            ) => match Composite::deserialize(source) {
                Ok(c) => Ok(Value::Composite(c)),
                Err(e) => Err(e),
            },
            Source::Enum(_, _) => match Variant::deserialize(source) {
                Ok(v) => Ok(Value::Variant(v)),
                Err(e) => Err(e),
            },
            Source::Fail(m) => Err(DecodeError::Source(m.clone())),
            _ => match scalar_from(source) {
                Some(p) => Ok(Value::Primitive(p)),
                None => Err(DecodeError::StructuralMismatch),
            },
        }
    }
}

impl Composite {
    /// Builds a composite from a source.
    ///
    /// A sequence becomes `Unnamed` in arrival order; a map becomes `Named`
    /// in arrival order; a byte run becomes one `U8` per byte; absent and
    /// unit nodes become an empty `Unnamed`.
    pub fn deserialize(source: &Source) -> (r: Result<Composite, DecodeError>)
        ensures
            result_view(r) == decode_composite(source@),
        decreases source, 0nat,
    {
        match source {
            Source::Bytes(b) => Ok(Composite::Unnamed(byte_values(b))),
            Source::Absent => Ok(Composite::Unnamed(Vec::new())),
            Source::Unit => Ok(Composite::Unnamed(Vec::new())),
            Source::Present(inner) => Composite::deserialize(&**inner),
            Source::Newtype(inner) => Composite::deserialize(&**inner),
            Source::Sequence(items) => match values_from(items) {
                Ok(vs) => Ok(Composite::Unnamed(vs)),
                Err(e) => Err(e),
            },
            Source::Entries(es) => match entries_from(es) {
                Ok(fs) => Ok(Composite::Named(fs)),
                Err(e) => Err(e),
            },
            Source::Fail(m) => Err(DecodeError::Source(m.clone())),
            _ => Err(DecodeError::StructuralMismatch),
        }
    }
}

impl Variant {
    /// Builds a variant from an enum case of a source. Only a case with
    /// exactly one payload value is supported; its payload is read as a
    /// composite.
    pub fn deserialize(source: &Source) -> (r: Result<Variant, DecodeError>)
        ensures
            result_view(r) == decode_variant(source@),
        decreases source, 1nat,
    {
        proof {
            if let Source::Enum(name, payload) = source {
                assert(source@ == SourceV::Enum(name@, crate::source::payload_view(*payload)));
            }
        }
        match source {
            Source::Enum(name, payload) => match payload {
                Payload::Newtype(inner) => match Composite::deserialize(&**inner) {
                    Ok(c) => Ok(Variant { name: name.clone(), values: c }),
                    Err(e) => Err(e),
                },
                _ => Err(DecodeError::UnsupportedConstruct),
            },
            Source::Fail(m) => Err(DecodeError::Source(m.clone())),
            _ => Err(DecodeError::StructuralMismatch),
        }
    }
}

} // verus!