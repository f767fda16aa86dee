//! Partial extraction: reading a value into a typed shape whose fields are
//! either concrete (a flag, a character, text, an integer of a declared
//! width, a record) or left generic, in which case they are copied through
//! as values.
use vstd::prelude::*;

use crate::decode::{decode_value, int_of, result_view};
use crate::replay::value_source;
use crate::source::{entries_view, lemma_entries_view_step, source_view, DecodeError, Source, SourceV};
use crate::value::{Value, ValueV};

verus! {

/// The declared width of an integer field.
#[derive(Clone, Copy, Debug, PartialEq, Eq)]
pub enum Width {
    W8,
    W16,
    W32,
    W64,
    W128,
}

/// A target shape for extraction.
#[derive(Debug, PartialEq, Eq)]
pub enum Shape {
    /// Left generic: the node is built as a `Value`.
    Any,
    Bool,
    Char,
    Str,
    /// An unsigned integer of the given width.
    Unsigned(Width),
    /// A signed integer of the given width.
    Signed(Width),
    /// Named fields, each with its own shape, read from a map by name.
    Record(Vec<(String, Shape)>),
}

/// What an extraction produces, following the shape that was asked for.
#[derive(Debug, PartialEq, Eq)]
pub enum Extracted {
    Value(Value),
    Bool(bool),
    Char(char),
    Str(String),
    Unsigned(u128),
    Signed(i128),
    Record(Vec<(String, Extracted)>),
}

/// Mathematical model of a `Shape`.
pub enum ShapeV {
    Any,
    Bool,
    Char,
    Str,
    Unsigned(Width),
    Signed(Width),
    Record(Seq<(Seq<char>, ShapeV)>),
}

/// Mathematical model of an `Extracted`.
pub enum ExtractedV {
    Value(ValueV),
    Bool(bool),
    Char(char),
    Str(Seq<char>),
    Unsigned(u128),
    Signed(i128),
    Record(Seq<(Seq<char>, ExtractedV)>),
}

/// The model of a shape.
pub open spec fn shape_view(s: Shape) -> ShapeV
    decreases s,
{
    match s {
        Shape::Any => ShapeV::Any,
        Shape::Bool => ShapeV::Bool,
        Shape::Char => ShapeV::Char,
        Shape::Str => ShapeV::Str,
        Shape::Unsigned(w) => ShapeV::Unsigned(w),
        Shape::Signed(w) => ShapeV::Signed(w),
        Shape::Record(fields) => ShapeV::Record(fields_view(fields@)),
    }
}

/// The models of a record's field shapes, pair by pair.
pub open spec fn fields_view(fields: Seq<(String, Shape)>) -> Seq<(Seq<char>, ShapeV)>
    decreases fields,
{
    if fields.len() == 0 {
        Seq::empty()
    } else {
        let last = fields.len() - 1;
        fields_view(fields.subrange(0, last)).push((fields[last].0@, shape_view(fields[last].1)))
    }
}

/// The model of an extraction result.
pub open spec fn extracted_view(x: Extracted) -> ExtractedV
    decreases x,
{
    match x {
        Extracted::Value(v) => ExtractedV::Value(v@),
        Extracted::Bool(b) => ExtractedV::Bool(b),
        Extracted::Char(c) => ExtractedV::Char(c),
        Extracted::Str(t) => ExtractedV::Str(t@),
        Extracted::Unsigned(n) => ExtractedV::Unsigned(n),
        Extracted::Signed(n) => ExtractedV::Signed(n),
        Extracted::Record(fields) => ExtractedV::Record(extracted_fields_view(fields@)),
    }
}

/// The models of a record's extracted fields, pair by pair.
pub open spec fn extracted_fields_view(fields: Seq<(String, Extracted)>) -> Seq<
    (Seq<char>, ExtractedV),
>
    decreases fields,
{
    if fields.len() == 0 {
        Seq::empty()
    } else {
        let last = fields.len() - 1;
        extracted_fields_view(fields.subrange(0, last)).push(
            (fields[last].0@, extracted_view(fields[last].1)),
        )
    }
}

impl View for Shape {
    type V = ShapeV;

    open spec fn view(&self) -> ShapeV {
        shape_view(*self)
    }
}

impl View for Extracted {
    type V = ExtractedV;

    open spec fn view(&self) -> ExtractedV {
        extracted_view(*self)
    }
}

/// The largest unsigned integer of a width.
pub open spec fn umax_of(w: Width) -> int {
    match w {
        Width::W8 => u8::MAX as int,
        Width::W16 => u16::MAX as int,
        Width::W32 => u32::MAX as int,
        Width::W64 => u64::MAX as int,
        Width::W128 => u128::MAX as int,
    }
}

/// The smallest signed integer of a width.
pub open spec fn imin_of(w: Width) -> int {
    match w {
        Width::W8 => i8::MIN as int,
        Width::W16 => i16::MIN as int,
        Width::W32 => i32::MIN as int,
        Width::W64 => i64::MIN as int,
        Width::W128 => i128::MIN as int,
    }
}

/// The largest signed integer of a width.
pub open spec fn imax_of(w: Width) -> int {
    match w {
        Width::W8 => i8::MAX as int,
        Width::W16 => i16::MAX as int,
        Width::W32 => i32::MAX as int,
        Width::W64 => i64::MAX as int,
        Width::W128 => i128::MAX as int,
    }
}

/// The position of the first entry with the given key, if any.
pub open spec fn find_entry(es: Seq<(Seq<char>, SourceV)>, name: Seq<char>) -> Option<int>
    decreases es.len(),
{
    if es.len() == 0 {
        None
    } else {
        let last = es.len() - 1;
        match find_entry(es.subrange(0, last), name) {
            Some(j) => Some(j),
            None => if es[last].0 == name {
                Some(last)
            } else {
                None
            },
        }
    }
}

/// A source read into a shape.
///
/// An error that the source reports is passed through unchanged.
/// A generic field is built as a value; a flag, character or text field
/// takes the matching scalar; an integer field takes an integer of any
/// width whose number lies in the declared width's range; a record takes a
/// map and reads each of its fields, in the record's order, from the first
/// entry of that name, ignoring entries it does not name. A missing field,
/// or a node the shape cannot take, is a structural mismatch.
pub open spec fn extract_source(s: SourceV, shape: ShapeV) -> Result<ExtractedV, DecodeError>
    decreases shape,
{
    if s is Fail {
        Err(DecodeError::Source(s->Fail_0))
    } else {
        match shape {
            ShapeV::Any => match decode_value(s) {
                Ok(v) => Ok(ExtractedV::Value(v)),
                Err(e) => Err(e),
            },
            ShapeV::Bool => match s {
                SourceV::Bool(b) => Ok(ExtractedV::Bool(b)),
                _ => Err(DecodeError::StructuralMismatch),
            },
            ShapeV::Char => match s {
                SourceV::Char(c) => Ok(ExtractedV::Char(c)),
                _ => Err(DecodeError::StructuralMismatch),
            },
            ShapeV::Str => match s {
                SourceV::Str(t) => Ok(ExtractedV::Str(t)),
                _ => Err(DecodeError::StructuralMismatch),
            },
            ShapeV::Unsigned(w) => match int_of(s) {
                Some(n) => if 0 <= n <= umax_of(w) {
                    Ok(ExtractedV::Unsigned(n as u128))
                } else {
                    Err(DecodeError::StructuralMismatch)
                },
                None => Err(DecodeError::StructuralMismatch),
            },
            ShapeV::Signed(w) => match int_of(s) {
                Some(n) => if imin_of(w) <= n <= imax_of(w) {
                    Ok(ExtractedV::Signed(n as i128))
                } else {
                    Err(DecodeError::StructuralMismatch)
                },
                None => Err(DecodeError::StructuralMismatch),
            },
            ShapeV::Record(fields) => match s {
                SourceV::Entries(es) => match extract_fields(es, fields) {
                    Ok(xs) => Ok(ExtractedV::Record(xs)),
                    Err(e) => Err(e),
                },
                _ => Err(DecodeError::StructuralMismatch),
            },
        }
    }
}

/// A record's fields read from a map's entries, in the record's order; or
/// the first field's error.
pub open spec fn extract_fields(
    es: Seq<(Seq<char>, SourceV)>,
    fields: Seq<(Seq<char>, ShapeV)>,
) -> Result<Seq<(Seq<char>, ExtractedV)>, DecodeError>
    decreases fields,
{
    if fields.len() == 0 {
        Ok(Seq::empty())
    } else {
        let last = fields.len() - 1;
        match extract_fields(es, fields.subrange(0, last)) {
            Err(e) => Err(e),
            Ok(xs) => match find_entry(es, fields[last].0) {
                None => Err(DecodeError::StructuralMismatch),
                Some(j) => match extract_source(es[j].1, fields[last].1) {
                    Err(e) => Err(e),
                    Ok(x) => Ok(xs.push((fields[last].0, x))),
                },
            },
        }
    }
}

/// A value read into a shape, through the source that the value replays as.
pub open spec fn extract_value(v: ValueV, shape: ShapeV) -> Result<ExtractedV, DecodeError> {
    extract_source(value_source(v), shape)
}

/// The model of a prefix of field shapes one pair longer.
proof fn lemma_fields_view_step(fields: Seq<(String, Shape)>, i: int)
    requires
        0 <= i < fields.len(),
    ensures
        fields_view(fields.subrange(0, i + 1)) == fields_view(fields.subrange(0, i)).push(
            (fields[i].0@, shape_view(fields[i].1)),
        ),
{
    assert(fields.subrange(0, i + 1).subrange(0, i) =~= fields.subrange(0, i));
}

/// The model of a prefix of field shapes is the prefix of the model.
proof fn lemma_fields_view_prefix(fields: Seq<(String, Shape)>, i: int)
    requires
        0 <= i <= fields.len(),
    ensures
        fields_view(fields.subrange(0, i)) == fields_view(fields).subrange(0, i),
        fields_view(fields).len() == fields.len(),
    decreases fields.len() - i,
{
    lemma_fields_view_len(fields);
    lemma_fields_view_len(fields.subrange(0, i));
    if i == fields.len() {
        assert(fields.subrange(0, i) =~= fields);
        assert(fields_view(fields).subrange(0, i) =~= fields_view(fields));
    } else {
        lemma_fields_view_prefix(fields, i + 1);
        lemma_fields_view_step(fields, i);
        assert(fields_view(fields).subrange(0, i + 1).subrange(0, i) =~= fields_view(
            fields,
        ).subrange(0, i));
    }
}

/// The models of a record's field shapes keep their number.
proof fn lemma_fields_view_len(fields: Seq<(String, Shape)>)
    ensures
        fields_view(fields).len() == fields.len(),
    decreases fields.len(),
{
    if fields.len() > 0 {
        lemma_fields_view_len(fields.subrange(0, fields.len() - 1));
    }
}

/// Appending an extracted field appends its model.
proof fn lemma_extracted_fields_view_push(xs: Seq<(String, Extracted)>, x: (String, Extracted))
    ensures
        extracted_fields_view(xs.push(x)) == extracted_fields_view(xs).push(
            (x.0@, extracted_view(x.1)),
        ),
{
    assert(xs.push(x).subrange(0, xs.len() as int) =~= xs);
}

/// Once the first fields of a record have failed, the whole record fails
/// the same way.
proof fn lemma_extract_fields_prefix_err(
    es: Seq<(Seq<char>, SourceV)>,
    fields: Seq<(Seq<char>, ShapeV)>,
    i: int,
)
    requires
        0 <= i <= fields.len(),
        extract_fields(es, fields.subrange(0, i)) is Err,
    ensures
        extract_fields(es, fields) == extract_fields(es, fields.subrange(0, i)),
    decreases fields.len() - i,
{
    if i == fields.len() {
        assert(fields.subrange(0, i) =~= fields);
    } else {
        assert(fields.subrange(0, i + 1).subrange(0, i) =~= fields.subrange(0, i));
        lemma_extract_fields_prefix_err(es, fields, i + 1);
    }
}

/// A key found in a prefix of the entries is found at the same place in
/// all of them.
proof fn lemma_find_entry_prefix(es: Seq<(Seq<char>, SourceV)>, name: Seq<char>, i: int)
    requires
        0 <= i <= es.len(),
        find_entry(es.subrange(0, i), name) is Some,
    ensures
        find_entry(es, name) == find_entry(es.subrange(0, i), name),
    decreases es.len() - i,
{
    if i == es.len() {
        assert(es.subrange(0, i) =~= es);
    } else {
        assert(es.subrange(0, i + 1).subrange(0, i) =~= es.subrange(0, i));
        lemma_find_entry_prefix(es, name, i + 1);
    }
}

/// The model of one entry.
proof fn lemma_entries_view_index(es: Seq<(String, Source)>, j: int)
    requires
        0 <= j < es.len(),
    ensures
        entries_view(es).len() == es.len(),
        entries_view(es)[j] == (es[j].0@, source_view(es[j].1)),
{
    crate::source::lemma_entries_view_prefix(es, j + 1);
    crate::source::lemma_entries_view_len(es.subrange(0, j));
    lemma_entries_view_step(es, j);
    assert(entries_view(es).subrange(0, j + 1)[j] == entries_view(es)[j]);
}

/// The position of the first entry with the given key.
fn find_index(es: &Vec<(String, Source)>, name: &String) -> (r: Option<usize>)
    ensures
        match r {
            Some(j) => j < es.len() && find_entry(entries_view(es@), name@) == Some(j as int),
            None => find_entry(entries_view(es@), name@) is None,
        },
{
    let ghost full = entries_view(es@);
    proof {
        crate::source::lemma_entries_view_prefix(es@, 0);
    }
    let mut j: usize = 0;
    while j < es.len()
        invariant
            j <= es.len(),
            full == entries_view(es@),
            full.len() == es.len(),
            find_entry(full.subrange(0, j as int), name@) is None,
        decreases es.len() - j,
    {
        proof {
            lemma_entries_view_index(es@, j as int);
            assert(full.subrange(0, j + 1).subrange(0, j as int) =~= full.subrange(0, j as int));
        }
        if es[j].0 == *name {
            proof {
                lemma_find_entry_prefix(full, name@, j + 1);
            }
            return Some(j);
        }
        j += 1;
    }
    proof {
        assert(full.subrange(0, j as int) =~= full);
    }
    None
}

/// The number of an integer source node, if it is not negative.
fn unsigned_from(s: &Source) -> (r: Option<u128>)
    ensures
        match r {
            Some(n) => int_of(s@) == Some(n as int),
            None => int_of(s@) is None || int_of(s@)->0 < 0,
        },
{
    match s {
        Source::U8(n) => Some(*n as u128),
        Source::U16(n) => Some(*n as u128),
        Source::U32(n) => Some(*n as u128),
        Source::U64(n) => Some(*n as u128),
        Source::U128(n) => Some(*n),
        Source::I8(n) => if *n >= 0 {
            Some(*n as u128)
        } else {
            None
        },
        Source::I16(n) => if *n >= 0 {
            Some(*n as u128)
        } else {
            None
        },
        Source::I32(n) => if *n >= 0 {
            Some(*n as u128)
        } else {
            None
        },
        Source::I64(n) => if *n >= 0 {
            Some(*n as u128)
        } else {
            None
        },
        Source::I128(n) => if *n >= 0 {
            Some(*n as u128)
        } else {
            None
        },
        _ => None,
    }
}

/// The number of an integer source node, if it fits an `i128`.
fn signed_from(s: &Source) -> (r: Option<i128>)
    ensures
        match r {
            Some(n) => int_of(s@) == Some(n as int),
            None => int_of(s@) is None || int_of(s@)->0 > i128::MAX,
        },
{
    match s {
        Source::I8(n) => Some(*n as i128),
        Source::I16(n) => Some(*n as i128),
        Source::I32(n) => Some(*n as i128),
        Source::I64(n) => Some(*n as i128),
        Source::I128(n) => Some(*n),
        Source::U8(n) => Some(*n as i128),
        Source::U16(n) => Some(*n as i128),
        Source::U32(n) => Some(*n as i128),
        Source::U64(n) => Some(*n as i128),
        Source::U128(n) => if *n <= i128::MAX as u128 {
            Some(*n as i128)
        } else {
            None
        },
        _ => None,
    }
}

impl Width {
    /// The largest unsigned integer of this width.
    pub fn unsigned_max(self) -> (r: u128)
        ensures
            r as int == umax_of(self),
    {
        match self {
            Width::W8 => u8::MAX as u128,
            Width::W16 => u16::MAX as u128,
            Width::W32 => u32::MAX as u128,
            Width::W64 => u64::MAX as u128,
            Width::W128 => u128::MAX,
        }
    }

    /// The smallest and the largest signed integer of this width.
    pub fn signed_bounds(self) -> (r: (i128, i128))
        ensures
            r.0 as int == imin_of(self),
            r.1 as int == imax_of(self),
    {
        match self {
            Width::W8 => (i8::MIN as i128, i8::MAX as i128),
            Width::W16 => (i16::MIN as i128, i16::MAX as i128),
            Width::W32 => (i32::MIN as i128, i32::MAX as i128),
            Width::W64 => (i64::MIN as i128, i64::MAX as i128),
            Width::W128 => (i128::MIN, i128::MAX),
        }
    }
}

/// Reads a source into a shape.
pub fn extract(source: &Source, shape: &Shape) -> (r: Result<Extracted, DecodeError>)
    ensures
        result_view(r) == extract_source(source@, shape@),
    decreases shape,
{
    if let Source::Fail(m) = source {
        return Err(DecodeError::Source(m.clone()));
    }
    match shape {
        Shape::Any => match Value::deserialize(source) {
            Ok(v) => Ok(Extracted::Value(v)),
            Err(e) => Err(e),
        },
        Shape::Bool => match source {
            Source::Bool(b) => Ok(Extracted::Bool(*b)),
            _ => Err(DecodeError::StructuralMismatch),
        },
        Shape::Char => match source {
            Source::Char(c) => Ok(Extracted::Char(*c)),
            _ => Err(DecodeError::StructuralMismatch),
        },
        Shape::Str => match source {
            Source::Str(t) => Ok(Extracted::Str(t.clone())),
            _ => Err(DecodeError::StructuralMismatch),
        },
        Shape::Unsigned(w) => match unsigned_from(source) {
            Some(n) => if n <= w.unsigned_max() {
                Ok(Extracted::Unsigned(n))
            } else {
                Err(DecodeError::StructuralMismatch)
            },
            None => Err(DecodeError::StructuralMismatch),
        },
        Shape::Signed(w) => match signed_from(source) {
            Some(n) => {
                let (lo, hi) = w.signed_bounds();
                if lo <= n && n <= hi {
                    Ok(Extracted::Signed(n))
                } else {
                    Err(DecodeError::StructuralMismatch)
                }
            },
            None => Err(DecodeError::StructuralMismatch),
        },
        Shape::Record(fields) => match source {
            Source::Entries(es) => match extract_fields_from(es, fields) {
                Ok(xs) => Ok(Extracted::Record(xs)),
                Err(e) => Err(e),
            },
            _ => Err(DecodeError::StructuralMismatch),
        },
    }
}

/// Reads a record's fields from a map's entries.
fn extract_fields_from(es: &Vec<(String, Source)>, fields: &Vec<(String, Shape)>) -> (r: Result<
    Vec<(String, Extracted)>,
    DecodeError,
>)
    ensures
        match r {
            Ok(xs) => extract_fields(entries_view(es@), fields_view(fields@)) == Ok::<
                Seq<(Seq<char>, ExtractedV)>,
                DecodeError,
            >(extracted_fields_view(xs@)),
            Err(e) => extract_fields(entries_view(es@), fields_view(fields@)) == Err::<
                Seq<(Seq<char>, ExtractedV)>,
                DecodeError,
            >(e),
        },
    decreases fields,
{
    let ghost ents = entries_view(es@);
    let mut out: Vec<(String, Extracted)> = Vec::new();
    let mut i: usize = 0;
    while i < fields.len()
        invariant
            i <= fields.len(),
            ents == entries_view(es@),
            extract_fields(ents, fields_view(fields@.subrange(0, i as int))) == Ok::<
                Seq<(Seq<char>, ExtractedV)>,
                DecodeError,
            >(extracted_fields_view(out@)),
        decreases fields.len() - i,
    {
        let ghost pre = fields_view(fields@.subrange(0, i as int));
        let ghost x = (fields@[i as int].0@, shape_view(fields@[i as int].1));
        proof {
            lemma_fields_view_step(fields@, i as int);
            assert(pre.push(x).subrange(0, pre.len() as int) =~= pre);
            lemma_fields_view_prefix(fields@, i as int + 1);
        }
        let field = &fields[i];
        match find_index(es, &field.0) {
            None => {
                proof {
                    lemma_extract_fields_prefix_err(ents, fields_view(fields@), i as int + 1);
                }
                return Err(DecodeError::StructuralMismatch);
            },
            Some(j) => {
                proof {
                    lemma_entries_view_index(es@, j as int);
                }
                match extract(&es[j].1, &field.1) {
                    Ok(v) => {
                        let item = (field.0.clone(), v);
                        proof {
                            lemma_extracted_fields_view_push(out@, item);
                        }
                        out.push(item);
                    },
                    Err(e) => {
                        proof {
                            lemma_extract_fields_prefix_err(
                                ents,
                                fields_view(fields@),
                                i as int + 1,
                            );
                        }
                        return Err(e);
                    },
                }
            },
        }
        i += 1;
    }
    proof {
        assert(fields@.subrange(0, i as int) =~= fields@);
    }
    Ok(out)
}

/// Reads a value into a shape: fields left generic come out as values,
/// the others in their native form. Nothing partial is returned: the first
/// field that cannot be read fails the whole extraction.
pub fn from_value(value: &Value, shape: &Shape) -> (r: Result<Extracted, DecodeError>)
    ensures
        result_view(r) == extract_value(value@, shape@),
{
    let source = value.to_source();
    extract(&source, shape)
}

} // verus!