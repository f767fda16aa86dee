use desub_value::{extract, from_value, Composite, DecodeError, Extracted, Payload, Primitive, Shape, Source, Value, Variant, Width};

fn prim(p: Primitive) -> Value {
    Value::Primitive(p)
}

fn u8_values(bytes: &[u8]) -> Vec<Value> {
    bytes.iter().map(|b| prim(Primitive::U8(*b))).collect()
}

#[test]
fn sequence_keeps_arrival_order() {
    let de = Source::Sequence(vec![Source::U8(1), Source::U8(2), Source::U8(3), Source::U8(4)]);
    let value = Value::deserialize(&de).unwrap();
    assert_eq!(value, Value::Composite(Composite::Unnamed(u8_values(&[1, 2, 3, 4]))));
    let reversed = Source::Sequence(vec![Source::U8(4), Source::U8(3), Source::U8(2), Source::U8(1)]);
    assert_ne!(Value::deserialize(&reversed).unwrap(), value);
}

#[test]
fn map_keeps_every_pair() {
    let de = Source::Entries(vec![
        ("c".to_string(), Source::I32(3)),
        ("a".to_string(), Source::I32(1)),
        ("b".to_string(), Source::I32(2)),
    ]);
    match Value::deserialize(&de).unwrap() {
        Value::Composite(Composite::Named(vals)) => {
            assert_eq!(vals.len(), 3);
            assert!(vals.contains(&("a".into(), prim(Primitive::I32(1)))));
            assert!(vals.contains(&("b".into(), prim(Primitive::I32(2)))));
            assert!(vals.contains(&("c".into(), prim(Primitive::I32(3)))));
        }
        other => panic!("expected a named composite, got {:?}", other),
    }
}

#[test]
fn duplicate_names_are_kept() {
    let de = Source::Entries(vec![("a".to_string(), Source::Bool(true)), ("a".to_string(), Source::Bool(false))]);
    assert_eq!(
        Composite::deserialize(&de),
        Ok(Composite::Named(vec![
            ("a".into(), prim(Primitive::Bool(true))),
            ("a".into(), prim(Primitive::Bool(false))),
        ]))
    );
}

#[test]
fn wide_bytes_follow_one_policy() {
    let bytes: Vec<u8> = (0u8..32).collect();
    let mut arr = [0u8; 32];
    arr.copy_from_slice(&bytes);
    assert_eq!(Primitive::deserialize(&Source::Bytes(bytes.clone())), Ok(Primitive::U256(arr)));
    assert_eq!(Value::deserialize(&Source::Bytes(bytes.clone())), Ok(Value::Composite(Composite::Unnamed(u8_values(&bytes)))));
    assert_eq!(Composite::deserialize(&Source::Bytes(bytes.clone())), Ok(Composite::Unnamed(u8_values(&bytes))));
    let seq = Source::Sequence(bytes.iter().map(|b| Source::U8(*b)).collect());
    assert_eq!(Primitive::deserialize(&seq), Ok(Primitive::U256(arr)));
    assert_eq!(Value::deserialize(&seq), Ok(Value::Composite(Composite::Unnamed(u8_values(&bytes)))));
    // An I256 loses its sign on the way through, and keeps its bytes.
    let signed = prim(Primitive::I256(arr));
    assert_eq!(Value::deserialize(&signed.to_source()), Ok(Value::Composite(Composite::Unnamed(u8_values(&bytes)))));
    assert_eq!(Primitive::deserialize(&signed.to_source()), Ok(Primitive::U256(arr)));
}

#[test]
fn variant_with_one_payload() {
    let de = Source::Enum(
        "Foo".to_string(),
        Payload::Newtype(Box::new(Source::Sequence(vec![Source::U64(123), Source::Bool(true)]))),
    );
    let expected = Variant {
        name: "Foo".into(),
        values: Composite::Unnamed(vec![prim(Primitive::U64(123)), prim(Primitive::Bool(true))]),
    };
    assert_eq!(Value::deserialize(&de), Ok(Value::Variant(expected)));
    let expected = Variant {
        name: "Foo".into(),
        values: Composite::Unnamed(vec![prim(Primitive::U64(123)), prim(Primitive::Bool(true))]),
    };
    assert_eq!(Variant::deserialize(&de), Ok(expected));
}

#[test]
fn variant_without_payload_is_unsupported() {
    let unit = Source::Enum("Foo".to_string(), Payload::Unit);
    assert_eq!(Variant::deserialize(&unit), Err(DecodeError::UnsupportedConstruct));
    let tuple = Source::Enum("Foo".to_string(), Payload::Tuple(vec![Source::U8(1), Source::U8(2)]));
    assert_eq!(Value::deserialize(&tuple), Err(DecodeError::UnsupportedConstruct));
    let record = Source::Enum("Foo".to_string(), Payload::Struct(vec![("a".to_string(), Source::U8(1))]));
    assert_eq!(Value::deserialize(&record), Err(DecodeError::UnsupportedConstruct));
}

#[test]
fn short_byte_run_is_a_length_mismatch() {
    let bytes = vec![1u8; 31];
    assert_eq!(Primitive::deserialize(&Source::Bytes(bytes.clone())), Err(DecodeError::LengthMismatch { expected: 32, found: 31 }));
    let seq = Source::Sequence(bytes.iter().map(|b| Source::U8(*b)).collect());
    assert_eq!(Primitive::deserialize(&seq), Err(DecodeError::LengthMismatch { expected: 32, found: 31 }));
    assert_eq!(Primitive::deserialize(&Source::Bytes(vec![])), Err(DecodeError::LengthMismatch { expected: 32, found: 0 }));
    assert_eq!(Primitive::deserialize(&Source::Bytes(vec![0; 33])), Err(DecodeError::LengthMismatch { expected: 32, found: 33 }));
}

#[test]
fn byte_elements_may_have_any_integer_width() {
    let mut items: Vec<Source> = (0..30).map(|_| Source::U8(7)).collect();
    items.push(Source::I64(255));
    items.push(Source::U128(0));
    let mut arr = [7u8; 32];
    arr[30] = 255;
    arr[31] = 0;
    assert_eq!(Primitive::deserialize(&Source::Sequence(items)), Ok(Primitive::U256(arr)));
    let mut bad: Vec<Source> = (0..31).map(|_| Source::U8(7)).collect();
    bad.push(Source::U16(256));
    assert_eq!(Primitive::deserialize(&Source::Sequence(bad)), Err(DecodeError::StructuralMismatch));
    let negative = vec![Source::I8(-1)];
    assert_eq!(Primitive::deserialize(&Source::Sequence(negative)), Err(DecodeError::StructuralMismatch));
}

#[test]
fn shape_mismatches() {
    assert_eq!(Variant::deserialize(&Source::Bool(true)), Err(DecodeError::StructuralMismatch));
    assert_eq!(Composite::deserialize(&Source::U32(5)), Err(DecodeError::StructuralMismatch));
    assert_eq!(Primitive::deserialize(&Source::Unit), Err(DecodeError::StructuralMismatch));
    let map = Source::Entries(vec![("a".to_string(), Source::U8(1))]);
    assert_eq!(Primitive::deserialize(&map), Err(DecodeError::StructuralMismatch));
}

#[test]
fn source_errors_pass_through() {
    let fail = || Source::Fail("bad input".to_string());
    assert_eq!(
        Value::deserialize(&Source::Sequence(vec![Source::U8(1), fail(), Source::U8(2)])),
        Err(DecodeError::Source("bad input".to_string()))
    );
    assert_eq!(Primitive::deserialize(&Source::Sequence(vec![Source::U8(1), fail()])), Err(DecodeError::Source("bad input".to_string())));
    assert_eq!(Composite::deserialize(&Source::Entries(vec![("x".to_string(), fail())])), Err(DecodeError::Source("bad input".to_string())));
    assert_eq!(Variant::deserialize(&fail()), Err(DecodeError::Source("bad input".to_string())));
    assert_eq!(extract(&fail(), &Shape::Bool), Err(DecodeError::Source("bad input".to_string())));
    // The first error wins.
    let two = Source::Sequence(vec![Source::Bool(true), Source::Fail("first".to_string()), Source::Fail("second".to_string())]);
    assert_eq!(Value::deserialize(&two), Err(DecodeError::Source("first".to_string())));
}

#[test]
fn optional_unit_and_newtype_nodes() {
    assert_eq!(Value::deserialize(&Source::Absent), Ok(Value::Composite(Composite::Unnamed(vec![]))));
    assert_eq!(Value::deserialize(&Source::Unit), Ok(Value::Composite(Composite::Unnamed(vec![]))));
    assert_eq!(Value::deserialize(&Source::Present(Box::new(Source::I16(-5)))), Ok(prim(Primitive::I16(-5))));
    assert_eq!(Value::deserialize(&Source::Newtype(Box::new(Source::Char('z')))), Ok(prim(Primitive::Char('z'))));
    assert_eq!(Primitive::deserialize(&Source::Present(Box::new(Source::U32(9)))), Ok(Primitive::U32(9)));
    assert_eq!(Primitive::deserialize(&Source::Absent), Err(DecodeError::StructuralMismatch));
    assert_eq!(Composite::deserialize(&Source::Newtype(Box::new(Source::Sequence(vec![Source::U8(3)])))), Ok(Composite::Unnamed(u8_values(&[3]))));
}

#[test]
fn widths_are_never_coerced() {
    assert_eq!(Value::deserialize(&Source::I32(7)), Ok(prim(Primitive::I32(7))));
    assert_eq!(Value::deserialize(&Source::I64(7)), Ok(prim(Primitive::I64(7))));
    assert_eq!(Value::deserialize(&Source::U16(7)), Ok(prim(Primitive::U16(7))));
    assert_ne!(Value::deserialize(&Source::U16(7)), Ok(prim(Primitive::U32(7))));
}

#[test]
fn replay_is_exact() {
    let value = Value::Variant(Variant {
        name: "Transfer".into(),
        values: Composite::Named(vec![
            ("to".into(), prim(Primitive::Str("alice".into()))),
            ("amount".into(), prim(Primitive::U128(1_000_000))),
        ]),
    });
    assert_eq!(
        value.to_source(),
        Source::Enum(
            "Transfer".to_string(),
            Payload::Newtype(Box::new(Source::Entries(vec![
                ("to".to_string(), Source::Str("alice".to_string())),
                ("amount".to_string(), Source::U128(1_000_000)),
            ])))
        )
    );
    assert_eq!(Primitive::U256([9; 32]).to_source(), Source::Bytes(vec![9; 32]));
}

#[test]
fn extraction_of_integers_checks_the_width() {
    assert_eq!(extract(&Source::U16(200), &Shape::Unsigned(Width::W8)), Ok(Extracted::Unsigned(200)));
    assert_eq!(extract(&Source::U16(300), &Shape::Unsigned(Width::W8)), Err(DecodeError::StructuralMismatch));
    assert_eq!(extract(&Source::I8(-1), &Shape::Unsigned(Width::W64)), Err(DecodeError::StructuralMismatch));
    assert_eq!(extract(&Source::I8(-1), &Shape::Signed(Width::W16)), Ok(Extracted::Signed(-1)));
    assert_eq!(extract(&Source::U64(40_000), &Shape::Signed(Width::W16)), Err(DecodeError::StructuralMismatch));
    assert_eq!(extract(&Source::U128(u128::MAX), &Shape::Signed(Width::W128)), Err(DecodeError::StructuralMismatch));
    assert_eq!(extract(&Source::U128(u128::MAX), &Shape::Unsigned(Width::W128)), Ok(Extracted::Unsigned(u128::MAX)));
    assert_eq!(extract(&Source::I128(i128::MIN), &Shape::Signed(Width::W128)), Ok(Extracted::Signed(i128::MIN)));
    assert_eq!(extract(&Source::Str("1".to_string()), &Shape::Unsigned(Width::W8)), Err(DecodeError::StructuralMismatch));
}

#[test]
fn extraction_fails_whole_on_a_missing_field() {
    let value = Value::Composite(Composite::Named(vec![("a".into(), prim(Primitive::Bool(true)))]));
    let shape = Shape::Record(vec![("a".into(), Shape::Bool), ("b".into(), Shape::Str)]);
    assert_eq!(from_value(&value, &shape), Err(DecodeError::StructuralMismatch));
    let shape = Shape::Record(vec![("a".into(), Shape::Char)]);
    assert_eq!(from_value(&value, &shape), Err(DecodeError::StructuralMismatch));
}

#[test]
fn extraction_reads_fields_by_name() {
    let value = Value::Composite(Composite::Named(vec![
        ("z".into(), prim(Primitive::Char('q'))),
        ("extra".into(), prim(Primitive::U8(1))),
        ("y".into(), prim(Primitive::Bool(false))),
        ("z".into(), prim(Primitive::Char('r'))),
    ]));
    let shape = Shape::Record(vec![("y".into(), Shape::Bool), ("z".into(), Shape::Char)]);
    assert_eq!(
        from_value(&value, &shape),
        Ok(Extracted::Record(vec![("y".into(), Extracted::Bool(false)), ("z".into(), Extracted::Char('q'))]))
    );
    let unnamed = Value::Composite(Composite::Unnamed(vec![prim(Primitive::Bool(false))]));
    assert_eq!(from_value(&unnamed, &shape), Err(DecodeError::StructuralMismatch));
}
