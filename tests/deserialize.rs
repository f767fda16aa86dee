use desub_value::{Composite, Extracted, Primitive, Shape, Source, Value, Variant, Width};
use std::collections::HashMap;

fn assert_value_isomorphic(val: Value) {
    let source = val.to_source();
    assert_eq!(Value::deserialize(&source), Ok(val));
}

fn assert_primitive_isomorphic(val: Primitive) {
    let source = val.to_source();
    assert_eq!(Primitive::deserialize(&source), Ok(val));
}

fn assert_composite_isomorphic(val: Composite) {
    let source = val.to_source();
    assert_eq!(Composite::deserialize(&source), Ok(val));
}

fn assert_variant_isomorphic(val: Variant) {
    let source = val.to_source();
    assert_eq!(Variant::deserialize(&source), Ok(val));
}

fn bytes_as_composite(bytes: Vec<u8>) -> Value {
    Value::Composite(Composite::Unnamed(bytes.into_iter().map(|b| Value::Primitive(Primitive::U8(b))).collect()))
}

fn prim(p: Primitive) -> Value {
    Value::Primitive(p)
}

#[test]
fn deserialize_primitives_isomorphic() {
    assert_value_isomorphic(prim(Primitive::U8(123)));
    assert_value_isomorphic(prim(Primitive::U16(123)));
    assert_value_isomorphic(prim(Primitive::U32(123)));
    assert_value_isomorphic(prim(Primitive::U64(123)));
    assert_value_isomorphic(prim(Primitive::U128(123)));
    assert_value_isomorphic(prim(Primitive::I8(123)));
    assert_value_isomorphic(prim(Primitive::I16(123)));
    assert_value_isomorphic(prim(Primitive::I32(123)));
    assert_value_isomorphic(prim(Primitive::I64(123)));
    assert_value_isomorphic(prim(Primitive::I128(123)));
    assert_value_isomorphic(prim(Primitive::Bool(true)));
    assert_value_isomorphic(prim(Primitive::Char('a')));
    assert_value_isomorphic(prim(Primitive::Str("Hello!".into())));

    // A 256-bit integer is a run of bytes; requested as a generic value it
    // comes back as the composite sequence of those bytes.
    assert_eq!(Value::deserialize(&prim(Primitive::I256([1; 32])).to_source()), Ok(bytes_as_composite(vec![1; 32])));
    assert_eq!(Value::deserialize(&prim(Primitive::U256([1; 32])).to_source()), Ok(bytes_as_composite(vec![1; 32])));

    // Requested as a primitive, exactly 32 bytes come back as U256.
    assert_eq!(Primitive::deserialize(&prim(Primitive::I256([1; 32])).to_source()), Ok(Primitive::U256([1; 32])));
    assert_eq!(Primitive::deserialize(&prim(Primitive::U256([1; 32])).to_source()), Ok(Primitive::U256([1; 32])));

    // Unwrapped versions also work:
    assert_primitive_isomorphic(Primitive::U8(123));
    assert_primitive_isomorphic(Primitive::U16(123));
    assert_primitive_isomorphic(Primitive::U32(123));
    assert_primitive_isomorphic(Primitive::U64(123));
    assert_primitive_isomorphic(Primitive::U128(123));
    assert_primitive_isomorphic(Primitive::U256([1; 32]));
    assert_primitive_isomorphic(Primitive::I8(123));
    assert_primitive_isomorphic(Primitive::I16(123));
    assert_primitive_isomorphic(Primitive::I32(123));
    assert_primitive_isomorphic(Primitive::I64(123));
    assert_primitive_isomorphic(Primitive::I128(123));
    assert_primitive_isomorphic(Primitive::Bool(true));
    assert_primitive_isomorphic(Primitive::Char('a'));
    assert_primitive_isomorphic(Primitive::Str("Hello!".into()));
    assert_eq!(Primitive::deserialize(&Primitive::I256([1; 32]).to_source()), Ok(Primitive::U256([1; 32])));

    // From wrapped to unwrapped:
    assert_eq!(Primitive::deserialize(&prim(Primitive::U8(123)).to_source()), Ok(Primitive::U8(123)));
    assert_eq!(Primitive::deserialize(&prim(Primitive::U16(123)).to_source()), Ok(Primitive::U16(123)));
    assert_eq!(Primitive::deserialize(&prim(Primitive::U32(123)).to_source()), Ok(Primitive::U32(123)));
    assert_eq!(Primitive::deserialize(&prim(Primitive::U64(123)).to_source()), Ok(Primitive::U64(123)));

    // Or vice versa:
    assert_eq!(Value::deserialize(&Primitive::U8(123).to_source()), Ok(prim(Primitive::U8(123))));
    assert_eq!(Value::deserialize(&Primitive::U16(123).to_source()), Ok(prim(Primitive::U16(123))));
    assert_eq!(Value::deserialize(&Primitive::U32(123).to_source()), Ok(prim(Primitive::U32(123))));
    assert_eq!(Value::deserialize(&Primitive::U64(123).to_source()), Ok(prim(Primitive::U64(123))));
}

fn unnamed_u64_bool() -> Vec<Value> {
    vec![prim(Primitive::U64(123)), prim(Primitive::Bool(true))]
}

fn named_u64_bool() -> Vec<(String, Value)> {
    vec![("a".into(), prim(Primitive::U64(123))), ("b".into(), prim(Primitive::Bool(true)))]
}

fn named_nested() -> Vec<(String, Value)> {
    vec![
        ("a".into(), prim(Primitive::U64(123))),
        (
            "b".into(),
            Value::Composite(Composite::Named(vec![
                ("c".into(), prim(Primitive::U128(123))),
                ("d".into(), prim(Primitive::Str("hell".into()))),
            ])),
        ),
    ]
}

#[test]
fn deserialize_composites_isomorphic() {
    assert_value_isomorphic(Value::Composite(Composite::Unnamed(unnamed_u64_bool())));
    assert_value_isomorphic(Value::Composite(Composite::Unnamed(vec![])));
    assert_value_isomorphic(Value::Composite(Composite::Named(named_u64_bool())));
    assert_value_isomorphic(Value::Composite(Composite::Named(named_nested())));

    // unwrapped:
    assert_composite_isomorphic(Composite::Unnamed(unnamed_u64_bool()));
    assert_composite_isomorphic(Composite::Unnamed(vec![]));
    assert_composite_isomorphic(Composite::Named(named_u64_bool()));
    assert_composite_isomorphic(Composite::Named(named_nested()));
}

#[test]
fn deserialize_variants_isomorphic() {
    assert_value_isomorphic(Value::Variant(Variant { name: "Foo".into(), values: Composite::Unnamed(unnamed_u64_bool()) }));
    assert_value_isomorphic(Value::Variant(Variant { name: "Foo".into(), values: Composite::Unnamed(vec![]) }));
    assert_value_isomorphic(Value::Variant(Variant { name: "Foo".into(), values: Composite::Named(named_u64_bool()) }));

    // unwrapped work as well:
    assert_variant_isomorphic(Variant { name: "Foo".into(), values: Composite::Unnamed(unnamed_u64_bool()) });
    assert_variant_isomorphic(Variant { name: "Foo".into(), values: Composite::Unnamed(vec![]) });
    assert_variant_isomorphic(Variant { name: "Foo".into(), values: Composite::Named(named_u64_bool()) });
}

fn u8_sequence(bytes: Vec<u8>) -> Source {
    Source::Sequence(bytes.into_iter().map(Source::U8).collect())
}

#[test]
fn sequence_to_value() {
    let de = u8_sequence(vec![1u8, 2, 3, 4]);
    let expected = vec![
        prim(Primitive::U8(1)),
        prim(Primitive::U8(2)),
        prim(Primitive::U8(3)),
        prim(Primitive::U8(4)),
    ];
    assert_eq!(Value::deserialize(&de), Ok(Value::Composite(Composite::Unnamed(expected))));
    let expected = vec![
        prim(Primitive::U8(1)),
        prim(Primitive::U8(2)),
        prim(Primitive::U8(3)),
        prim(Primitive::U8(4)),
    ];
    assert_eq!(Composite::deserialize(&de), Ok(Composite::Unnamed(expected)));
}

#[test]
fn sequence_to_primitive() {
    let de = u8_sequence(vec![1u8; 32]);
    assert_eq!(Primitive::deserialize(&de), Ok(Primitive::U256([1; 32])));
}

#[test]
fn map_to_value() {
    let mut map = HashMap::<&'static str, i32>::new();
    map.insert("a", 1i32);
    map.insert("b", 2i32);
    map.insert("c", 3i32);

    let de = Source::Entries(map.into_iter().map(|(k, v)| (k.to_string(), Source::I32(v))).collect());

    let value = Value::deserialize(&de).expect("should deserialize OK");
    if let Value::Composite(Composite::Named(vals)) = value {
        // These could come back in any order so we need to search for them:
        assert!(vals.contains(&("a".into(), prim(Primitive::I32(1)))));
        assert!(vals.contains(&("b".into(), prim(Primitive::I32(2)))));
        assert!(vals.contains(&("c".into(), prim(Primitive::I32(3)))));
        assert_eq!(vals.len(), 3);
    } else {
        panic!("Map should deserialize into Composite::Named value but we have {:?}", value);
    }
}

#[test]
fn partially_deserialize_value() {
    let value = Value::Composite(Composite::Named(vec![
        ("a".into(), prim(Primitive::U64(123))),
        (
            "b".into(),
            Value::Composite(Composite::Named(vec![
                ("c".into(), prim(Primitive::U128(123))),
                ("d".into(), prim(Primitive::Str("hell".into()))),
                ("e".into(), Value::Composite(Composite::Unnamed(vec![]))),
            ])),
        ),
    ]));

    let partial_b = Shape::Record(vec![
        ("c".into(), Shape::Unsigned(Width::W128)),
        ("d".into(), Shape::Str),
        ("e".into(), Shape::Any),
    ]);
    let partial = Shape::Record(vec![("a".into(), Shape::Any), ("b".into(), partial_b)]);

    let extracted = desub_value::from_value(&value, &partial).expect("should work");

    assert_eq!(
        extracted,
        Extracted::Record(vec![
            ("a".into(), Extracted::Value(prim(Primitive::U64(123)))),
            (
                "b".into(),
                Extracted::Record(vec![
                    ("c".into(), Extracted::Unsigned(123)),
                    ("d".into(), Extracted::Str("hell".into())),
                    ("e".into(), Extracted::Value(Value::Composite(Composite::Unnamed(vec![])))),
                ])
            ),
        ])
    );
}
