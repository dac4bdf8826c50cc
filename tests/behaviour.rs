use facet_yaml::{
    coerce_bool, coerce_float, coerce_unsigned, from_str, is_truthy, narrow_signed,
    narrow_unsigned, node_kind, only_document, parse_document, stage_signed, stage_unsigned,
    DeError, Expected, Field, FloatSource, FloatWidth, FormatProblem, IntWidth, Node, NodeKind,
    Shape, Value,
};

fn person_shape() -> Shape {
    Shape::Struct(vec![
        Field { name: "name".to_string(), has_default: false, shape: Shape::Text },
        Field { name: "age".to_string(), has_default: false, shape: Shape::Unsigned(IntWidth::W64) },
    ])
}

#[test]
fn sequence_order_is_kept() {
    let v = from_str("[5, 3, 9, 1]", &Shape::List(Box::new(Shape::Unsigned(IntWidth::W8)))).unwrap();
    assert_eq!(
        v,
        Value::List(vec![Value::U8(5), Value::U8(3), Value::U8(9), Value::U8(1)])
    );
}

#[test]
fn struct_field_order_is_irrelevant() {
    let a = from_str("{age: 30, name: Alice}", &person_shape()).unwrap();
    let b = from_str("{name: Alice, age: 30}", &person_shape()).unwrap();
    assert_eq!(a, b);
    assert_eq!(
        a,
        Value::Record(vec![Some(Value::Text("Alice".to_string())), Some(Value::U64(30))])
    );
}

#[test]
fn empty_collections_are_present_and_empty() {
    let l = from_str("[]", &Shape::List(Box::new(Shape::Text))).unwrap();
    assert_eq!(l, Value::List(vec![]));
    let m = from_str("{}", &Shape::Dict(Box::new(Shape::Text))).unwrap();
    assert_eq!(m, Value::Dict(vec![]));
}

#[test]
fn boolean_strings() {
    for s in ["true", "Yes", "1", "TRUE", "yEs"] {
        assert!(is_truthy(s), "{}", s);
    }
    for s in ["false", "no", "0", "", "truth", "y", "2"] {
        assert!(!is_truthy(s), "{}", s);
    }
    let n = Node::Str("Yes".to_string());
    assert_eq!(coerce_bool(&n).unwrap(), Value::Bool(true));
    assert_eq!(coerce_bool(&Node::Integer(0)).unwrap(), Value::Bool(false));
    assert_eq!(coerce_bool(&Node::Integer(-3)).unwrap(), Value::Bool(true));
    assert_eq!(
        coerce_bool(&Node::Null),
        Err(DeError::Mismatch { expected: Expected::Boolean, found: NodeKind::Null })
    );
}

#[test]
fn byte_range_check() {
    let shape = Shape::Unsigned(IntWidth::W8);
    assert_eq!(
        from_str("300", &shape),
        Err(DeError::OutOfRange { value: 300, width: IntWidth::W8, signed: false })
    );
    assert_eq!(from_str("255", &shape), Ok(Value::U8(255)));
    assert_eq!(narrow_unsigned(IntWidth::W16, 65536), Err(DeError::OutOfRange {
        value: 65536,
        width: IntWidth::W16,
        signed: false
    }));
    assert_eq!(narrow_unsigned(IntWidth::W128, u64::MAX), Ok(Value::U128(u64::MAX as u128)));
    assert_eq!(narrow_signed(IntWidth::W8, -128), Ok(Value::I8(-128)));
    assert_eq!(narrow_signed(IntWidth::W8, -129), Err(DeError::OutOfRange {
        value: -129,
        width: IntWidth::W8,
        signed: true
    }));
}

#[test]
fn unknown_key_is_rejected() {
    let shape = Shape::Struct(vec![Field {
        name: "bar".to_string(),
        has_default: true,
        shape: Shape::Unsigned(IntWidth::W32),
    }]);
    assert_eq!(from_str("foo: 1", &shape), Err(DeError::UnknownField("foo".to_string())));
}

#[test]
fn document_count_must_be_one() {
    assert_eq!(
        parse_document(""),
        Err(DeError::Format(FormatProblem::DocumentCount(0)))
    );
    assert_eq!(
        from_str("--- 1\n--- 2\n", &Shape::Unsigned(IntWidth::W8)),
        Err(DeError::Format(FormatProblem::DocumentCount(2)))
    );
    // the shape is never looked at
    assert_eq!(
        from_str("--- 1\n--- 2\n", &Shape::Unsupported("Thing".to_string())),
        Err(DeError::Format(FormatProblem::DocumentCount(2)))
    );
    assert!(matches!(
        from_str("key: [unclosed", &Shape::Text),
        Err(DeError::Format(FormatProblem::Syntax(_)))
    ));
    assert_eq!(only_document(vec![7u8]), Ok(7u8));
    assert_eq!(only_document::<u8>(vec![]), Err(DeError::Format(FormatProblem::DocumentCount(0))));
}

#[test]
fn optional_null_and_payload() {
    let shape = Shape::Optional(Box::new(Shape::Signed(IntWidth::W64)));
    assert_eq!(from_str("null", &shape), Ok(Value::Optional(None)));
    assert_eq!(from_str("~", &shape), Ok(Value::Optional(None)));
    assert_eq!(from_str("-42", &shape), Ok(Value::Optional(Some(Box::new(Value::I64(-42))))));
    assert_eq!(
        from_str("[1]", &shape),
        Err(DeError::Mismatch { expected: Expected::SignedInt, found: NodeKind::Sequence })
    );
}

#[test]
fn staging_values() {
    assert_eq!(stage_unsigned(&Node::Str("+17".to_string())), Ok(17));
    assert_eq!(stage_unsigned(&Node::Boolean(true)), Ok(1));
    assert_eq!(stage_unsigned(&Node::Integer(-1)), Ok(u64::MAX));
    assert_eq!(
        stage_unsigned(&Node::Real("1.5".to_string())),
        Err(DeError::Unparseable { text: "1.5".to_string(), target: Expected::UnsignedInt })
    );
    assert_eq!(stage_signed(&Node::Str("-9".to_string())), Ok(-9));
    assert_eq!(
        stage_signed(&Node::Str("x".to_string())),
        Err(DeError::Unparseable { text: "x".to_string(), target: Expected::SignedInt })
    );
    assert_eq!(
        stage_signed(&Node::Null),
        Err(DeError::Mismatch { expected: Expected::SignedInt, found: NodeKind::Null })
    );
    assert_eq!(coerce_unsigned(IntWidth::W32, &Node::Str("4294967296".to_string())),
        Err(DeError::OutOfRange { value: 4294967296, width: IntWidth::W32, signed: false }));
}

#[test]
fn float_sources() {
    assert_eq!(
        from_str("2.5", &Shape::Float(FloatWidth::W32)),
        Ok(Value::Float(FloatWidth::W32, FloatSource::Text("2.5".to_string())))
    );
    assert_eq!(
        coerce_float(FloatWidth::W64, &Node::Integer(3)),
        Ok(Value::Float(FloatWidth::W64, FloatSource::Integer(3)))
    );
    assert_eq!(
        coerce_float(FloatWidth::W64, &Node::Boolean(true)),
        Err(DeError::Mismatch { expected: Expected::Float, found: NodeKind::Boolean })
    );
}

#[test]
fn missing_and_defaulted_fields() {
    let shape = Shape::Struct(vec![
        Field { name: "a".to_string(), has_default: false, shape: Shape::Bool },
        Field { name: "b".to_string(), has_default: true, shape: Shape::Bool },
        Field { name: "c".to_string(), has_default: false, shape: Shape::Text },
    ]);
    assert_eq!(
        from_str("a: yes\nc: hi", &shape),
        Ok(Value::Record(vec![Some(Value::Bool(true)), None, Some(Value::Text("hi".to_string()))]))
    );
    assert_eq!(from_str("b: no", &shape), Err(DeError::MissingField("a".to_string())));
    assert_eq!(
        from_str("[1]", &shape),
        Err(DeError::Mismatch { expected: Expected::Mapping, found: NodeKind::Sequence })
    );
    assert_eq!(
        from_str("1: x", &shape),
        Err(DeError::Mismatch { expected: Expected::StringKey, found: NodeKind::Integer })
    );
}

#[test]
fn maps_transparent_and_unsupported() {
    let shape = Shape::Dict(Box::new(Shape::Transparent(Box::new(Shape::Signed(IntWidth::W16)))));
    assert_eq!(
        from_str("x: 1\ny: -2", &shape),
        Ok(Value::Dict(vec![
            ("x".to_string(), Value::Wrapped(Box::new(Value::I16(1)))),
            ("y".to_string(), Value::Wrapped(Box::new(Value::I16(-2)))),
        ]))
    );
    assert_eq!(
        from_str("1", &Shape::Unsupported("Thing".to_string())),
        Err(DeError::Unsupported("Thing".to_string()))
    );
    assert_eq!(from_str("abc", &Shape::Parseable), Ok(Value::Parsed("abc".to_string())));
    assert_eq!(
        from_str("12", &Shape::Text),
        Err(DeError::Mismatch { expected: Expected::Text, found: NodeKind::Integer })
    );
}

#[test]
fn node_kinds_and_labels() {
    assert_eq!(node_kind(&Node::Real("1.0".to_string())), NodeKind::Real);
    assert_eq!(NodeKind::Mapping.label(), "hash/map");
    assert_eq!(NodeKind::Real.label(), "real number");
    let root = parse_document("- a\n- 2\n- 1.5\n- true\n- ~\n- {k: v}").unwrap();
    match root {
        Node::Sequence(items) => {
            let kinds: Vec<NodeKind> = items.iter().map(node_kind).collect();
            assert_eq!(kinds, vec![
                NodeKind::Str,
                NodeKind::Integer,
                NodeKind::Real,
                NodeKind::Boolean,
                NodeKind::Null,
                NodeKind::Mapping
            ]);
        }
        other => panic!("not a sequence: {:?}", other),
    }
}

#[test]
fn decimal_text_edges() {
    let u = |t: &str| stage_unsigned(&Node::Str(t.to_string()));
    let i = |t: &str| stage_signed(&Node::Str(t.to_string()));
    assert_eq!(u("18446744073709551615"), Ok(u64::MAX));
    assert!(u("18446744073709551616").is_err());
    assert_eq!(u("007"), Ok(7));
    assert!(u("").is_err());
    assert!(u("+").is_err());
    assert!(u("-0").is_err());
    assert!(u(" 1").is_err());
    assert_eq!(i("-9223372036854775808"), Ok(i64::MIN));
    assert!(i("-9223372036854775809").is_err());
    assert_eq!(i("9223372036854775807"), Ok(i64::MAX));
    assert!(i("9223372036854775808").is_err());
    assert_eq!(i("-0"), Ok(0));
    assert_eq!(i("+12"), Ok(12));
    assert!(i("+-1").is_err());
    assert!(i("-+1").is_err());
    assert!(i("-").is_err());
}

#[test]
fn any_field_order_gives_the_same_record() {
    let shape = Shape::Struct(vec![
        Field { name: "x".to_string(), has_default: false, shape: Shape::Signed(IntWidth::W32) },
        Field { name: "y".to_string(), has_default: false, shape: Shape::Bool },
        Field { name: "z".to_string(), has_default: true, shape: Shape::Text },
    ]);
    let expected = || {
        Value::Record(vec![
            Some(Value::I32(-4)),
            Some(Value::Bool(false)),
            Some(Value::Text("q".to_string())),
        ])
    };
    for text in ["{x: -4, y: no, z: q}", "{z: q, x: -4, y: no}", "{y: no, z: q, x: -4}"] {
        assert_eq!(from_str(text, &shape), Ok(expected()), "{}", text);
    }
    assert_eq!(
        from_str("{x: 1, y: true, w: 2, z: q}", &shape),
        Err(DeError::UnknownField("w".to_string()))
    );
}

#[test]
fn single_document_is_the_one_translated() {
    assert_eq!(parse_document("--- 5\n"), Ok(Node::Integer(5)));
    assert_eq!(from_str("--- 5\n", &Shape::Unsigned(IntWidth::W16)), Ok(Value::U16(5)));
}
