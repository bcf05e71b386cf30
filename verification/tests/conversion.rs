use row_de::{from_row, ConvertError, FieldKind, Primitive, Record, Row, Shape, Value};

fn foo_shape() -> Shape {
    let mut shape = Shape::new();
    assert!(shape.declare("bar".to_string(), FieldKind::Text));
    assert!(shape.declare("baz".to_string(), FieldKind::Integer));
    assert!(shape.declare("baf".to_string(), FieldKind::Float));
    assert!(shape.declare("bab".to_string(), FieldKind::Bytes));
    assert!(shape.declare("ban".to_string(), FieldKind::Unit));
    shape
}

fn foo_row() -> Row {
    let mut row = Row::new();
    row.insert(
        "bar".to_string(),
        Value::Text {
            value: "foo".into(),
        },
    );
    row.insert("baz".to_string(), Value::Integer { value: 42 });
    row.insert(
        "baf".to_string(),
        Value::Float {
            bits: 42.0f64.to_bits(),
        },
    );
    row.insert(
        "bab".to_string(),
        Value::Blob {
            value: vec![6u8; 128],
        },
    );
    row.insert("ban".to_string(), Value::Null);
    row
}

#[test]
fn smoke() {
    let mut row = Row::new();
    row.insert(
        "bar".to_string(),
        Value::Text {
            value: "foo".into(),
        },
    );
    row.insert("baz".to_string(), Value::Integer { value: 42 });
    row.insert(
        "baf".to_string(),
        Value::Float {
            bits: 42.0f64.to_bits(),
        },
    );
    row.insert(
        "bab".to_string(),
        Value::Blob {
            value: vec![6u8; 128],
        },
    );
    row.insert("ban".to_string(), Value::Null);

    from_row(&row, &foo_shape()).unwrap();
}

#[test]
fn smoke_record_holds_every_field() {
    let record = from_row(&foo_row(), &foo_shape()).unwrap();
    assert_eq!(record.len(), 5);
    assert_eq!(record.field(0), &Primitive::Text("foo".to_string()));
    assert_eq!(record.field(1), &Primitive::Integer(42));
    match record.field(2) {
        Primitive::Float(bits) => assert_eq!(f64::from_bits(*bits), 42.0),
        other => panic!("not a float: {:?}", other),
    }
    match record.field(3) {
        Primitive::Bytes(bytes) => {
            assert_eq!(bytes.len(), 128);
            assert!(bytes.iter().all(|b| *b == 6));
        }
        other => panic!("not bytes: {:?}", other),
    }
    assert_eq!(record.field(4), &Primitive::Unit);
}

fn single(key: &str, value: Value, kind: FieldKind) -> Result<Record, ConvertError> {
    let mut row = Row::new();
    row.insert(key.to_string(), value);
    let mut shape = Shape::new();
    assert!(shape.declare(key.to_string(), kind));
    from_row(&row, &shape)
}

#[test]
fn text_cell_fills_string_field() {
    let record = single(
        "name",
        Value::Text {
            value: "héllo wörld".to_string(),
        },
        FieldKind::Text,
    )
    .unwrap();
    assert_eq!(record.len(), 1);
    assert_eq!(record.field(0), &Primitive::Text("héllo wörld".to_string()));
}

#[test]
fn empty_text_cell_fills_string_field() {
    let record = single(
        "name",
        Value::Text {
            value: String::new(),
        },
        FieldKind::Text,
    )
    .unwrap();
    assert_eq!(record.field(0), &Primitive::Text(String::new()));
}

#[test]
fn integer_cell_fills_integer_field() {
    for stored in [0i64, 42, -1, i64::MIN, i64::MAX] {
        let record = single("n", Value::Integer { value: stored }, FieldKind::Integer).unwrap();
        assert_eq!(record.field(0), &Primitive::Integer(stored));
    }
}

#[test]
fn float_cell_fills_float_field_bit_for_bit() {
    for stored in [42.0f64, -0.0, 0.1, f64::MAX, f64::INFINITY, f64::NAN] {
        let record = single(
            "x",
            Value::Float {
                bits: stored.to_bits(),
            },
            FieldKind::Float,
        )
        .unwrap();
        assert_eq!(record.field(0), &Primitive::Float(stored.to_bits()));
    }
}

#[test]
fn blob_cell_fills_byte_field_elementwise() {
    let blob: Vec<u8> = (0..=255u8).collect();
    let record = single(
        "b",
        Value::Blob {
            value: blob.clone(),
        },
        FieldKind::Bytes,
    )
    .unwrap();
    match record.field(0) {
        Primitive::Bytes(bytes) => {
            assert_eq!(bytes.len(), 256);
            for i in 0..256 {
                assert_eq!(bytes[i], blob[i]);
            }
        }
        other => panic!("not bytes: {:?}", other),
    }
}

#[test]
fn empty_blob_fills_byte_field() {
    let record = single("b", Value::Blob { value: Vec::new() }, FieldKind::Bytes).unwrap();
    assert_eq!(record.field(0), &Primitive::Bytes(Vec::new()));
}

#[test]
fn null_cell_fills_unit_field() {
    let record = single("u", Value::Null, FieldKind::Unit).unwrap();
    assert_eq!(record.field(0), &Primitive::Unit);
}

#[test]
fn key_order_does_not_change_the_record() {
    let forward = foo_row();
    let mut backward = Row::new();
    backward.insert("ban".to_string(), Value::Null);
    backward.insert(
        "bab".to_string(),
        Value::Blob {
            value: vec![6u8; 128],
        },
    );
    backward.insert(
        "baf".to_string(),
        Value::Float {
            bits: 42.0f64.to_bits(),
        },
    );
    backward.insert("baz".to_string(), Value::Integer { value: 42 });
    backward.insert(
        "bar".to_string(),
        Value::Text {
            value: "foo".into(),
        },
    );
    assert_ne!(forward.key_at(0), backward.key_at(0));
    let shape = foo_shape();
    assert_eq!(
        from_row(&forward, &shape).unwrap(),
        from_row(&backward, &shape).unwrap()
    );
}

#[test]
fn record_follows_declared_order_not_row_order() {
    let mut row = Row::new();
    row.insert("second".to_string(), Value::Integer { value: 2 });
    row.insert("first".to_string(), Value::Integer { value: 1 });
    let mut shape = Shape::new();
    assert!(shape.declare("first".to_string(), FieldKind::Integer));
    assert!(shape.declare("second".to_string(), FieldKind::Integer));
    let record = from_row(&row, &shape).unwrap();
    assert_eq!(record.field(0), &Primitive::Integer(1));
    assert_eq!(record.field(1), &Primitive::Integer(2));
}

#[test]
fn missing_key_is_a_missing_field_error() {
    let mut row = Row::new();
    row.insert(
        "bar".to_string(),
        Value::Text {
            value: "foo".into(),
        },
    );
    let result = from_row(&row, &foo_shape());
    assert_eq!(
        result,
        Err(ConvertError::MissingField {
            field: "baz".to_string()
        })
    );
}

#[test]
fn first_missing_field_in_declared_order_is_named() {
    let mut row = Row::new();
    row.insert("ban".to_string(), Value::Null);
    row.insert("baz".to_string(), Value::Integer { value: 42 });
    let result = from_row(&row, &foo_shape());
    assert_eq!(
        result,
        Err(ConvertError::MissingField {
            field: "bar".to_string()
        })
    );
}

#[test]
fn empty_row_lacks_every_field() {
    let result = from_row(&Row::new(), &foo_shape());
    assert_eq!(
        result,
        Err(ConvertError::MissingField {
            field: "bar".to_string()
        })
    );
}

#[test]
fn empty_shape_yields_empty_record() {
    let record = from_row(&Row::new(), &Shape::new()).unwrap();
    assert_eq!(record.len(), 0);
    let record = from_row(&foo_row(), &Shape::new()).unwrap();
    assert_eq!(record.len(), 0);
}

#[test]
fn extra_keys_are_passed_over() {
    let mut row = foo_row();
    row.insert("extra".to_string(), Value::Integer { value: 7 });
    row.insert(
        "more".to_string(),
        Value::Text {
            value: "x".to_string(),
        },
    );
    let record = from_row(&row, &foo_shape()).unwrap();
    assert_eq!(record, from_row(&foo_row(), &foo_shape()).unwrap());
}

#[test]
fn wrong_kind_is_an_invalid_type_error() {
    let result = single(
        "n",
        Value::Text {
            value: "42".to_string(),
        },
        FieldKind::Integer,
    );
    assert_eq!(
        result,
        Err(ConvertError::InvalidType {
            field: "n".to_string(),
            expected: FieldKind::Integer,
            found: FieldKind::Text,
        })
    );
}

#[test]
fn integer_is_not_coerced_into_float() {
    let result = single("x", Value::Integer { value: 1 }, FieldKind::Float);
    assert_eq!(
        result,
        Err(ConvertError::InvalidType {
            field: "x".to_string(),
            expected: FieldKind::Float,
            found: FieldKind::Integer,
        })
    );
}

#[test]
fn first_failing_entry_in_row_order_decides() {
    let mut shape = Shape::new();
    assert!(shape.declare("a".to_string(), FieldKind::Integer));
    assert!(shape.declare("b".to_string(), FieldKind::Integer));
    let mut row = Row::new();
    row.insert("b".to_string(), Value::Null);
    row.insert(
        "a".to_string(),
        Value::Text {
            value: "x".to_string(),
        },
    );
    assert_eq!(
        from_row(&row, &shape),
        Err(ConvertError::InvalidType {
            field: "b".to_string(),
            expected: FieldKind::Integer,
            found: FieldKind::Unit,
        })
    );
}

#[test]
fn failing_entry_is_reported_before_a_missing_field() {
    let mut shape = Shape::new();
    assert!(shape.declare("a".to_string(), FieldKind::Integer));
    assert!(shape.declare("b".to_string(), FieldKind::Integer));
    let mut row = Row::new();
    row.insert("b".to_string(), Value::Null);
    assert_eq!(
        from_row(&row, &shape),
        Err(ConvertError::InvalidType {
            field: "b".to_string(),
            expected: FieldKind::Integer,
            found: FieldKind::Unit,
        })
    );
}

#[test]
fn unsupported_cell_fails_the_conversion() {
    let result = single("o", Value::Other, FieldKind::Unit);
    assert_eq!(result, Err(ConvertError::UnsupportedValue));
}

#[test]
fn unsupported_cell_under_an_extra_key_fails_too() {
    let mut row = foo_row();
    row.insert("extra".to_string(), Value::Other);
    assert_eq!(
        from_row(&row, &foo_shape()),
        Err(ConvertError::UnsupportedValue)
    );
}
