use facet_yaml::{from_str, Field, IntWidth, Shape, Value};

fn person_shape() -> Shape {
    Shape::Struct(vec![
        Field { name: "name".to_string(), has_default: false, shape: Shape::Text },
        Field { name: "age".to_string(), has_default: false, shape: Shape::Unsigned(IntWidth::W64) },
    ])
}

fn person(name: &str, age: u64) -> Value {
    Value::Record(vec![Some(Value::Text(name.to_string())), Some(Value::U64(age))])
}

fn list_of(shape: Shape) -> Shape {
    Shape::List(Box::new(shape))
}

fn arc_slice_of(shape: Shape) -> Shape {
    Shape::Pointer(Box::new(Shape::Slice(Box::new(shape))))
}

fn items(v: &Value) -> &Vec<Value> {
    match v {
        Value::Pointer(inner) => items(inner),
        Value::List(items) => items,
        other => panic!("not a list: {:?}", other),
    }
}

#[test]
fn test_deserialize_primitive_list() {
    let yaml = r#"
        - 1
        - 2
        - 3
        - 4
        - 5
    "#;

    let numbers = from_str(yaml, &list_of(Shape::Unsigned(IntWidth::W64))).unwrap();
    assert_eq!(
        numbers,
        Value::List(vec![Value::U64(1), Value::U64(2), Value::U64(3), Value::U64(4), Value::U64(5)])
    );
}

#[test]
fn test_deserialize_struct_list() {
    let yaml = r#"
        - name: Alice
          age: 30
        - name: Bob
          age: 25
        - name: Charlie
          age: 35
    "#;

    let people = from_str(yaml, &list_of(person_shape())).unwrap();
    assert_eq!(
        people,
        Value::List(vec![person("Alice", 30), person("Bob", 25), person("Charlie", 35)])
    );
}

#[test]
fn test_deserialize_empty_list() {
    let yaml = r#"[]"#;

    let empty_list = from_str(yaml, &list_of(Shape::Unsigned(IntWidth::W64))).unwrap();
    assert_eq!(empty_list, Value::List(Vec::new()));
}

#[test]
fn test_deserialize_nested_lists() {
    let yaml = r#"
        -
          - 1
          - 2
        -
          - 3
          - 4
    "#;

    let nested = from_str(yaml, &list_of(list_of(Shape::Unsigned(IntWidth::W64)))).unwrap();
    assert_eq!(
        nested,
        Value::List(vec![
            Value::List(vec![Value::U64(1), Value::U64(2)]),
            Value::List(vec![Value::U64(3), Value::U64(4)]),
        ])
    );
}

#[test]
fn test_deserialize_arc_slice_i32() {
    let yaml = r#"[1, 2, 3, 4, 5]"#;

    let arc_slice = from_str(yaml, &arc_slice_of(Shape::Signed(IntWidth::W32))).unwrap();
    assert_eq!(
        items(&arc_slice),
        &vec![Value::I32(1), Value::I32(2), Value::I32(3), Value::I32(4), Value::I32(5)]
    );
}

#[test]
fn test_deserialize_arc_slice_string() {
    let yaml = r#"["hello", "world", "test"]"#;

    let arc_slice = from_str(yaml, &arc_slice_of(Shape::Text)).unwrap();
    let arc_slice = items(&arc_slice);
    assert_eq!(arc_slice.len(), 3);
    assert_eq!(arc_slice[0], Value::Text("hello".to_string()));
    assert_eq!(arc_slice[1], Value::Text("world".to_string()));
    assert_eq!(arc_slice[2], Value::Text("test".to_string()));
}

#[test]
fn test_deserialize_arc_slice_empty() {
    let yaml = r#"[]"#;

    let arc_slice = from_str(yaml, &arc_slice_of(Shape::Signed(IntWidth::W32))).unwrap();
    assert!(items(&arc_slice).is_empty());
}

#[test]
fn test_deserialize_arc_slice_struct() {
    let yaml = r#"
        - name: Alice
          age: 30
        - name: Bob
          age: 25
    "#;

    let people = from_str(yaml, &arc_slice_of(person_shape())).unwrap();
    let people = items(&people);
    assert_eq!(people.len(), 2);
    assert_eq!(people[0], person("Alice", 30));
    assert_eq!(people[1], person("Bob", 25));
}
