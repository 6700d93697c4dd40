use commoncrawl::downcast::{DowncastError, ErrorDetail};
use commoncrawl::schema::{Field, Schema};
use commoncrawl::value::{DictEntry, GroupField, Kind, Value};

fn field(name: &str, schema: Schema) -> Field {
    Field { name: name.to_string(), source_name: None, schema }
}

fn entry(name: &str, value: Value) -> GroupField {
    GroupField { name: name.to_string(), value }
}

fn sample_group() -> Value {
    Value::Group(vec![
        entry("a", Value::I32(7)),
        entry("b", Value::I64(9)),
        entry("c", Value::Text("hi".to_string())),
    ])
}

#[test]
fn projection_subset() {
    let target = Schema::Record(vec![field("b", Schema::I64)]);
    let got = sample_group().downcast(&target).unwrap();
    let want = Value::Group(vec![entry("b", Value::I64(9))]);
    assert_eq!(format!("{:?}", got), format!("{:?}", want));
}

#[test]
fn projection_empty_struct() {
    let target = Schema::Record(vec![]);
    let got = sample_group().downcast(&target).unwrap();
    let want = Value::Group(vec![]);
    assert_eq!(format!("{:?}", got), format!("{:?}", want));
}

#[test]
fn missing_field_errors() {
    let target = Schema::Record(vec![field("d", Schema::I32)]);
    let err = sample_group().downcast(&target).unwrap_err();
    assert_eq!(
        err,
        DowncastError {
            path: vec!["d".to_string()],
            detail: ErrorDetail::Missing { field: "d".to_string() },
        }
    );
}

#[test]
fn missing_optional_field_is_empty() {
    let target = Schema::Record(vec![field("d", Schema::Opt(Box::new(Schema::I32)))]);
    let got = sample_group().downcast(&target).unwrap();
    let want = Value::Group(vec![entry("d", Value::Opt(None))]);
    assert_eq!(format!("{:?}", got), format!("{:?}", want));
}

#[test]
fn rename_matches_source_name() {
    let source = Value::Group(vec![entry("ID", Value::I64(42))]);
    let target = Schema::Record(vec![Field {
        name: "id".to_string(),
        source_name: Some("ID".to_string()),
        schema: Schema::I64,
    }]);
    let got = source.downcast(&target).unwrap();
    let want = Value::Group(vec![entry("id", Value::I64(42))]);
    assert_eq!(format!("{:?}", got), format!("{:?}", want));
}

fn nested_source(leaf: Value) -> Value {
    Value::List(vec![Value::Dict(vec![
        DictEntry {
            key: Value::Text("k".to_string()),
            value: Value::Opt(Some(Box::new(leaf))),
        },
        DictEntry { key: Value::Text("j".to_string()), value: Value::Opt(None) },
    ])])
}

fn nested_target() -> Schema {
    Schema::List(Box::new(Schema::Dict(
        Box::new(Schema::Text),
        Box::new(Schema::Opt(Box::new(Schema::I32))),
    )))
}

#[test]
fn nested_container_downcast() {
    let got = nested_source(Value::I32(5)).downcast(&nested_target()).unwrap();
    let want = nested_source(Value::I32(5));
    assert_eq!(format!("{:?}", got), format!("{:?}", want));
}

#[test]
fn nested_leaf_mismatch_errors() {
    let err = nested_source(Value::I64(5)).downcast(&nested_target()).unwrap_err();
    assert_eq!(
        err.detail,
        ErrorDetail::Mismatch { expected: Kind::I32, actual: Kind::I64 }
    );
}

#[test]
fn tuple_matches_by_position() {
    let source = Value::Group(vec![entry("x", Value::I32(1)), entry("y", Value::Bool(true))]);
    let target = Schema::Tuple(vec![Schema::I32, Schema::Bool]);
    let got = source.downcast(&target).unwrap();
    let want = Value::Group(vec![entry("x", Value::I32(1)), entry("y", Value::Bool(true))]);
    assert_eq!(format!("{:?}", got), format!("{:?}", want));
}

#[test]
fn tuple_arity_mismatch() {
    let source = Value::Group(vec![entry("x", Value::I32(1)), entry("y", Value::Bool(true))]);
    let target = Schema::Tuple(vec![Schema::I32, Schema::Bool, Schema::I64]);
    let err = source.downcast(&target).unwrap_err();
    assert_eq!(err.detail, ErrorDetail::Arity { expected: 3, actual: 2 });
}

#[test]
fn primitive_requires_exact_variant() {
    let err = Value::I32(5).downcast(&Schema::I64).unwrap_err();
    assert_eq!(
        err,
        DowncastError {
            path: vec![],
            detail: ErrorDetail::Mismatch { expected: Kind::I64, actual: Kind::I32 },
        }
    );
}

#[test]
fn downcast_is_repeatable() {
    let target = Schema::Record(vec![field("a", Schema::I32)]);
    let first = sample_group().downcast(&target).unwrap();
    let second = sample_group().downcast(&target).unwrap();
    assert_eq!(format!("{:?}", first), format!("{:?}", second));
}

#[test]
fn nested_error_names_field_path() {
    let source = Value::Group(vec![entry("outer", Value::Group(vec![entry("inner", Value::Bool(false))]))]);
    let target = Schema::Record(vec![field(
        "outer",
        Schema::Record(vec![field("inner", Schema::I32)]),
    )]);
    let err = source.downcast(&target).unwrap_err();
    assert_eq!(err.path, vec!["outer".to_string(), "inner".to_string()]);
    assert_eq!(err.detail, ErrorDetail::Mismatch { expected: Kind::I32, actual: Kind::Bool });
}
