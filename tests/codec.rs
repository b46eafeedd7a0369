use serde_tuple::annotation::{partition, Annotation, AnnotationValue};
use serde_tuple::codec::{Codec, DecodeError, DecodeFailure, DualError, GenerationError};
use serde_tuple::descriptor::{
    extract_fields, DeclaredType, Kind, RawField, RecordDefinition, ValidationError,
};
use serde_tuple::order::{get_sorted_fields, ConflictError};
use serde_tuple::value::{Entry, Value, Wire};

fn text(s: &str) -> Value {
    Value::Text(s.to_string())
}

fn flag(key: &str) -> Annotation {
    Annotation { key: key.to_string(), value: AnnotationValue::Flag }
}

fn named(key: &str, value: &str) -> Annotation {
    Annotation { key: key.to_string(), value: AnnotationValue::Text(value.to_string()) }
}

fn position(p: u64) -> Annotation {
    Annotation { key: "position".to_string(), value: AnnotationValue::Int(p) }
}

fn field(name: &str, ty: &str, kind: Kind, annotations: Vec<Annotation>) -> RawField {
    RawField {
        name: Some(name.to_string()),
        ty: DeclaredType { text: ty.to_string(), kind },
        default: None,
        annotations,
    }
}

fn record(name: &str, fields: Vec<RawField>, annotations: Vec<Annotation>) -> RecordDefinition {
    RecordDefinition { name: name.to_string(), fields, annotations }
}

fn foo(bar: Vec<Annotation>, baz: Vec<Annotation>, annotations: Vec<Annotation>) -> Codec {
    let def = record(
        "Foo",
        vec![
            field("bar", "&'a str", Kind::Text, bar),
            field("baz", "i32", Kind::Int, baz),
        ],
        annotations,
    );
    Codec::generate(&def).unwrap()
}

fn entry(key: &str, value: Value) -> Entry {
    Entry { key: key.to_string(), value }
}

#[test]
fn declaration_order_sequence_form() {
    let c = foo(vec![], vec![], vec![]);
    assert_eq!(c.order, vec![0, 1]);
    let v = vec![text("Yes"), Value::Int(22)];
    assert_eq!(c.encode(&v), Wire::Sequence(vec![text("Yes"), Value::Int(22)]));
}

#[test]
fn explicit_positions_sequence_form() {
    let c = foo(vec![position(1)], vec![position(0)], vec![]);
    assert_eq!(c.order, vec![1, 0]);
    let v = vec![text("Yes"), Value::Int(22)];
    assert_eq!(c.encode_sequence(&v), Wire::Sequence(vec![Value::Int(22), text("Yes")]));
}

#[test]
fn renamed_object_form_and_dual_decode() {
    let c = foo(
        vec![named("rename", "b-a-r"), position(1)],
        vec![position(0)],
        vec![flag("untagged")],
    );
    let v = vec![text("Yes"), Value::Int(22)];
    let object = c.encode_object(&v);
    assert_eq!(
        object,
        Wire::Object(vec![entry("b-a-r", text("Yes")), entry("baz", Value::Int(22))])
    );
    let sequence = Wire::Sequence(vec![Value::Int(22), text("Yes")]);
    assert_eq!(c.decode_dual(&object), Ok(v.clone()));
    assert_eq!(c.decode_dual(&sequence), Ok(v.clone()));
    assert_eq!(c.decode(&object), Ok(v.clone()));
    assert_eq!(c.decode(&sequence), Ok(v));
}

#[test]
fn empty_record_both_forms() {
    let c = Codec::generate(&record("Empty", vec![], vec![])).unwrap();
    let v: Vec<Value> = vec![];
    assert_eq!(c.encode_sequence(&v), Wire::Sequence(vec![]));
    assert_eq!(c.encode_object(&v), Wire::Object(vec![]));
    assert_eq!(c.decode_dual(&Wire::Sequence(vec![])), Ok(vec![]));
    assert_eq!(c.decode_dual(&Wire::Object(vec![])), Ok(vec![]));
    assert_eq!(c.decode_tuple(&Wire::Sequence(vec![])), Ok(vec![]));
}

#[test]
fn mixed_positions_conflict() {
    let def = record(
        "Foo",
        vec![
            field("bar", "String", Kind::Text, vec![position(0)]),
            field("baz", "i32", Kind::Int, vec![]),
        ],
        vec![],
    );
    assert_eq!(
        Codec::generate(&def),
        Err(GenerationError::Conflict(ConflictError::MixedPositions))
    );
}

#[test]
fn duplicate_position_conflict() {
    let def = record(
        "Foo",
        vec![
            field("bar", "String", Kind::Text, vec![position(3)]),
            field("baz", "i32", Kind::Int, vec![position(3)]),
        ],
        vec![],
    );
    assert_eq!(
        Codec::generate(&def),
        Err(GenerationError::Conflict(ConflictError::DuplicatePosition { position: 3 }))
    );
}

#[test]
fn gaps_between_positions_are_kept() {
    let def = record(
        "Foo",
        vec![
            field("a", "i32", Kind::Int, vec![position(7)]),
            field("b", "i32", Kind::Int, vec![position(2)]),
            field("c", "i32", Kind::Int, vec![position(40)]),
        ],
        vec![],
    );
    let ds = extract_fields(&def.fields).unwrap();
    assert_eq!(get_sorted_fields(&ds), Ok(vec![1, 0, 2]));
    let c = Codec::generate(&def).unwrap();
    let v = vec![Value::Int(1), Value::Int(2), Value::Int(3)];
    assert_eq!(
        c.encode(&v),
        Wire::Sequence(vec![Value::Int(2), Value::Int(1), Value::Int(3)])
    );
}

#[test]
fn skipped_field_ignores_positions_rule() {
    let def = record(
        "Foo",
        vec![
            field("a", "i32", Kind::Int, vec![position(1)]),
            field("b", "bool", Kind::Bool, vec![flag("skip")]),
            field("c", "i32", Kind::Int, vec![position(0)]),
        ],
        vec![],
    );
    let c = Codec::generate(&def).unwrap();
    assert_eq!(c.order, vec![2, 0]);
}

#[test]
fn unnamed_field_rejected() {
    let def = record(
        "Foo",
        vec![
            field("a", "i32", Kind::Int, vec![]),
            RawField {
                name: None,
                ty: DeclaredType { text: "i32".to_string(), kind: Kind::Int },
                default: None,
                annotations: vec![],
            },
        ],
        vec![],
    );
    assert_eq!(
        Codec::generate(&def),
        Err(GenerationError::Validation(ValidationError::UnnamedField { field: 1 }))
    );
}

#[test]
fn malformed_directive_rejected() {
    let def = record(
        "Foo",
        vec![field("a", "i32", Kind::Int, vec![named("other", "x"), named("position", "1")])],
        vec![],
    );
    assert_eq!(
        Codec::generate(&def),
        Err(GenerationError::Validation(ValidationError::MalformedDirective {
            owner: Some(0),
            annotation: 1
        }))
    );
    let def = record("Foo", vec![], vec![flag("rename")]);
    assert_eq!(
        Codec::generate(&def),
        Err(GenerationError::Validation(ValidationError::MalformedDirective {
            owner: None,
            annotation: 0
        }))
    );
}

#[test]
fn outer_tag_defaults_to_record_name() {
    let c = foo(vec![], vec![], vec![]);
    assert_eq!(c.name, "Foo".to_string());
    let c = foo(vec![], vec![], vec![named("rename", "Wire")]);
    assert_eq!(c.name, "Wire".to_string());
}

#[test]
fn foreign_annotations_kept_verbatim() {
    let debug_ignore = named("derivative", "Debug = \"ignore\"");
    let record_level = named("derivative", "Debug");
    let def = record(
        "OwnStruct",
        vec![
            field(
                "value1",
                "String",
                Kind::Text,
                vec![debug_ignore.clone(), flag("skip"), flag("default")],
            ),
            field("value2", "u64", Kind::Int, vec![]),
        ],
        vec![record_level.clone(), flag("deny_unknown_fields")],
    );
    let c = Codec::generate(&def).unwrap();
    assert_eq!(c.fields[0].foreign, vec![debug_ignore, flag("default")]);
    assert!(c.fields[0].skip);
    assert_eq!(c.foreign, vec![record_level]);
    assert!(c.deny_unknown_fields);
    assert!(!c.untagged);
}

#[test]
fn partition_splits_directives() {
    let annotations = vec![
        named("rename", "first"),
        named("doc", "text"),
        named("rename", "second"),
        position(4),
        flag("untagged"),
    ];
    let p = partition(&annotations).unwrap();
    assert_eq!(p.directives.rename, Some("first".to_string()));
    assert_eq!(p.directives.position, Some(4));
    assert!(p.directives.untagged);
    assert!(!p.directives.skip);
    assert!(!p.directives.deny_unknown_fields);
    assert_eq!(p.foreign, vec![named("doc", "text")]);
}

#[test]
fn sequence_round_trip() {
    let c = foo(vec![position(1)], vec![position(0)], vec![]);
    let v = vec![text("Cthulhu"), Value::Int(-42)];
    assert_eq!(c.decode_tuple(&c.encode_sequence(&v)), Ok(v));
}

#[test]
fn dual_round_trip() {
    let c = foo(vec![named("rename", "b-a-r")], vec![], vec![flag("untagged")]);
    let v = vec![text("Yes"), Value::Int(22)];
    assert_eq!(c.decode_dual(&c.encode_object(&v)), Ok(v.clone()));
    assert_eq!(c.decode_dual(&c.encode_sequence(&v)), Ok(v));
}

#[test]
fn skipped_field_semantics() {
    let def = record(
        "OwnStruct",
        vec![
            field("value1", "String", Kind::Text, vec![flag("skip")]),
            field("value2", "u64", Kind::Int, vec![]),
        ],
        vec![],
    );
    let c = Codec::generate(&def).unwrap();
    let v = vec![text("Cthulhu"), Value::Int(42)];
    assert_eq!(c.encode_sequence(&v), Wire::Sequence(vec![Value::Int(42)]));
    assert_eq!(c.encode_object(&v), Wire::Object(vec![entry("value2", Value::Int(42))]));
    assert_eq!(
        c.decode_tuple(&Wire::Sequence(vec![Value::Int(42)])),
        Ok(vec![text(""), Value::Int(42)])
    );
    assert_eq!(
        c.decode_keyed(&Wire::Object(vec![entry("value2", Value::Int(42))])),
        Ok(vec![text(""), Value::Int(42)])
    );
}

#[test]
fn arity_mismatch() {
    let c = foo(vec![], vec![], vec![]);
    assert_eq!(
        c.decode_tuple(&Wire::Sequence(vec![text("Yes")])),
        Err(DecodeError::ArityMismatch { expected: 2, found: 1 })
    );
}

#[test]
fn element_type_mismatch() {
    let c = foo(vec![position(1)], vec![position(0)], vec![]);
    assert_eq!(
        c.decode_tuple(&Wire::Sequence(vec![Value::Int(22), Value::Bool(true)])),
        Err(DecodeError::TypeMismatch { field: 0 })
    );
    assert_eq!(
        c.decode(&Wire::Sequence(vec![text("Yes"), text("22")])),
        Err(DecodeFailure::Sequence(DecodeError::TypeMismatch { field: 1 }))
    );
}

#[test]
fn object_errors() {
    let c = foo(vec![], vec![], vec![flag("deny_unknown_fields")]);
    let unknown = Wire::Object(vec![
        entry("bar", text("Yes")),
        entry("baz", Value::Int(22)),
        entry("qux", Value::Null),
    ]);
    assert_eq!(c.decode_keyed(&unknown), Err(DecodeError::UnknownField { entry: 2 }));
    let missing = Wire::Object(vec![entry("baz", Value::Int(22))]);
    assert_eq!(c.decode_keyed(&missing), Err(DecodeError::MissingField { field: 0 }));
    let wrong = Wire::Object(vec![entry("bar", text("Yes")), entry("baz", text("22"))]);
    assert_eq!(c.decode_keyed(&wrong), Err(DecodeError::TypeMismatch { field: 1 }));
    assert_eq!(
        c.decode_keyed(&Wire::Sequence(vec![])),
        Err(DecodeError::ShapeMismatch)
    );
    assert_eq!(
        c.decode_tuple(&Wire::Object(vec![])),
        Err(DecodeError::ShapeMismatch)
    );
    let lenient = foo(vec![], vec![], vec![]);
    assert_eq!(
        lenient.decode_keyed(&unknown),
        Ok(vec![text("Yes"), Value::Int(22)])
    );
}

#[test]
fn first_entry_of_a_key_wins() {
    let c = foo(vec![], vec![], vec![]);
    let w = Wire::Object(vec![
        entry("baz", Value::Int(1)),
        entry("bar", text("a")),
        entry("baz", Value::Int(2)),
    ]);
    assert_eq!(c.decode_keyed(&w), Ok(vec![text("a"), Value::Int(1)]));
}

#[test]
fn dual_decode_reports_both_failures() {
    let c = foo(vec![], vec![], vec![flag("untagged")]);
    let w = Wire::Sequence(vec![text("Yes")]);
    let both = DualError {
        object: DecodeError::ShapeMismatch,
        sequence: DecodeError::ArityMismatch { expected: 2, found: 1 },
    };
    assert_eq!(c.decode(&w), Err(DecodeFailure::Both(DualError {
        object: DecodeError::ShapeMismatch,
        sequence: DecodeError::ArityMismatch { expected: 2, found: 1 },
    })));
    assert_eq!(c.decode_dual(&w), Err(both));
}

#[test]
fn test_interop_attrs() {
    let def = record(
        "OwnStruct",
        vec![
            field(
                "value1",
                "String",
                Kind::Text,
                vec![named("#derivative", "#[derivative(Debug = \"ignore\")]")],
            ),
            field("value2", "u64", Kind::Int, vec![]),
        ],
        vec![named("#derivative", "#[derivative(Debug)]")],
    );
    let c = Codec::generate(&def).unwrap();
    let v = vec![text("Cthulhu"), Value::Int(42)];
    assert_eq!(c.encode(&v), Wire::Sequence(vec![text("Cthulhu"), Value::Int(42)]));
    assert_eq!(
        c.fields[0].foreign,
        vec![named("#derivative", "#[derivative(Debug = \"ignore\")]")]
    );
    assert_eq!(c.foreign, vec![named("#derivative", "#[derivative(Debug)]")]);
}

#[test]
fn duplicate_object_key_rejected() {
    let def = record(
        "Foo",
        vec![
            field("a", "i32", Kind::Int, vec![named("rename", "b")]),
            field("b", "i32", Kind::Int, vec![]),
        ],
        vec![flag("untagged")],
    );
    assert_eq!(
        Codec::generate(&def),
        Err(GenerationError::Validation(ValidationError::DuplicateKey { first: 0, second: 1 }))
    );
    let skipped = record(
        "Foo",
        vec![
            field("a", "i32", Kind::Int, vec![named("rename", "b"), flag("skip")]),
            field("b", "i32", Kind::Int, vec![]),
        ],
        vec![],
    );
    assert!(Codec::generate(&skipped).is_ok());
}

#[test]
fn skipped_field_takes_declared_default() {
    let mut value1 = field("value1", "String", Kind::Text, vec![flag("skip")]);
    value1.default = Some(text("unknown"));
    let def = record(
        "OwnStruct",
        vec![value1, field("value2", "u64", Kind::Int, vec![])],
        vec![flag("untagged")],
    );
    let c = Codec::generate(&def).unwrap();
    let expected = vec![text("unknown"), Value::Int(42)];
    assert_eq!(c.decode_tuple(&Wire::Sequence(vec![Value::Int(42)])), Ok(expected.clone()));
    assert_eq!(
        c.decode_dual(&Wire::Object(vec![entry("value2", Value::Int(42))])),
        Ok(expected.clone())
    );
    assert_eq!(c.decode_dual(&c.encode_object(&expected)), Ok(expected));
    assert_eq!(
        c.decode_tuple(&Wire::Sequence(vec![Value::Int(42), Value::Int(43)])),
        Err(DecodeError::ArityMismatch { expected: 1, found: 2 })
    );
}

#[test]
fn declared_default_of_wrong_kind_rejected() {
    let mut a = field("a", "i32", Kind::Int, vec![flag("skip")]);
    a.default = Some(text("zero"));
    let def = record("Foo", vec![a], vec![]);
    assert_eq!(
        Codec::generate(&def),
        Err(GenerationError::Validation(ValidationError::DefaultMismatch { field: 0 }))
    );
}

#[test]
fn skipped_field_sharing_a_position_conflicts() {
    let def = record(
        "Foo",
        vec![
            field("a", "i32", Kind::Int, vec![flag("skip"), position(0)]),
            field("b", "i32", Kind::Int, vec![position(0)]),
        ],
        vec![],
    );
    assert_eq!(
        Codec::generate(&def),
        Err(GenerationError::Conflict(ConflictError::DuplicatePosition { position: 0 }))
    );
    let ds = extract_fields(&def.fields).unwrap();
    assert_eq!(
        get_sorted_fields(&ds),
        Err(ConflictError::DuplicatePosition { position: 0 })
    );
    let apart = record(
        "Foo",
        vec![
            field("a", "i32", Kind::Int, vec![flag("skip"), position(1)]),
            field("b", "i32", Kind::Int, vec![position(0)]),
        ],
        vec![],
    );
    assert_eq!(Codec::generate(&apart).unwrap().order, vec![1]);
}
