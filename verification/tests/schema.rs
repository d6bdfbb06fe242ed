use tracklib2::schema::{
    create_schema, data_type_from_tag, DataType, FieldDefinition, Schema, SchemaEntry,
    SchemaError, TagReading,
};

fn entry(name: &str, type_tag: &str, scale: Option<u64>) -> SchemaEntry {
    SchemaEntry { name: name.to_string(), type_tag: type_tag.to_string(), scale }
}

fn types_of(schema: &Schema) -> Vec<(String, DataType)> {
    schema.fields().iter().map(|f| (f.name().to_string(), *f.data_type())).collect()
}

#[test]
fn create_schema_reads_every_type_tag() {
    let entries = vec![
        entry("a", "i64", None),
        entry("b", "f64", Some(7)),
        entry("c", "u64", None),
        entry("d", "bool", None),
        entry("e", "string", None),
        entry("f", "bool_array", None),
        entry("g", "u64_array", None),
        entry("h", "byte_array", None),
    ];
    let schema = create_schema(&entries).expect("valid description");
    assert_eq!(
        types_of(&schema),
        vec![
            ("a".to_string(), DataType::I64),
            ("b".to_string(), DataType::F64 { scale: 7 }),
            ("c".to_string(), DataType::U64),
            ("d".to_string(), DataType::Bool),
            ("e".to_string(), DataType::String),
            ("f".to_string(), DataType::BoolArray),
            ("g".to_string(), DataType::U64Array),
            ("h".to_string(), DataType::ByteArray),
        ]
    );
}

#[test]
fn create_schema_of_nothing_is_empty() {
    let schema = create_schema(&[]).expect("valid description");
    assert!(schema.fields().is_empty());
}

#[test]
fn create_schema_ignores_scale_of_other_types() {
    let schema = create_schema(&[entry("a", "i64", Some(1000))]).expect("valid description");
    assert_eq!(types_of(&schema), vec![("a".to_string(), DataType::I64)]);
}

#[test]
fn create_schema_rejects_unknown_type_tag() {
    let entries = vec![entry("a", "i64", None), entry("b", "i32", None), entry("c", "??", None)];
    match create_schema(&entries) {
        Err(SchemaError::UnknownDataType { index, type_tag }) => {
            assert_eq!(index, 1);
            assert_eq!(type_tag, "i32");
        }
        other => panic!("unexpected outcome: {:?}", other),
    }
}

#[test]
fn create_schema_is_case_sensitive() {
    assert!(matches!(
        create_schema(&[entry("a", "I64", None)]),
        Err(SchemaError::UnknownDataType { index: 0, .. })
    ));
    assert!(matches!(
        create_schema(&[entry("a", "", None)]),
        Err(SchemaError::UnknownDataType { index: 0, .. })
    ));
}

#[test]
fn create_schema_accepts_scale_up_to_255() {
    let schema = create_schema(&[entry("a", "f64", Some(0)), entry("b", "f64", Some(255))])
        .expect("valid description");
    assert_eq!(
        types_of(&schema),
        vec![
            ("a".to_string(), DataType::F64 { scale: 0 }),
            ("b".to_string(), DataType::F64 { scale: 255 }),
        ]
    );
}

#[test]
fn create_schema_rejects_scale_out_of_range() {
    assert!(matches!(
        create_schema(&[entry("a", "f64", Some(256))]),
        Err(SchemaError::ScaleOutOfRange { index: 0, scale: 256 })
    ));
    assert!(matches!(
        create_schema(&[entry("a", "bool", None), entry("b", "f64", Some(u64::MAX))]),
        Err(SchemaError::ScaleOutOfRange { index: 1, scale: u64::MAX })
    ));
}

#[test]
fn create_schema_rejects_missing_scale() {
    assert!(matches!(
        create_schema(&[entry("a", "f64", None)]),
        Err(SchemaError::MissingScale { index: 0 })
    ));
}

#[test]
fn create_schema_rejects_duplicate_name() {
    let entries = vec![entry("a", "i64", None), entry("b", "bool", None), entry("a", "u64", None)];
    match create_schema(&entries) {
        Err(SchemaError::DuplicateFieldName { index, name }) => {
            assert_eq!(index, 2);
            assert_eq!(name, "a");
        }
        other => panic!("unexpected outcome: {:?}", other),
    }
}

#[test]
fn create_schema_reports_the_first_offending_entry() {
    let entries = vec![
        entry("a", "i64", None),
        entry("a", "nope", None),
        entry("b", "f64", None),
    ];
    // Entry 1 has an unknown tag and a duplicate name: the tag is read first.
    assert!(matches!(
        create_schema(&entries),
        Err(SchemaError::UnknownDataType { index: 1, .. })
    ));
    let entries = vec![entry("a", "f64", Some(300)), entry("b", "nope", None)];
    assert!(matches!(
        create_schema(&entries),
        Err(SchemaError::ScaleOutOfRange { index: 0, scale: 300 })
    ));
}

#[test]
fn schema_error_messages() {
    let unknown = SchemaError::UnknownDataType { index: 3, type_tag: "i32".to_string() };
    assert_eq!(unknown.message(), "Schema Data Type 'i32' unknown");
    let missing = SchemaError::MissingScale { index: 0 };
    assert_eq!(missing.message(), "Schema Data Type 'f64' needs a scale");
    let range = SchemaError::ScaleOutOfRange { index: 0, scale: 256 };
    assert_eq!(range.message(), "out of range integral type conversion attempted");
    let twice = SchemaError::DuplicateFieldName { index: 1, name: "x".to_string() };
    assert_eq!(twice.message(), "Schema Field Name 'x' used twice");
}

#[test]
fn data_type_from_tag_reads_tags() {
    assert!(matches!(
        data_type_from_tag(&"i64".to_string(), None),
        TagReading::Known(DataType::I64)
    ));
    assert!(matches!(
        data_type_from_tag(&"f64".to_string(), Some(2)),
        TagReading::Known(DataType::F64 { scale: 2 })
    ));
    assert!(matches!(data_type_from_tag(&"f64".to_string(), None), TagReading::MissingScale));
    assert!(matches!(
        data_type_from_tag(&"f64".to_string(), Some(1 << 40)),
        TagReading::ScaleOutOfRange(1099511627776)
    ));
    assert!(matches!(data_type_from_tag(&"float".to_string(), Some(2)), TagReading::Unknown));
}

#[test]
fn schema_with_fields_keeps_order() {
    let schema = Schema::with_fields(vec![
        FieldDefinition::new("z".to_string(), DataType::Bool),
        FieldDefinition::new("a".to_string(), DataType::F64 { scale: 1 }),
    ]);
    assert_eq!(
        types_of(&schema),
        vec![("z".to_string(), DataType::Bool), ("a".to_string(), DataType::F64 { scale: 1 })]
    );
}
