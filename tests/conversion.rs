use pgde::value::{default_scalar_value, default_value, extract_field};
use pgde::{
    BaseType, Cell, ConsumeError, FieldDescriptor, FieldType, FieldValue, Record, Row,
    RowConsumer, Scalar, SchemaError, Shape,
};

fn plain(base: BaseType) -> FieldType {
    FieldType { base, shape: Shape::Plain }
}

fn field(name: &str, ty: FieldType) -> FieldDescriptor {
    FieldDescriptor { name: name.to_string(), ty }
}

fn text(s: &str) -> Cell {
    Cell::Value(Scalar::Text(s.to_string()))
}

fn int_cell(v: i32) -> Cell {
    Cell::Value(Scalar::Int(v))
}

fn foo() -> RowConsumer {
    RowConsumer::new(
        "Foo".to_string(),
        vec![
            field("id", plain(BaseType::Int)),
            field("name", plain(BaseType::Text)),
            field("flag", plain(BaseType::Bool)),
        ],
    )
    .unwrap()
}

fn row(cells: Vec<Cell>) -> Row {
    Row { cells }
}

fn msg(field: &str) -> String {
    format!("Conversion error occurred for field \"{}\" on class \"Foo\"", field)
}

#[test]
fn clean_row_converts_fully() {
    let r = foo().from_row(row(vec![int_cell(7), text("x"), Cell::Value(Scalar::Bool(true))]));
    assert_eq!(
        r,
        Ok(Record {
            values: vec![
                FieldValue::Plain(Scalar::Int(7)),
                FieldValue::Plain(Scalar::Text("x".to_string())),
                FieldValue::Plain(Scalar::Bool(true)),
            ]
        })
    );
}

#[test]
fn null_field_takes_default_with_one_diagnostic() {
    let r = foo().from_row(row(vec![
        Cell::Null { base: BaseType::Int, array: false },
        text("x"),
        Cell::Value(Scalar::Bool(true)),
    ]));
    let expected = Record {
        values: vec![
            FieldValue::Plain(Scalar::Int(0)),
            FieldValue::Plain(Scalar::Text("x".to_string())),
            FieldValue::Plain(Scalar::Bool(true)),
        ],
    };
    assert_eq!(r, Err((expected, vec![msg("id")])));
}

#[test]
fn mismatched_field_takes_default_with_one_diagnostic() {
    let r = foo().from_row(row(vec![int_cell(3), int_cell(4), Cell::Value(Scalar::Bool(false))]));
    let expected = Record {
        values: vec![
            FieldValue::Plain(Scalar::Int(3)),
            FieldValue::Plain(Scalar::Text(String::new())),
            FieldValue::Plain(Scalar::Bool(false)),
        ],
    };
    assert_eq!(r, Err((expected, vec![msg("name")])));
}

#[test]
fn missing_position_takes_default_with_one_diagnostic() {
    let r = foo().from_row(row(vec![int_cell(3), text("y")]));
    let expected = Record {
        values: vec![
            FieldValue::Plain(Scalar::Int(3)),
            FieldValue::Plain(Scalar::Text("y".to_string())),
            FieldValue::Plain(Scalar::Bool(false)),
        ],
    };
    assert_eq!(r, Err((expected, vec![msg("flag")])));
}

#[test]
fn every_field_failing_gives_one_diagnostic_each_in_order() {
    let r = foo().from_row(row(vec![Cell::Unsupported, Cell::Unsupported]));
    let expected = Record {
        values: vec![
            FieldValue::Plain(Scalar::Int(0)),
            FieldValue::Plain(Scalar::Text(String::new())),
            FieldValue::Plain(Scalar::Bool(false)),
        ],
    };
    assert_eq!(r, Err((expected, vec![msg("id"), msg("name"), msg("flag")])));
}

#[test]
fn extra_cells_are_ignored() {
    let r = foo().from_row(row(vec![int_cell(1), text("a"), Cell::Value(Scalar::Bool(true)), int_cell(9)]));
    assert!(r.is_ok());
}

#[test]
fn nullable_field_reads_null_and_value() {
    let c = RowConsumer::single(
        "Option<i32>".to_string(),
        FieldType { base: BaseType::Int, shape: Shape::Nullable },
    );
    assert_eq!(
        c.from_row(row(vec![Cell::Null { base: BaseType::Int, array: false }])),
        Ok(Record { values: vec![FieldValue::Nullable(None)] })
    );
    assert_eq!(
        c.from_row(row(vec![int_cell(1)])),
        Ok(Record { values: vec![FieldValue::Nullable(Some(Scalar::Int(1)))] })
    );
}

#[test]
fn nullable_field_rejects_null_of_other_type() {
    let c = RowConsumer::single(
        "Option<i32>".to_string(),
        FieldType { base: BaseType::Int, shape: Shape::Nullable },
    );
    let r = c.from_row(row(vec![Cell::Null { base: BaseType::Text, array: false }]));
    assert_eq!(
        r,
        Err((
            Record { values: vec![FieldValue::Nullable(None)] },
            vec!["Conversion error occurred for class \"Option<i32>\"".to_string()]
        ))
    );
}

#[test]
fn bare_value_diagnostic_names_the_class() {
    let c = RowConsumer::single("i32".to_string(), plain(BaseType::Int));
    let r = c.from_row(row(vec![Cell::Value(Scalar::BigInt(1))]));
    assert_eq!(
        r,
        Err((
            Record { values: vec![FieldValue::Plain(Scalar::Int(0))] },
            vec!["Conversion error occurred for class \"i32\"".to_string()]
        ))
    );
}

#[test]
fn list_field_reads_array_without_nulls() {
    let c = RowConsumer::single(
        "Vec<i16>".to_string(),
        FieldType { base: BaseType::SmallInt, shape: Shape::List },
    );
    let cell = Cell::Array {
        base: BaseType::SmallInt,
        items: vec![Some(Scalar::SmallInt(-9)), Some(Scalar::SmallInt(9))],
    };
    assert_eq!(
        c.from_row(row(vec![cell])),
        Ok(Record {
            values: vec![FieldValue::List(vec![Scalar::SmallInt(-9), Scalar::SmallInt(9)])]
        })
    );
}

#[test]
fn list_field_rejects_null_element() {
    let c = RowConsumer::single(
        "Vec<i16>".to_string(),
        FieldType { base: BaseType::SmallInt, shape: Shape::List },
    );
    let cell = Cell::Array { base: BaseType::SmallInt, items: vec![Some(Scalar::SmallInt(1)), None] };
    let r = c.from_row(row(vec![cell]));
    assert_eq!(
        r,
        Err((
            Record { values: vec![FieldValue::List(vec![])] },
            vec!["Conversion error occurred for class \"Vec<i16>\"".to_string()]
        ))
    );
}

#[test]
fn list_field_rejects_scalar_and_scalar_field_rejects_array() {
    let list = FieldType { base: BaseType::Int, shape: Shape::List };
    let r = Row { cells: vec![int_cell(1), Cell::Array { base: BaseType::Int, items: vec![] }] };
    assert_eq!(extract_field(&r, 0, list), None);
    assert_eq!(extract_field(&r, 1, list), Some(FieldValue::List(vec![])));
    assert_eq!(extract_field(&r, 1, plain(BaseType::Int)), None);
    assert_eq!(extract_field(&r, 2, plain(BaseType::Int)), None);
}

#[test]
fn defaults_of_each_type() {
    assert_eq!(default_scalar_value(BaseType::Bool), Scalar::Bool(false));
    assert_eq!(default_scalar_value(BaseType::Char), Scalar::Char(0));
    assert_eq!(default_scalar_value(BaseType::SmallInt), Scalar::SmallInt(0));
    assert_eq!(default_scalar_value(BaseType::Int), Scalar::Int(0));
    assert_eq!(default_scalar_value(BaseType::Oid), Scalar::Oid(0));
    assert_eq!(default_scalar_value(BaseType::BigInt), Scalar::BigInt(0));
    assert_eq!(default_scalar_value(BaseType::Text), Scalar::Text(String::new()));
    assert_eq!(default_scalar_value(BaseType::Bytea), Scalar::Bytea(vec![]));
    assert_eq!(default_scalar_value(BaseType::Uuid), Scalar::Uuid(0));
    assert_eq!(
        default_value(FieldType { base: BaseType::Uuid, shape: Shape::Nullable }),
        FieldValue::Nullable(None)
    );
    assert_eq!(
        default_value(FieldType { base: BaseType::Text, shape: Shape::List }),
        FieldValue::List(vec![])
    );
}

#[test]
fn record_type_without_fields_is_refused() {
    assert_eq!(RowConsumer::new("Foo".to_string(), vec![]).unwrap_err(), SchemaError::NoFields);
}

#[test]
fn record_type_with_unnamed_field_is_refused() {
    let fields = vec![field("id", plain(BaseType::Int)), field("", plain(BaseType::Text))];
    assert_eq!(
        RowConsumer::new("Foo".to_string(), fields).unwrap_err(),
        SchemaError::UnnamedField
    );
}

#[test]
fn record_type_accessors() {
    let c = foo();
    assert_eq!(c.class_name(), "Foo");
    assert_eq!(c.len(), 3);
    assert!(c.is_named());
    assert_eq!(c.field_name(1), "name");
    assert!(!RowConsumer::single("i32".to_string(), plain(BaseType::Int)).is_named());
}

fn good(id: i32) -> Row {
    row(vec![int_cell(id), text("n"), Cell::Value(Scalar::Bool(true))])
}

fn bad(id: i32) -> Row {
    row(vec![int_cell(id), Cell::Null { base: BaseType::Text, array: false }, Cell::Value(Scalar::Bool(true))])
}

fn ids(v: &[Record]) -> Vec<FieldValue> {
    v.iter().map(|r| r.values[0].clone()).collect()
}

#[test]
fn clean_batch_is_ok_in_order() {
    let r = foo().from_rows(vec![good(1), good(2), good(3)]).unwrap();
    assert_eq!(
        ids(&r),
        vec![
            FieldValue::Plain(Scalar::Int(1)),
            FieldValue::Plain(Scalar::Int(2)),
            FieldValue::Plain(Scalar::Int(3)),
        ]
    );
}

#[test]
fn one_degraded_row_degrades_the_batch_and_keeps_every_row() {
    let r = foo().from_rows(vec![good(1), bad(2), good(3)]).unwrap_err();
    assert_eq!(r.len(), 3);
    assert_eq!(
        ids(&r),
        vec![
            FieldValue::Plain(Scalar::Int(1)),
            FieldValue::Plain(Scalar::Int(2)),
            FieldValue::Plain(Scalar::Int(3)),
        ]
    );
    assert_eq!(r[1].values[1], FieldValue::Plain(Scalar::Text(String::new())));
}

#[test]
fn empty_batch_is_clean() {
    assert_eq!(foo().from_rows(vec![]), Ok(vec![]));
}

#[test]
fn consume_returns_records_of_a_clean_batch() {
    let r = foo().consume(Some(vec![good(1), good(2)])).unwrap();
    assert_eq!(r.len(), 2);
    assert_eq!(r[1].values[0], FieldValue::Plain(Scalar::Int(2)));
}

#[test]
fn consume_discards_a_degraded_batch() {
    let r = foo().consume(Some(vec![good(1), bad(2)]));
    assert_eq!(r, Err(ConsumeError::ConversionError));
}

#[test]
fn consume_reports_a_failed_query() {
    let failed = foo().consume(None);
    let degraded = foo().consume(Some(vec![bad(1)]));
    assert_eq!(failed, Err(ConsumeError::DatabaseConnectionError));
    assert!(failed.is_err() && degraded.is_err());
}

#[test]
fn scalar_copy_and_type_family() {
    let s = Scalar::Bytea(vec![1, 2, 3]);
    assert_eq!(s.duplicate(), s);
    assert_eq!(s.base(), BaseType::Bytea);
    assert_eq!(Scalar::Oid(5).base(), BaseType::Oid);
    assert_eq!(Scalar::Text("t".to_string()).duplicate(), Scalar::Text("t".to_string()));
}

#[test]
fn char_and_oid_and_uuid_cells() {
    let c = RowConsumer::new(
        "Bar".to_string(),
        vec![
            field("c", plain(BaseType::Char)),
            field("o", plain(BaseType::Oid)),
            field("u", FieldType { base: BaseType::Uuid, shape: Shape::Nullable }),
        ],
    )
    .unwrap();
    let r = c.from_row(row(vec![
        Cell::Value(Scalar::Char(97)),
        Cell::Value(Scalar::Oid(564182)),
        Cell::Null { base: BaseType::Uuid, array: false },
    ]));
    assert_eq!(
        r,
        Ok(Record {
            values: vec![
                FieldValue::Plain(Scalar::Char(97)),
                FieldValue::Plain(Scalar::Oid(564182)),
                FieldValue::Nullable(None),
            ]
        })
    );
}
