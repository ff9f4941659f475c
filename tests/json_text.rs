use pgde::{
    BaseType, Cell, FieldDescriptor, FieldType, FieldValue, Record, Row, RowConsumer, Scalar,
    Shape,
};

fn ty(base: BaseType, shape: Shape) -> FieldType {
    FieldType { base, shape }
}

fn consumer(fields: Vec<(&str, FieldType)>) -> RowConsumer {
    let fields = fields
        .into_iter()
        .map(|(n, t)| FieldDescriptor { name: n.to_string(), ty: t })
        .collect();
    RowConsumer::new("Foo".to_string(), fields).unwrap()
}

fn id_name() -> RowConsumer {
    consumer(vec![
        ("id", ty(BaseType::Int, Shape::Plain)),
        ("name", ty(BaseType::Text, Shape::Plain)),
    ])
}

fn row(cells: Vec<Cell>) -> Row {
    Row { cells }
}

#[test]
fn single_record_object_follows_declaration_order() {
    let rows = vec![row(vec![
        Cell::Value(Scalar::Int(1)),
        Cell::Value(Scalar::Text("a".to_string())),
    ])];
    assert_eq!(id_name().consume_json(Some(rows)), Ok("[{\"id\":1,\"name\":\"a\"}]".to_string()));
}

#[test]
fn two_records_and_negative_numbers() {
    let recs = vec![
        Record {
            values: vec![
                FieldValue::Plain(Scalar::Int(-42)),
                FieldValue::Plain(Scalar::Text("b".to_string())),
            ],
        },
        Record {
            values: vec![
                FieldValue::Plain(Scalar::Int(2147483647)),
                FieldValue::Plain(Scalar::Text(String::new())),
            ],
        },
    ];
    assert_eq!(
        id_name().to_json(&recs),
        "[{\"id\":-42,\"name\":\"b\"},{\"id\":2147483647,\"name\":\"\"}]"
    );
}

#[test]
fn empty_batch_is_an_empty_array() {
    assert_eq!(id_name().to_json(&vec![]), "[]");
}

#[test]
fn text_is_escaped() {
    let c = RowConsumer::single("String".to_string(), ty(BaseType::Text, Shape::Plain));
    let recs = vec![Record {
        values: vec![FieldValue::Plain(Scalar::Text("a\"b\\c\nd\u{1}é".to_string()))],
    }];
    assert_eq!(c.to_json(&recs), "[\"a\\\"b\\\\c\\nd\\u0001é\"]");
}

#[test]
fn field_names_are_escaped() {
    let c = consumer(vec![("we\"ird", ty(BaseType::Bool, Shape::Plain))]);
    let recs = vec![Record { values: vec![FieldValue::Plain(Scalar::Bool(false))] }];
    assert_eq!(c.to_json(&recs), "[{\"we\\\"ird\":false}]");
}

#[test]
fn bare_values_form_a_plain_array() {
    let c = RowConsumer::single("i64".to_string(), ty(BaseType::BigInt, Shape::Plain));
    let rows = vec![
        row(vec![Cell::Value(Scalar::BigInt(-2147483649))]),
        row(vec![Cell::Value(Scalar::BigInt(2147483648))]),
    ];
    assert_eq!(c.consume_json(Some(rows)), Ok("[-2147483649,2147483648]".to_string()));
}

#[test]
fn every_scalar_kind() {
    let c = consumer(vec![
        ("b", ty(BaseType::Bool, Shape::Plain)),
        ("c", ty(BaseType::Char, Shape::Plain)),
        ("s", ty(BaseType::SmallInt, Shape::Plain)),
        ("o", ty(BaseType::Oid, Shape::Plain)),
        ("x", ty(BaseType::Bytea, Shape::Plain)),
        ("u", ty(BaseType::Uuid, Shape::Plain)),
    ]);
    let recs = vec![Record {
        values: vec![
            FieldValue::Plain(Scalar::Bool(true)),
            FieldValue::Plain(Scalar::Char(97)),
            FieldValue::Plain(Scalar::SmallInt(-9)),
            FieldValue::Plain(Scalar::Oid(564182)),
            FieldValue::Plain(Scalar::Bytea(vec![0x12, 0x34])),
            FieldValue::Plain(Scalar::Uuid(0x67e5504410b1426f9247bb680e5fe0c8)),
        ],
    }];
    assert_eq!(
        c.to_json(&recs),
        "[{\"b\":true,\"c\":97,\"s\":-9,\"o\":564182,\"x\":[18,52],\"u\":\"67e55044-10b1-426f-9247-bb680e5fe0c8\"}]"
    );
}

#[test]
fn nullable_and_list_fields() {
    let c = consumer(vec![
        ("a", ty(BaseType::Int, Shape::Nullable)),
        ("b", ty(BaseType::Int, Shape::Nullable)),
        ("l", ty(BaseType::Text, Shape::List)),
        ("e", ty(BaseType::Bytea, Shape::List)),
    ]);
    let recs = vec![Record {
        values: vec![
            FieldValue::Nullable(None),
            FieldValue::Nullable(Some(Scalar::Int(1))),
            FieldValue::List(vec![Scalar::Text("x".to_string()), Scalar::Text("y".to_string())]),
            FieldValue::List(vec![]),
        ],
    }];
    assert_eq!(c.to_json(&recs), "[{\"a\":null,\"b\":1,\"l\":[\"x\",\"y\"],\"e\":[]}]");
}

#[test]
fn nil_uuid_text() {
    let c = RowConsumer::single("Uuid".to_string(), ty(BaseType::Uuid, Shape::Plain));
    let recs = vec![Record { values: vec![FieldValue::Plain(Scalar::Uuid(0))] }];
    assert_eq!(c.to_json(&recs), "[\"00000000-0000-0000-0000-000000000000\"]");
}

#[test]
fn failures_give_null() {
    let bad = vec![row(vec![Cell::Unsupported, Cell::Value(Scalar::Text("a".to_string()))])];
    assert_eq!(id_name().consume_json(Some(bad)), Err("null".to_string()));
    assert_eq!(id_name().consume_json(None), Err("null".to_string()));
}

#[test]
fn json_text_reads_back_to_the_same_values() {
    let c = consumer(vec![
        ("id", ty(BaseType::BigInt, Shape::Plain)),
        ("name", ty(BaseType::Text, Shape::Plain)),
        ("tags", ty(BaseType::Text, Shape::List)),
        ("note", ty(BaseType::Text, Shape::Nullable)),
    ]);
    let rows = vec![
        row(vec![
            Cell::Value(Scalar::BigInt(-9007199254740993)),
            Cell::Value(Scalar::Text("quote \" and \\ and\ttab".to_string())),
            Cell::Array {
                base: BaseType::Text,
                items: vec![Some(Scalar::Text("x".to_string()))],
            },
            Cell::Null { base: BaseType::Text, array: false },
        ]),
        row(vec![
            Cell::Value(Scalar::BigInt(7)),
            Cell::Value(Scalar::Text("\u{7}bell".to_string())),
            Cell::Array { base: BaseType::Text, items: vec![] },
            Cell::Value(Scalar::Text("n".to_string())),
        ]),
    ];
    let text = c.consume_json(Some(rows)).unwrap();
    let v: serde_json::Value = serde_json::from_str(&text).unwrap();
    assert_eq!(v[0]["id"].as_i64(), Some(-9007199254740993));
    assert_eq!(v[0]["name"].as_str(), Some("quote \" and \\ and\ttab"));
    assert_eq!(v[0]["tags"][0].as_str(), Some("x"));
    assert!(v[0]["note"].is_null());
    assert_eq!(v[1]["id"].as_i64(), Some(7));
    assert_eq!(v[1]["name"].as_str(), Some("\u{7}bell"));
    assert_eq!(v[1]["tags"].as_array().map(|a| a.len()), Some(0));
    assert_eq!(v[1]["note"].as_str(), Some("n"));
}

#[test]
fn uuid_text_reads_back() {
    let c = RowConsumer::single("Uuid".to_string(), ty(BaseType::Uuid, Shape::Plain));
    let value: u128 = 0x0123456789abcdef0011223344556677;
    let recs = vec![Record { values: vec![FieldValue::Plain(Scalar::Uuid(value))] }];
    let text = c.to_json(&recs);
    let v: serde_json::Value = serde_json::from_str(&text).unwrap();
    let back = uuid::Uuid::parse_str(v[0].as_str().unwrap()).unwrap();
    assert_eq!(back.as_u128(), value);
}
