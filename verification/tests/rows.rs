use aquadoggo::assemble::{parse_operation_rows, OperationFieldsJoinedRow, StorageError};
use aquadoggo::cursor::{DocumentViewFieldRow, OperationCursor};
use aquadoggo::ids::{DocumentId, DocumentViewId, OperationId, PublicKey, SchemaId};
use aquadoggo::join::{group_rows_by_operation_id, join_rows, sort_by_list_index};
use aquadoggo::operation::{Operation, OperationField, OperationValue};
use aquadoggo::rows::{operation_field_rows, operation_row, value_strings, OperationFieldRow};

const KEY: &str = "2f8e50c2ede6d936ecc3144187ff1c273808185cfbc5ff3d3748d1ff7353fc96";

fn operation_id(seed: &str) -> OperationId {
    OperationId::from_bytes(seed.as_bytes())
}

fn field(name: &str, value: OperationValue) -> OperationField {
    OperationField { name: name.to_string(), value }
}

fn joined(id: &OperationId, name: &str, tag: &str, value: Option<&str>, index: usize) -> OperationFieldsJoinedRow {
    OperationFieldsJoinedRow {
        public_key: KEY.to_string(),
        document_id: id.as_str().to_string(),
        operation_id: id.as_str().to_string(),
        action: "create".to_string(),
        schema_id: "schema".to_string(),
        previous: None,
        name: Some(name.to_string()),
        field_type: Some(tag.to_string()),
        value: value.map(|v| v.to_string()),
        list_index: Some(index),
    }
}

#[test]
fn values_are_written_as_text() {
    let some = |s: &str| vec![Some(s.to_string())];
    assert_eq!(value_strings(&OperationValue::Boolean(true)), some("true"));
    assert_eq!(value_strings(&OperationValue::Boolean(false)), some("false"));
    assert_eq!(value_strings(&OperationValue::Integer(0)), some("0"));
    assert_eq!(value_strings(&OperationValue::Integer(-1205)), some("-1205"));
    assert_eq!(value_strings(&OperationValue::Integer(i64::MIN)), some("-9223372036854775808"));
    assert_eq!(value_strings(&OperationValue::Integer(i64::MAX)), some("9223372036854775807"));
    assert_eq!(value_strings(&OperationValue::Float(1.0f64.to_bits())), some("4607182418800017408"));
    assert_eq!(value_strings(&OperationValue::String("yes".to_string())), some("yes"));
    assert_eq!(value_strings(&OperationValue::Bytes(vec![0, 1, 2, 3, 0xab])), some("00010203ab"));
    assert_eq!(value_strings(&OperationValue::RelationList(vec![])), vec![None]);
    assert_eq!(value_strings(&OperationValue::PinnedRelationList(vec![])), vec![None]);
    let a = operation_id("a");
    let b = operation_id("b");
    let docs = vec![DocumentId::from_operation_id(&a), DocumentId::from_operation_id(&b)];
    assert_eq!(
        value_strings(&OperationValue::RelationList(docs)),
        vec![Some(a.as_str().to_string()), Some(b.as_str().to_string())]
    );
    assert_eq!(
        value_strings(&OperationValue::PinnedRelation(DocumentViewId::single(&a))),
        some(a.as_str())
    );
}

#[test]
fn rows_of_an_operation() {
    let id = operation_id("op");
    let document_id = DocumentId::from_operation_id(&id);
    let target = DocumentId::from_operation_id(&operation_id("t"));
    let operation = Operation::update(
        SchemaId::new("schema"),
        DocumentViewId::single(&operation_id("before")),
        vec![
            field("age", OperationValue::Integer(7)),
            field("friends", OperationValue::RelationList(vec![target.clone(), target.clone()])),
        ],
    );
    let row = operation_row(&id, &PublicKey::new(KEY), &operation, &document_id);
    assert_eq!(row.public_key, KEY);
    assert_eq!(row.document_id, document_id.as_str());
    assert_eq!(row.operation_id, id.as_str());
    assert_eq!(row.action, "update");
    assert_eq!(row.schema_id, "schema");
    assert_eq!(row.previous, Some(operation_id("before").as_str().to_string()));

    let rows = operation_field_rows(&id, &operation);
    let expected: Vec<OperationFieldRow> = vec![
        ("age", "int", "7".to_string(), 0),
        ("friends", "relation_list", target.as_str().to_string(), 0),
        ("friends", "relation_list", target.as_str().to_string(), 1),
    ]
    .into_iter()
    .map(|(name, tag, value, index)| OperationFieldRow {
        operation_id: id.as_str().to_string(),
        name: name.to_string(),
        field_type: tag.to_string(),
        value: Some(value),
        list_index: index,
        cursor: OperationCursor::new(index, name, &id).to_text(),
    })
    .collect();
    assert_eq!(rows, expected);
    // The same document twice in one list: the cursors tell the rows apart.
    assert_ne!(rows[1].cursor, rows[2].cursor);

    let joined = join_rows(&row, &rows);
    assert_eq!(joined.len(), 3);
    assert_eq!(joined[2].list_index, Some(1));
    assert_eq!(joined[2].name, Some("friends".to_string()));
    let bare = join_rows(&row, &vec![]);
    assert_eq!(bare.len(), 1);
    assert_eq!(bare[0].name, None);
    assert_eq!(bare[0].list_index, None);
    assert_eq!(bare[0].operation_id, id.as_str());
}

#[test]
fn cursor_of_a_view_field_row() {
    let id = operation_id("op");
    let row = DocumentViewFieldRow {
        document_id: id.as_str().to_string(),
        document_view_id: id.as_str().to_string(),
        operation_id: id.as_str().to_string(),
        name: "friends".to_string(),
        list_index: 3,
        field_type: "relation_list".to_string(),
        value: None,
    };
    assert_eq!(OperationCursor::from_row(&row), Ok(OperationCursor::new(3, "friends", &id)));
    let broken = DocumentViewFieldRow { operation_id: "abc".to_string(), ..row };
    assert!(OperationCursor::from_row(&broken).is_err());
}

#[test]
fn sorting_is_by_list_index_and_stable() {
    let a = operation_id("a");
    let b = operation_id("b");
    let mut bare = joined(&b, "x", "int", None, 0);
    bare.name = None;
    bare.field_type = None;
    bare.list_index = None;
    let rows = vec![
        joined(&a, "list", "relation_list", Some("1"), 1),
        joined(&a, "n", "int", Some("5"), 0),
        joined(&a, "list", "relation_list", Some("3"), 3),
        bare.clone(),
        joined(&a, "list", "relation_list", Some("0"), 0),
        joined(&a, "list", "relation_list", Some("x"), usize::MAX),
    ];
    let sorted = sort_by_list_index(&rows);
    let order: Vec<Option<usize>> = sorted.iter().map(|r| r.list_index).collect();
    assert_eq!(order, vec![None, Some(0), Some(0), Some(1), Some(3), Some(usize::MAX)]);
    assert_eq!(sorted[1].name, Some("n".to_string()));
    assert_eq!(sorted[2].name, Some("list".to_string()));
    assert_eq!(sort_by_list_index(&vec![]), vec![]);
}

#[test]
fn grouping_is_by_operation_in_ascending_order_of_the_ids() {
    let mut ids = vec![operation_id("a"), operation_id("b"), operation_id("c")];
    ids.sort_by(|x, y| x.as_str().cmp(y.as_str()));
    let (first, second, third) = (&ids[0], &ids[1], &ids[2]);
    let rows = vec![
        joined(second, "n", "int", Some("1"), 0),
        joined(third, "n", "int", Some("2"), 0),
        joined(second, "m", "int", Some("3"), 0),
        joined(first, "n", "int", Some("4"), 0),
        joined(third, "m", "int", Some("5"), 0),
    ];
    let groups = group_rows_by_operation_id(&rows);
    assert_eq!(groups.len(), 3);
    assert_eq!(groups[0], vec![rows[3].clone()]);
    assert_eq!(groups[1], vec![rows[0].clone(), rows[2].clone()]);
    assert_eq!(groups[2], vec![rows[1].clone(), rows[4].clone()]);
    assert!(group_rows_by_operation_id(&vec![]).is_empty());

    // The order of the groups does not depend on the order of the rows.
    let mut reversed = rows.clone();
    reversed.reverse();
    let again = group_rows_by_operation_id(&reversed);
    let group_ids = |groups: &Vec<Vec<OperationFieldsJoinedRow>>| {
        groups.iter().map(|g| g[0].operation_id.clone()).collect::<Vec<String>>()
    };
    assert_eq!(group_ids(&again), group_ids(&groups));
    assert_eq!(
        group_ids(&groups),
        ids.iter().map(|id| id.as_str().to_string()).collect::<Vec<String>>()
    );
}

#[test]
fn no_rows_are_no_operation() {
    assert_eq!(parse_operation_rows(&vec![]), Ok(None));
}

#[test]
fn rows_are_put_together() {
    let id = operation_id("a");
    let target = operation_id("t");
    let rows = vec![
        joined(&id, "flag", "bool", Some("false"), 0),
        joined(&id, "list", "relation_list", Some(target.as_str()), 0),
        joined(&id, "bytes", "bytes", Some("00FFab"), 0),
        joined(&id, "unknown", "something_else", Some("x"), 0),
        joined(&id, "n", "int", Some("-007"), 0),
        joined(&id, "list", "relation_list", Some(id.as_str()), 1),
    ];
    let found = parse_operation_rows(&rows).unwrap().unwrap();
    assert_eq!(found.id, id);
    assert_eq!(found.public_key, PublicKey::new(KEY));
    assert_eq!(
        found.operation.fields,
        vec![
            field("flag", OperationValue::Boolean(false)),
            field(
                "list",
                OperationValue::RelationList(vec![
                    DocumentId::from_operation_id(&target),
                    DocumentId::from_operation_id(&id)
                ])
            ),
            field("bytes", OperationValue::Bytes(vec![0, 255, 171])),
            field("n", OperationValue::Integer(-7)),
        ]
    );
}

#[test]
fn malformed_rows_are_a_fatal_error() {
    let id = operation_id("a");
    let fatal = Err(StorageError::Fatal("Malformed operation rows".to_string()));
    let cases: Vec<Vec<OperationFieldsJoinedRow>> = vec![
        // A truth value that is none.
        vec![joined(&id, "flag", "bool", Some("yes"), 0)],
        // A number that does not fit.
        vec![joined(&id, "n", "int", Some("9223372036854775808"), 0)],
        vec![joined(&id, "n", "int", Some(""), 0)],
        vec![joined(&id, "n", "float", Some("-1"), 0)],
        // Bytes that are no hexadecimal text.
        vec![joined(&id, "b", "bytes", Some("abc"), 0)],
        // A relation that is no hash.
        vec![joined(&id, "r", "relation", Some("0020"), 0)],
        // A single value without text, or not at position zero.
        vec![joined(&id, "n", "int", None, 0)],
        vec![joined(&id, "n", "int", Some("1"), 1)],
        // A field twice.
        vec![joined(&id, "n", "int", Some("1"), 0), joined(&id, "n", "int", Some("2"), 0)],
        // A list with a gap, and one that goes on after it was empty.
        vec![
            joined(&id, "l", "relation_list", Some(id.as_str()), 0),
            joined(&id, "l", "relation_list", Some(id.as_str()), 2),
        ],
        vec![
            joined(&id, "l", "relation_list", None, 0),
            joined(&id, "l", "relation_list", Some(id.as_str()), 1),
        ],
        // A list that starts at position one.
        vec![joined(&id, "l", "relation_list", Some(id.as_str()), 1)],
    ];
    for rows in cases {
        assert_eq!(parse_operation_rows(&rows), fatal);
    }
    let mut bad_id = joined(&id, "n", "int", Some("1"), 0);
    bad_id.operation_id = "nothing".to_string();
    assert_eq!(parse_operation_rows(&vec![bad_id]), fatal);
    let mut bad_action = joined(&id, "n", "int", Some("1"), 0);
    bad_action.action = "destroy".to_string();
    assert_eq!(parse_operation_rows(&vec![bad_action]), fatal);
    let mut bad_previous = joined(&id, "n", "int", Some("1"), 0);
    bad_previous.previous = Some("x_y".to_string());
    assert_eq!(parse_operation_rows(&vec![bad_previous]), fatal);
}

#[test]
fn storage_failures_are_told_apart() {
    assert_eq!(
        StorageError::from_failure(true, "UNIQUE constraint failed".to_string()),
        StorageError::Conflict("UNIQUE constraint failed".to_string())
    );
    assert_eq!(
        StorageError::from_failure(false, "disk is gone".to_string()),
        StorageError::Fatal("disk is gone".to_string())
    );
    assert_eq!(StorageError::Fatal("x".to_string()).message(), "x");
}
