use aquadoggo::assemble::{StorageError, StorageOperation};
use aquadoggo::ids::{DocumentId, DocumentViewId, OperationId, PublicKey, SchemaId};
use aquadoggo::operation::{Operation, OperationAction, OperationField, OperationValue};
use aquadoggo::store::MemoryStore;

fn operation_id(seed: &str) -> OperationId {
    OperationId::from_bytes(seed.as_bytes())
}

fn public_key() -> PublicKey {
    PublicKey::new("2f8e50c2ede6d936ecc3144187ff1c273808185cfbc5ff3d3748d1ff7353fc96")
}

fn schema_id() -> SchemaId {
    SchemaId::new("venue_0020c65567ae37efea293e34a9c7d13f8f2bf23dbdc3b5c7b9ab46293111c48fc78b")
}

fn field(name: &str, value: OperationValue) -> OperationField {
    OperationField { name: name.to_string(), value }
}

fn scalar_fields_of_document() -> Vec<OperationField> {
    vec![
        field("bool", OperationValue::Boolean(true)),
        field("float", OperationValue::Float(1.0f64.to_bits())),
        field("int", OperationValue::Integer(1)),
        field("text", OperationValue::String("yes".to_string())),
        field("bytes", OperationValue::Bytes(vec![0, 1, 2, 3])),
    ]
}

fn sorted_view_id(mut ids: Vec<OperationId>) -> DocumentViewId {
    ids.sort_by(|a, b| a.as_str().cmp(b.as_str()));
    DocumentViewId::from_operation_ids(&ids).unwrap()
}

#[test]
fn scalar_fields() {
    let mut store = MemoryStore::new();
    let id = operation_id("create");
    let document_id = DocumentId::from_operation_id(&id);
    let operation = Operation::create(schema_id(), scalar_fields_of_document());
    store.insert_operation(&id, &public_key(), &operation, &document_id).unwrap();

    let found = store.get_operation(&id).unwrap();
    assert!(found.is_some());
    let found = found.unwrap();
    assert!(!found.operation.fields.is_empty());
    assert_eq!(found.operation.fields.len(), 5);

    let value_of = |name: &str| {
        found.operation.fields.iter().find(|f| f.name == name).map(|f| &f.value).unwrap()
    };
    assert!(matches!(value_of("bool"), OperationValue::Boolean(true)));
    if let OperationValue::Float(bits) = value_of("float") {
        assert_eq!(1.0, f64::from_bits(*bits));
    } else {
        panic!("Didn't get a float!");
    }
    assert!(matches!(value_of("int"), OperationValue::Integer(1)));
    if let OperationValue::String(s) = value_of("text") {
        assert_eq!(*s, "yes".to_string());
    } else {
        panic!("Didn't get a string!")
    }
    if let OperationValue::Bytes(b) = value_of("bytes") {
        assert_eq!(*b, vec![0, 1, 2, 3]);
    } else {
        panic!("Didn't get any bytes!");
    }

    let expected = StorageOperation {
        id: id.clone(),
        public_key: public_key(),
        document_id: document_id.clone(),
        operation: operation.clone(),
    };
    assert_eq!(found, expected);
    assert_eq!(store.get_operations_by_document_id(&document_id).unwrap(), vec![expected]);
}

#[test]
fn insert_and_get_create_operation() {
    let mut store = MemoryStore::new();
    let id = operation_id("a");
    let document_id = DocumentId::from_operation_id(&id);
    let operation = Operation::create(schema_id(), scalar_fields_of_document());
    assert!(store.insert_operation(&id, &public_key(), &operation, &document_id).is_ok());
    let returned = store.get_operation(&id).unwrap().unwrap();
    assert_eq!(returned.public_key, public_key());
    assert_eq!(returned.operation.fields, operation.fields);
    assert_eq!(returned.id, id);
    assert_eq!(returned.operation.action, OperationAction::Create);
    assert_eq!(returned.operation.previous, None);
}

#[test]
fn insert_and_get_update_operation_many_previous() {
    let mut store = MemoryStore::new();
    let id = operation_id("update");
    let document_id = DocumentId::from_operation_id(&operation_id("create"));
    let previous = sorted_view_id((0..12).map(|i| operation_id(&format!("prev{}", i))).collect());
    assert_eq!(previous.len(), 12);
    let operation = Operation::update(schema_id(), previous.clone(), scalar_fields_of_document());
    store.insert_operation(&id, &public_key(), &operation, &document_id).unwrap();
    let returned = store.get_operation(&id).unwrap().unwrap();
    assert_eq!(returned.operation, operation);
    assert_eq!(returned.operation.previous, Some(previous));
    assert_eq!(returned.document_id, document_id);
}

#[test]
fn insert_and_get_delete_operation() {
    let mut store = MemoryStore::new();
    let id = operation_id("delete");
    let document_id = DocumentId::from_operation_id(&operation_id("create"));
    let previous = DocumentViewId::single(&operation_id("create"));
    let operation = Operation::delete(schema_id(), previous);
    store.insert_operation(&id, &public_key(), &operation, &document_id).unwrap();
    let returned = store.get_operation(&id).unwrap().unwrap();
    assert_eq!(returned.operation, operation);
    assert!(returned.operation.fields.is_empty());
    assert_eq!(returned.operation.action, OperationAction::Delete);
}

#[test]
fn get_operation_of_unknown_id_is_none() {
    let store = MemoryStore::new();
    assert_eq!(store.get_operation(&operation_id("nothing")), Ok(None));
}

#[test]
fn insert_operation_twice() {
    let mut store = MemoryStore::new();
    let id = operation_id("a");
    let document_id = DocumentId::from_operation_id(&id);
    let operation = Operation::create(schema_id(), scalar_fields_of_document());
    store.insert_operation(&id, &public_key(), &operation, &document_id).unwrap();

    let other = Operation::create(
        schema_id(),
        vec![field("text", OperationValue::String("no".to_string()))],
    );
    let second = store.insert_operation(&id, &public_key(), &other, &document_id);
    assert!(second.is_err());
    assert!(matches!(second, Err(StorageError::Conflict(_))));

    // The first operation is as it was.
    assert_eq!(store.len(), 1);
    let found = store.get_operation(&id).unwrap().unwrap();
    assert_eq!(found.operation, operation);
}

#[test]
fn insert_operation_with_a_field_name_twice_is_a_conflict() {
    let mut store = MemoryStore::new();
    let id = operation_id("a");
    let document_id = DocumentId::from_operation_id(&id);
    let operation = Operation::create(
        schema_id(),
        vec![
            field("name", OperationValue::Integer(1)),
            field("other", OperationValue::Integer(2)),
            field("name", OperationValue::Integer(3)),
        ],
    );
    let result = store.insert_operation(&id, &public_key(), &operation, &document_id);
    assert!(matches!(result, Err(StorageError::Conflict(_))));
    assert_eq!(store.len(), 0);
    assert_eq!(store.get_operation(&id), Ok(None));
    assert_eq!(store.get_operations_by_document_id(&document_id), Ok(vec![]));
}

#[test]
fn gets_document_by_operation_id() {
    let mut store = MemoryStore::new();
    let id = operation_id("create");
    let document_id = DocumentId::from_operation_id(&id);
    let operation = Operation::create(schema_id(), scalar_fields_of_document());

    assert!(store.get_document_id_by_operation_id(&id).expect("lookup").is_none());

    store.insert_operation(&id, &public_key(), &operation, &document_id).unwrap();
    assert_eq!(
        store.get_document_id_by_operation_id(&id).expect("lookup").expect("document id"),
        document_id.clone()
    );

    let update = Operation::update(
        schema_id(),
        DocumentViewId::single(&id),
        vec![field("text", OperationValue::String("maybe".to_string()))],
    );
    let update_id = operation_id("update");
    store.insert_operation(&update_id, &public_key(), &update, &document_id).unwrap();
    assert_eq!(
        store.get_document_id_by_operation_id(&update_id).expect("lookup").expect("document id"),
        document_id.clone()
    );
    assert_eq!(
        store.get_document_id_by_operation_id(&id).expect("lookup").expect("document id"),
        document_id
    );
}

#[test]
fn get_operations_by_document_id() {
    let mut store = MemoryStore::new();
    let create_id = operation_id("op0");
    let document_id = DocumentId::from_operation_id(&create_id);
    let create = Operation::create(schema_id(), scalar_fields_of_document());
    store.insert_operation(&create_id, &public_key(), &create, &document_id).unwrap();
    let mut inserted = vec![(create_id.clone(), create)];
    let mut tip = create_id;
    for i in 1..10 {
        let id = operation_id(&format!("op{}", i));
        let update = Operation::update(
            schema_id(),
            DocumentViewId::single(&tip),
            vec![field("int", OperationValue::Integer(i))],
        );
        store.insert_operation(&id, &public_key(), &update, &document_id).unwrap();
        inserted.push((id.clone(), update));
        tip = id;
    }
    // An operation of another document, and one of another schema.
    let other_id = operation_id("other");
    let other_document = DocumentId::from_operation_id(&other_id);
    let other = Operation::create(SchemaId::new("other_schema"), scalar_fields_of_document());
    store.insert_operation(&other_id, &public_key(), &other, &other_document).unwrap();

    let operations = store.get_operations_by_document_id(&document_id).expect("operations");
    assert_eq!(operations.len(), 10);
    for (id, operation) in &inserted {
        let found: Vec<_> = operations.iter().filter(|o| &o.id == id).collect();
        assert_eq!(found.len(), 1);
        assert_eq!(&found[0].operation, operation);
        assert_eq!(found[0].document_id, document_id);
    }

    let by_schema = store.get_operations_by_schema_id(&schema_id()).expect("operations");
    assert_eq!(by_schema.len(), 10);
    let by_other_schema =
        store.get_operations_by_schema_id(&SchemaId::new("other_schema")).expect("operations");
    assert_eq!(by_other_schema.len(), 1);
    assert_eq!(by_other_schema[0].id, other_id);
    let by_unknown = store.get_operations_by_schema_id(&SchemaId::new("none")).unwrap();
    assert!(by_unknown.is_empty());
}

#[test]
fn lists_keep_their_elements_in_order() {
    let mut store = MemoryStore::new();
    let id = operation_id("lists");
    let document_id = DocumentId::from_operation_id(&id);
    let documents: Vec<DocumentId> = (0..7)
        .map(|i| DocumentId::from_operation_id(&operation_id(&format!("doc{}", i))))
        .collect();
    let views: Vec<DocumentViewId> = vec![
        sorted_view_id(vec![operation_id("x"), operation_id("y"), operation_id("z")]),
        DocumentViewId::single(&operation_id("w")),
        sorted_view_id(vec![operation_id("x"), operation_id("y"), operation_id("z")]),
    ];
    let operation = Operation::create(
        schema_id(),
        vec![
            field("first", OperationValue::Integer(-42)),
            field("relations", OperationValue::RelationList(documents.clone())),
            field("empty", OperationValue::RelationList(vec![])),
            field("middle", OperationValue::String(String::new())),
            field("pinned", OperationValue::PinnedRelationList(views.clone())),
            field("none_pinned", OperationValue::PinnedRelationList(vec![])),
            field("relation", OperationValue::Relation(documents[3].clone())),
            field("pin", OperationValue::PinnedRelation(views[0].clone())),
            field("min", OperationValue::Integer(i64::MIN)),
            field("max", OperationValue::Float(u64::MAX)),
        ],
    );
    store.insert_operation(&id, &public_key(), &operation, &document_id).unwrap();
    let found = store.get_operation(&id).unwrap().unwrap();
    assert_eq!(found.operation, operation);
    match &found.operation.fields[1].value {
        OperationValue::RelationList(ids) => {
            assert_eq!(ids.len(), 7);
            assert_eq!(ids, &documents);
        }
        _ => panic!("no relation list"),
    }
    let by_document = store.get_operations_by_document_id(&document_id).unwrap();
    assert_eq!(by_document.len(), 1);
    assert_eq!(by_document[0].operation, operation);
}

#[test]
fn reading_order_is_by_id_whatever_the_order_of_insertion() {
    let document_id = DocumentId::from_operation_id(&operation_id("doc"));
    let ids: Vec<OperationId> = (0..6).map(|i| operation_id(&format!("op{}", i))).collect();
    let operation_of = |i: usize| {
        if i % 2 == 0 {
            Operation::create(schema_id(), vec![field("n", OperationValue::Integer(i as i64))])
        } else {
            // An operation without field rows.
            Operation::delete(schema_id(), DocumentViewId::single(&operation_id("doc")))
        }
    };
    let mut forward = MemoryStore::new();
    for i in 0..6 {
        forward.insert_operation(&ids[i], &public_key(), &operation_of(i), &document_id).unwrap();
    }
    let mut backward = MemoryStore::new();
    for i in (0..6).rev() {
        backward.insert_operation(&ids[i], &public_key(), &operation_of(i), &document_id).unwrap();
    }
    let a = forward.get_operations_by_document_id(&document_id).unwrap();
    let b = backward.get_operations_by_document_id(&document_id).unwrap();
    assert_eq!(a.len(), 6);
    assert_eq!(a, b);
    for pair in a.windows(2) {
        assert!(pair[0].id.as_str() < pair[1].id.as_str());
    }
    let c = forward.get_operations_by_schema_id(&schema_id()).unwrap();
    let d = backward.get_operations_by_schema_id(&schema_id()).unwrap();
    assert_eq!(c, d);
    assert_eq!(a, c);
}
