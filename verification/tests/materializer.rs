use aquadoggo::ids::{DocumentId, DocumentViewId, OperationId, SchemaId};
use aquadoggo::materializer::{
    materialize, Document, DocumentField, DocumentValue, DocumentView, DocumentViews,
    MaterializationError,
};
use aquadoggo::operation::{FieldType, OperationField, OperationValue};
use aquadoggo::request::{
    CollectionRequest, RequestDirection, Schema, SchemaField,
};

fn operation_id(seed: &str) -> OperationId {
    OperationId::from_bytes(seed.as_bytes())
}

fn field(name: &str, value: OperationValue) -> OperationField {
    OperationField { name: name.to_string(), value }
}

fn view(seed: &str, fields: Vec<OperationField>) -> DocumentView {
    let id = operation_id(seed);
    DocumentView {
        id: DocumentViewId::single(&id),
        document_id: DocumentId::from_operation_id(&id),
        fields,
    }
}

fn value_of<'a>(document: &'a Document, name: &str) -> Option<&'a DocumentValue> {
    document.fields.iter().find(|f| f.name == name).map(|f| &f.value)
}

#[test]
fn scalar_fields_map_one_to_one() {
    let parent = view(
        "doc",
        vec![
            field("bool", OperationValue::Boolean(true)),
            field("float", OperationValue::Float(1.0f64.to_bits())),
            field("int", OperationValue::Integer(1)),
            field("text", OperationValue::String("yes".to_string())),
            field("bytes", OperationValue::Bytes(vec![0, 1, 2, 3])),
        ],
    );
    let document = materialize(&parent, &DocumentViews::new(), 0).unwrap();
    assert_eq!(document.document_id, parent.document_id);
    assert_eq!(document.view_id, parent.id);
    assert_eq!(
        document.fields,
        vec![
            DocumentField { name: "bool".to_string(), value: DocumentValue::Boolean(true) },
            DocumentField {
                name: "float".to_string(),
                value: DocumentValue::Float(1.0f64.to_bits())
            },
            DocumentField { name: "int".to_string(), value: DocumentValue::Integer(1) },
            DocumentField {
                name: "text".to_string(),
                value: DocumentValue::String("yes".to_string())
            },
            DocumentField {
                name: "bytes".to_string(),
                value: DocumentValue::Bytes(vec![0, 1, 2, 3])
            },
        ]
    );
}

#[test]
fn relation_fields() {
    let child = view("child", vec![field("it_works", OperationValue::Boolean(true))]);
    let child_doc_id = child.document_id.clone();
    let child_view_id = child.id.clone();
    let parent = view(
        "parent",
        vec![
            field("by_relation", OperationValue::Relation(child_doc_id.clone())),
            field("by_pinned_relation", OperationValue::PinnedRelation(child_view_id.clone())),
            field("by_relation_list", OperationValue::RelationList(vec![child_doc_id.clone()])),
            field(
                "by_pinned_relation_list",
                OperationValue::PinnedRelationList(vec![child_view_id.clone()]),
            ),
        ],
    );
    let mut views = DocumentViews::new();
    views.add(child.clone());
    views.add(parent.clone());

    let schema = Schema {
        id: SchemaId::new("parent"),
        fields: vec![
            SchemaField { name: "by_relation".to_string(), field_type: FieldType::Relation },
            SchemaField {
                name: "by_pinned_relation".to_string(),
                field_type: FieldType::PinnedRelation,
            },
            SchemaField {
                name: "by_relation_list".to_string(),
                field_type: FieldType::RelationList,
            },
            SchemaField {
                name: "by_pinned_relation_list".to_string(),
                field_type: FieldType::PinnedRelationList,
            },
        ],
    };
    let request = CollectionRequest {
        schema_id: "parent".to_string(),
        first: None,
        after: None,
        meta: None,
        filter: vec![],
        order_by: None,
        order_direction: RequestDirection::Ascending,
        selections: vec![
            "by_relation".to_string(),
            "by_pinned_relation".to_string(),
            "by_relation_list".to_string(),
        ],
    };
    let query = request.to_query(&schema).unwrap();

    let doc = materialize(&parent.select(&query.select), &views, 8).unwrap();
    assert_eq!(doc.fields.len(), 3);

    let relation_field = value_of(&doc, "by_relation");
    assert!(relation_field.is_some());
    if let Some(DocumentValue::Relation(relation)) = relation_field {
        assert!(matches!(value_of(relation, "it_works"), Some(DocumentValue::Boolean(true))));
    } else {
        panic!("No relation value!");
    }

    let pinned_rel_field = value_of(&doc, "by_pinned_relation");
    assert!(pinned_rel_field.is_some());
    if let Some(DocumentValue::PinnedRelation(pinned_rel)) = pinned_rel_field {
        assert!(matches!(value_of(pinned_rel, "it_works"), Some(DocumentValue::Boolean(true))));
    } else {
        panic!("No pinned relation value!");
    }

    let relation_list_field = value_of(&doc, "by_relation_list");
    assert!(relation_list_field.is_some());
    if let Some(DocumentValue::RelationList(rel_list)) = relation_list_field {
        assert_eq!(rel_list.len(), 1);
        assert_eq!(rel_list[0].document_id, child_doc_id);
        assert!(matches!(value_of(&rel_list[0], "it_works"), Some(DocumentValue::Boolean(true))));
    } else {
        panic!("No relation list value!");
    }
    assert!(value_of(&doc, "by_pinned_relation_list").is_none());

    // Without a selection all four fields are there, in the order of the view.
    let all = materialize(&parent, &views, 8).unwrap();
    let names: Vec<&str> = all.fields.iter().map(|f| f.name.as_str()).collect();
    assert_eq!(
        names,
        vec!["by_relation", "by_pinned_relation", "by_relation_list", "by_pinned_relation_list"]
    );
    if let Some(DocumentValue::PinnedRelationList(list)) = value_of(&all, "by_pinned_relation_list") {
        assert_eq!(list.len(), 1);
        assert_eq!(list[0].view_id, child_view_id);
    } else {
        panic!("No pinned relation list value!");
    }
}

#[test]
fn dangling_relation_is_a_typed_error() {
    let missing = DocumentId::from_operation_id(&operation_id("missing"));
    let parent = view(
        "parent",
        vec![
            field("first", OperationValue::Integer(1)),
            field("by_relation", OperationValue::Relation(missing.clone())),
        ],
    );
    let mut views = DocumentViews::new();
    views.add(parent.clone());
    assert_eq!(
        materialize(&parent, &views, 4),
        Err(MaterializationError::NotFound(missing.as_str().to_string()))
    );
}

#[test]
fn dangling_pinned_relation_names_the_view() {
    let a = operation_id("a");
    let b = operation_id("b");
    let mut tips = vec![a, b];
    tips.sort_by(|x, y| x.as_str().cmp(y.as_str()));
    let pinned = DocumentViewId::from_operation_ids(&tips).unwrap();
    let parent = view(
        "parent",
        vec![field("pins", OperationValue::PinnedRelationList(vec![pinned.clone()]))],
    );
    let expected = format!("{}_{}", tips[0].as_str(), tips[1].as_str());
    assert_eq!(pinned.to_text(), expected);
    assert_eq!(
        materialize(&parent, &DocumentViews::new(), 4),
        Err(MaterializationError::NotFound(expected))
    );
}

#[test]
fn the_latest_view_of_a_document_is_taken() {
    let create = operation_id("create");
    let update = operation_id("update");
    let document_id = DocumentId::from_operation_id(&create);
    let old = DocumentView {
        id: DocumentViewId::single(&create),
        document_id: document_id.clone(),
        fields: vec![field("n", OperationValue::Integer(1))],
    };
    let new = DocumentView {
        id: DocumentViewId::single(&update),
        document_id: document_id.clone(),
        fields: vec![field("n", OperationValue::Integer(2))],
    };
    let mut views = DocumentViews::new();
    views.add(old.clone());
    views.add(new.clone());
    assert_eq!(views.latest(&document_id), Some(&new));
    assert_eq!(views.by_view_id(&old.id), Some(&old));

    let parent = view(
        "parent",
        vec![
            field("latest", OperationValue::Relation(document_id.clone())),
            field("pinned", OperationValue::PinnedRelation(old.id.clone())),
        ],
    );
    let doc = materialize(&parent, &views, 1).unwrap();
    match (value_of(&doc, "latest"), value_of(&doc, "pinned")) {
        (Some(DocumentValue::Relation(latest)), Some(DocumentValue::PinnedRelation(pinned))) => {
            assert_eq!(latest.view_id, new.id);
            assert!(matches!(value_of(latest, "n"), Some(DocumentValue::Integer(2))));
            assert_eq!(pinned.view_id, old.id);
            assert!(matches!(value_of(pinned, "n"), Some(DocumentValue::Integer(1))));
        }
        _ => panic!("relations are missing"),
    }
}

#[test]
fn a_cycle_of_relations_ends_at_the_depth() {
    let a = operation_id("a");
    let b = operation_id("b");
    let doc_a = DocumentId::from_operation_id(&a);
    let doc_b = DocumentId::from_operation_id(&b);
    let view_a = DocumentView {
        id: DocumentViewId::single(&a),
        document_id: doc_a.clone(),
        fields: vec![field("other", OperationValue::Relation(doc_b.clone()))],
    };
    let view_b = DocumentView {
        id: DocumentViewId::single(&b),
        document_id: doc_b.clone(),
        fields: vec![field("other", OperationValue::Relation(doc_a.clone()))],
    };
    let mut views = DocumentViews::new();
    views.add(view_a.clone());
    views.add(view_b);
    for depth in [0, 1, 2, 7] {
        assert_eq!(materialize(&view_a, &views, depth), Err(MaterializationError::DepthExceeded));
    }
    // An empty list asks for no step.
    let flat = view("flat", vec![field("none", OperationValue::RelationList(vec![]))]);
    let doc = materialize(&flat, &views, 0).unwrap();
    assert_eq!(doc.fields[0].value, DocumentValue::RelationList(vec![]));
}
