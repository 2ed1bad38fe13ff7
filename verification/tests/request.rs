use aquadoggo::cursor::{OperationCursor, PaginationCursor};
use aquadoggo::ids::{DocumentId, DocumentViewId, OperationId, SchemaId};
use aquadoggo::operation::{FieldType, OperationValue};
use aquadoggo::query::{
    Direction, Field, Filter, MetaField, Operator, Order, Pagination, QueryError, Select,
    DEFAULT_PAGE_SIZE,
};
use aquadoggo::request::{
    CollectionRequest, FieldCondition, FilterCondition, FilterValue, MetaFilter,
    RequestDirection, RequestOperator, Schema, SchemaField,
};

const HASH: &str = "0020cfb0fa37f36d082faad3886a9ffbcc2813b7afe90f0609a556d425f1a76ec805";

fn schema() -> Schema {
    Schema {
        id: SchemaId::new("venue_0020c65567ae37efea293e34a9c7d13f8f2bf23dbdc3b5c7b9ab46293111c48fc78b"),
        fields: vec![
            SchemaField { name: "age".to_string(), field_type: FieldType::Integer },
            SchemaField { name: "name".to_string(), field_type: FieldType::String },
            SchemaField { name: "owner".to_string(), field_type: FieldType::Relation },
        ],
    }
}

fn request() -> CollectionRequest {
    CollectionRequest {
        schema_id: "venue".to_string(),
        first: None,
        after: None,
        meta: None,
        filter: vec![],
        order_by: None,
        order_direction: RequestDirection::Ascending,
        selections: vec![],
    }
}

fn condition(name: &str, operator: RequestOperator, value: Option<FilterValue>) -> FieldCondition {
    FieldCondition { field_name: name.to_string(), condition: FilterCondition { operator, value } }
}

fn invalid(message: &str) -> QueryError {
    QueryError::InvalidArgument(message.to_string())
}

#[test]
fn empty_request_gives_the_default_query() {
    let query = request().to_query(&schema()).unwrap();
    assert_eq!(query.pagination.first(), DEFAULT_PAGE_SIZE);
    assert_eq!(query.pagination.first(), 200);
    assert_eq!(query.pagination.after(), None);
    assert_eq!(query.pagination, Pagination::new(None, None));
    assert_eq!(query.order, Order::new());
    assert_eq!(query.order.field, None);
    assert_eq!(query.order.direction, Direction::Ascending);
    assert_eq!(query.order.effective_field(), Field::Meta(MetaField::DocumentId));
    assert_eq!(query.filter, Filter::new());
    assert_eq!(query.filter.len(), 0);
    // Without selections every field of the schema is selected, in its order.
    assert_eq!(query.select.len(), 3);
    assert_eq!(query.select.get(0), Some(&Field::Field("age".to_string())));
    assert_eq!(query.select.get(1), Some(&Field::Field("name".to_string())));
    assert_eq!(query.select.get(2), Some(&Field::Field("owner".to_string())));
    assert_eq!(query.select.get(3), None);
}

#[test]
fn page_size_is_never_zero() {
    let mut r = request();
    r.first = Some(0);
    assert_eq!(r.to_query(&schema()).unwrap().pagination.first(), 200);
    r.first = Some(1);
    assert_eq!(r.to_query(&schema()).unwrap().pagination.first(), 1);
    r.first = Some(u64::MAX);
    assert_eq!(r.to_query(&schema()).unwrap().pagination.first(), u64::MAX);
}

#[test]
fn cursor_is_decoded() {
    let id = OperationId::new(HASH).unwrap();
    let cursor = PaginationCursor::new(OperationCursor::new(0, "name", &id));
    let mut r = request();
    r.after = Some(cursor.encode());
    let query = r.to_query(&schema()).unwrap();
    assert_eq!(query.pagination.after(), Some(&cursor));
}

#[test]
fn undecodable_cursor_is_an_invalid_argument() {
    let mut r = request();
    r.after = Some("not a cursor".to_string());
    assert_eq!(r.to_query(&schema()), Err(invalid("Invalid operation cursor")));
    r.after = Some(format!("{}_{}", &HASH[4..], &HASH[4..]));
    assert_eq!(r.to_query(&schema()), Err(invalid("Invalid amount of cursor parts")));
    // The cursor is checked before anything else.
    r.filter = vec![condition("name", RequestOperator::Eq, None)];
    assert_eq!(r.to_query(&schema()), Err(invalid("Invalid amount of cursor parts")));
}

#[test]
fn meta_filter_on_the_document_id() {
    let mut r = request();
    r.meta = Some(MetaFilter {
        owner: None,
        deleted: None,
        edited: None,
        document_id: Some(HASH.to_string()),
        view_id: None,
    });
    r.filter = vec![condition("age", RequestOperator::Gt, Some(FilterValue::IntVal(3)))];
    let query = r.to_query(&schema()).unwrap();
    assert_eq!(query.filter.len(), 2);
    let first = query.filter.get(0).unwrap();
    assert_eq!(first.field, Field::Meta(MetaField::DocumentId));
    assert_eq!(first.operator, Operator::Eq);
    assert_eq!(first.value, OperationValue::Relation(DocumentId::new(HASH).unwrap()));
    let second = query.filter.get(1).unwrap();
    assert_eq!(second.field, Field::Field("age".to_string()));
    assert_eq!(second.operator, Operator::Gt);
    assert_eq!(second.value, OperationValue::Integer(3));
}

#[test]
fn meta_filter_on_owner_and_view_id() {
    let other = "0020dfb0fa37f36d082faad3886a9ffbcc2813b7afe90f0609a556d425f1a76ec805";
    let view_text = format!("{}_{}", HASH, other);
    let mut r = request();
    r.meta = Some(MetaFilter {
        owner: Some("2f8e50c2ede6d936".to_string()),
        deleted: Some(false),
        edited: None,
        document_id: Some(HASH.to_string()),
        view_id: Some(view_text.clone()),
    });
    let query = r.to_query(&schema()).unwrap();
    assert_eq!(query.filter.len(), 3);
    let owner = query.filter.get(0).unwrap();
    assert_eq!(owner.field, Field::Meta(MetaField::Owner));
    assert_eq!(owner.operator, Operator::Eq);
    assert_eq!(owner.value, OperationValue::String("2f8e50c2ede6d936".to_string()));
    assert_eq!(query.filter.get(1).unwrap().field, Field::Meta(MetaField::DocumentId));
    let view = query.filter.get(2).unwrap();
    assert_eq!(view.field, Field::Meta(MetaField::DocumentViewId));
    assert_eq!(view.operator, Operator::Eq);
    assert_eq!(
        view.value,
        OperationValue::PinnedRelation(DocumentViewId::from_text(&view_text).unwrap())
    );

    // A view id alone is a condition, too.
    r.meta = Some(MetaFilter {
        owner: None,
        deleted: None,
        edited: None,
        document_id: None,
        view_id: Some(HASH.to_string()),
    });
    let query = r.to_query(&schema()).unwrap();
    assert_eq!(query.filter.len(), 1);
    assert_eq!(query.filter.get(0).unwrap().field, Field::Meta(MetaField::DocumentViewId));

    // A malformed view id is an invalid argument.
    r.meta.as_mut().unwrap().view_id = Some(format!("{}_{}", other, HASH));
    assert_eq!(r.to_query(&schema()), Err(invalid("Invalid document view id")));
    r.meta.as_mut().unwrap().view_id = Some("abc".to_string());
    assert_eq!(r.to_query(&schema()), Err(invalid("Invalid document view id")));
    // A malformed document id is reported first.
    r.meta.as_mut().unwrap().document_id = Some("xyz".to_string());
    assert_eq!(r.to_query(&schema()), Err(invalid("invalid hex encoding in hash string")));
}

#[test]
fn meta_filter_with_a_malformed_document_id() {
    let mut r = request();
    r.meta = Some(MetaFilter {
        owner: None,
        deleted: None,
        edited: None,
        document_id: Some("xyz".to_string()),
        view_id: None,
    });
    assert_eq!(r.to_query(&schema()), Err(invalid("invalid hex encoding in hash string")));
    r.meta.as_mut().unwrap().document_id = Some("0020".to_string());
    assert_eq!(
        r.to_query(&schema()),
        Err(invalid("invalid hash length 2 bytes, expected 34 bytes"))
    );
}

#[test]
fn every_operator_is_translated() {
    let mut r = request();
    let text = || Some(FilterValue::StringVal("x".to_string()));
    r.filter = vec![
        condition("name", RequestOperator::Contains, text()),
        condition("name", RequestOperator::Eq, text()),
        condition("age", RequestOperator::Gt, Some(FilterValue::IntVal(1))),
        condition("age", RequestOperator::Gte, Some(FilterValue::FloatVal(2.5f64.to_bits()))),
        condition("age", RequestOperator::In, Some(FilterValue::IntVal(7))),
        condition("age", RequestOperator::Lt, Some(FilterValue::BoolVal(true))),
        condition("age", RequestOperator::Lte, Some(FilterValue::ByteVal(vec![1, 2]))),
        condition("name", RequestOperator::NotContains, text()),
        condition("owner", RequestOperator::NotEq, Some(FilterValue::RelVal(Some(HASH.to_string())))),
        condition("age", RequestOperator::NotIn, Some(FilterValue::IntVal(7))),
    ];
    let query = r.to_query(&schema()).unwrap();
    let expected = vec![
        ("name", Operator::Contains, OperationValue::String("x".to_string())),
        ("name", Operator::Eq, OperationValue::String("x".to_string())),
        ("age", Operator::Gt, OperationValue::Integer(1)),
        ("age", Operator::Gte, OperationValue::Float(2.5f64.to_bits())),
        ("age", Operator::Lt, OperationValue::Boolean(true)),
        ("age", Operator::Lte, OperationValue::Bytes(vec![1, 2])),
        ("name", Operator::NotContains, OperationValue::String("x".to_string())),
        ("owner", Operator::NotEq, OperationValue::Relation(DocumentId::new(HASH).unwrap())),
    ];
    // The reserved operators add nothing and leave the others alone.
    assert_eq!(query.filter.len(), expected.len());
    for (k, (name, operator, value)) in expected.into_iter().enumerate() {
        let setting = query.filter.get(k).unwrap();
        assert_eq!(setting.field, Field::Field(name.to_string()));
        assert_eq!(setting.operator, operator);
        assert_eq!(setting.value, value);
    }
}

#[test]
fn contains_takes_text_only() {
    let mut r = request();
    r.filter = vec![condition("age", RequestOperator::Contains, Some(FilterValue::IntVal(1)))];
    assert_eq!(
        r.to_query(&schema()),
        Err(invalid("Contains filter can only be used for string fields"))
    );
    r.filter = vec![condition("age", RequestOperator::NotContains, Some(FilterValue::BoolVal(true)))];
    assert_eq!(
        r.to_query(&schema()),
        Err(invalid("Not-contains filter can only be used for string fields"))
    );
}

#[test]
fn conditions_without_a_usable_value_fail() {
    let mut r = request();
    r.filter = vec![condition("age", RequestOperator::Eq, None)];
    assert_eq!(r.to_query(&schema()), Err(invalid("No value provided")));
    // The reserved operators add nothing, whatever their value.
    for operator in [RequestOperator::In, RequestOperator::NotIn] {
        for value in [None, Some(FilterValue::Other), Some(FilterValue::RelVal(None))] {
            r.filter = vec![
                condition("age", RequestOperator::Eq, Some(FilterValue::IntVal(1))),
                condition("age", operator, value),
                condition("name", RequestOperator::Lt, Some(FilterValue::IntVal(2))),
            ];
            let query = r.to_query(&schema()).unwrap();
            assert_eq!(query.filter.len(), 2);
            assert_eq!(query.filter.get(0).unwrap().operator, Operator::Eq);
            assert_eq!(query.filter.get(1).unwrap().operator, Operator::Lt);
        }
    }
    r.filter = vec![condition("age", RequestOperator::Eq, Some(FilterValue::Other))];
    assert_eq!(r.to_query(&schema()), Err(invalid("Unsupported")));
    r.filter = vec![condition("owner", RequestOperator::Eq, Some(FilterValue::RelVal(None)))];
    assert_eq!(r.to_query(&schema()), Err(invalid("No document id provided")));
    r.filter = vec![condition(
        "owner",
        RequestOperator::Eq,
        Some(FilterValue::RelVal(Some("zz".to_string()))),
    )];
    assert_eq!(r.to_query(&schema()), Err(invalid("invalid hex encoding in hash string")));
    // The first failing condition decides.
    r.filter = vec![
        condition("age", RequestOperator::Eq, Some(FilterValue::IntVal(1))),
        condition("age", RequestOperator::Eq, Some(FilterValue::Other)),
        condition("age", RequestOperator::Eq, None),
    ];
    assert_eq!(r.to_query(&schema()), Err(invalid("Unsupported")));
}

#[test]
fn to_operation_value_of_each_kind() {
    let value = |v| FilterCondition { operator: RequestOperator::Eq, value: v }.to_operation_value();
    assert_eq!(value(Some(FilterValue::BoolVal(false))), Ok(OperationValue::Boolean(false)));
    assert_eq!(value(Some(FilterValue::ByteVal(vec![9]))), Ok(OperationValue::Bytes(vec![9])));
    assert_eq!(
        value(Some(FilterValue::FloatVal(1.5f64.to_bits()))),
        Ok(OperationValue::Float(1.5f64.to_bits()))
    );
    assert_eq!(value(Some(FilterValue::IntVal(-3))), Ok(OperationValue::Integer(-3)));
    assert_eq!(
        value(Some(FilterValue::StringVal("a".to_string()))),
        Ok(OperationValue::String("a".to_string()))
    );
    assert_eq!(
        value(Some(FilterValue::RelVal(Some(HASH.to_string())))),
        Ok(OperationValue::Relation(DocumentId::new(HASH).unwrap()))
    );
    assert_eq!(value(None), Err(invalid("No value provided")));
}

#[test]
fn order_by_reserved_and_named_fields() {
    let mut r = request();
    r.order_direction = RequestDirection::Descending;
    // The direction counts only together with a field.
    assert_eq!(r.to_query(&schema()).unwrap().order.direction, Direction::Ascending);
    for (name, field) in [
        ("OWNER", Field::Meta(MetaField::Owner)),
        ("DOCUMENT_ID", Field::Meta(MetaField::DocumentId)),
        ("DOCUMENT_VIEW_ID", Field::Meta(MetaField::DocumentViewId)),
        ("name", Field::Field("name".to_string())),
        ("owner", Field::Field("owner".to_string())),
    ] {
        r.order_by = Some(name.to_string());
        let order = r.to_query(&schema()).unwrap().order;
        assert_eq!(order.field, Some(field.clone()));
        assert_eq!(order.direction, Direction::Descending);
        assert_eq!(order.effective_field(), field);
    }
}

#[test]
fn selections_are_held_against_the_schema() {
    let mut r = request();
    r.selections = vec!["owner".to_string(), "age".to_string(), "age".to_string()];
    let select = r.to_query(&schema()).unwrap().select;
    let mut expected = Select::new();
    expected.add(&Field::Field("age".to_string()));
    expected.add(&Field::Field("owner".to_string()));
    assert_eq!(select, expected);
    assert_eq!(select.len(), 2);
    assert!(!select.contains(&Field::Field("name".to_string())));
}

#[test]
fn undeclared_fields_are_invalid_arguments() {
    // In the selections: the first undeclared name is reported.
    let mut r = request();
    r.selections =
        vec!["owner".to_string(), "undeclared".to_string(), "age".to_string(), "none".to_string()];
    assert_eq!(r.to_query(&schema()), Err(invalid("Undeclared field: undeclared")));
    // A selection of undeclared fields only does not become a selection of
    // every field.
    r.selections = vec!["undeclared".to_string()];
    assert_eq!(r.to_query(&schema()), Err(invalid("Undeclared field: undeclared")));
    let nothing = Schema { id: SchemaId::new("empty"), fields: vec![] };
    assert_eq!(r.to_query(&nothing), Err(invalid("Undeclared field: undeclared")));
    // A reserved name is no field of the schema.
    r.selections = vec!["OWNER".to_string()];
    assert_eq!(r.to_query(&schema()), Err(invalid("Undeclared field: OWNER")));

    // In the order.
    let mut r = request();
    r.order_by = Some("height".to_string());
    assert_eq!(r.to_query(&schema()), Err(invalid("Undeclared field: height")));
    r.order_by = Some("owner_".to_string());
    assert_eq!(r.to_query(&schema()), Err(invalid("Undeclared field: owner_")));

    // In the conditions, whatever the operator and the value.
    let mut r = request();
    r.filter = vec![
        condition("age", RequestOperator::Eq, Some(FilterValue::IntVal(1))),
        condition("height", RequestOperator::Eq, Some(FilterValue::IntVal(1))),
    ];
    assert_eq!(r.to_query(&schema()), Err(invalid("Undeclared field: height")));
    r.filter = vec![condition("height", RequestOperator::In, None)];
    assert_eq!(r.to_query(&schema()), Err(invalid("Undeclared field: height")));
    r.filter = vec![condition("", RequestOperator::Eq, None)];
    assert_eq!(r.to_query(&schema()), Err(invalid("Undeclared field: ")));

    // Conditions are checked before the order, and the order before the
    // selections.
    r.filter = vec![condition("height", RequestOperator::Eq, None)];
    r.order_by = Some("width".to_string());
    r.selections = vec!["depth".to_string()];
    assert_eq!(r.to_query(&schema()), Err(invalid("Undeclared field: height")));
    r.filter = vec![];
    assert_eq!(r.to_query(&schema()), Err(invalid("Undeclared field: width")));
    r.order_by = Some("DOCUMENT_ID".to_string());
    assert_eq!(r.to_query(&schema()), Err(invalid("Undeclared field: depth")));
}
