//! Requests for the documents of a schema as they arrive from a client, and
//! their translation into the query model.

use vstd::prelude::*;
use crate::cursor::{is_cursor_token, token_error, decoded_token, CursorError, PaginationCursor};
use crate::hash::{hash_error_message, is_hash_text};
use crate::ids::{is_view_id, DocumentId, DocumentViewId, SchemaId, ID_SEPARATOR};
use crate::operation::{copy_bytes, FieldType, OperationValue, Value};
use crate::query::{
    page_size, with_field, Direction, Field, FieldView, Filter, FilterSettingView, MetaField,
    Operator, Order, OrderView, Pagination, PaginationView, Query, QueryError, QueryView, Select,
};
use crate::text::{same_text, split_text, texts};

verus! {

/// The comparisons that a request can ask for.
#[derive(Debug, Clone, Copy, PartialEq, Eq, Structural)]
pub enum RequestOperator {
    Contains,
    Eq,
    Gt,
    Gte,
    In,
    Lt,
    Lte,
    NotContains,
    NotEq,
    NotIn,
}

/// The directions that a request can ask for.
#[derive(Debug, Clone, Copy, PartialEq, Eq, Structural)]
pub enum RequestDirection {
    Ascending,
    Descending,
}

/// The value that a condition of a request compares with.
#[derive(Debug, PartialEq, Eq)]
pub enum FilterValue {
    BoolVal(bool),
    ByteVal(Vec<u8>),
    /// The bit pattern of a double.
    FloatVal(u64),
    IntVal(i64),
    StringVal(String),
    /// A related document, with its document id if the request gives one.
    RelVal(Option<String>),
    /// Any other kind of value.
    Other,
}

/// One condition of a request: an operator and, if given, a value.
#[derive(Debug, PartialEq, Eq)]
pub struct FilterCondition {
    pub operator: RequestOperator,
    pub value: Option<FilterValue>,
}

/// A condition of a request together with the field it is about.
#[derive(Debug, PartialEq, Eq)]
pub struct FieldCondition {
    pub field_name: String,
    pub condition: FilterCondition,
}

/// Conditions on the reserved fields of a document.
#[derive(Debug, PartialEq, Eq)]
pub struct MetaFilter {
    pub owner: Option<String>,
    pub deleted: Option<bool>,
    pub edited: Option<bool>,
    pub document_id: Option<String>,
    pub view_id: Option<String>,
}

/// A request for documents of one schema.
#[derive(Debug, PartialEq, Eq)]
pub struct CollectionRequest {
    pub schema_id: String,
    pub first: Option<u64>,
    pub after: Option<String>,
    pub meta: Option<MetaFilter>,
    pub filter: Vec<FieldCondition>,
    pub order_by: Option<String>,
    pub order_direction: RequestDirection,
    pub selections: Vec<String>,
}

/// A field that a schema declares.
#[derive(Debug, PartialEq, Eq)]
pub struct SchemaField {
    pub name: String,
    pub field_type: FieldType,
}

/// A schema: its id and the fields it declares, in their declared order.
#[derive(Debug, PartialEq, Eq)]
pub struct Schema {
    pub id: SchemaId,
    pub fields: Vec<SchemaField>,
}

/// What the value of a condition is as a field value, or the message that
/// says why it is none.
pub open spec fn value_of_condition(condition: FilterCondition) -> Result<Value, Seq<char>> {
    match condition.value {
        None => Err("No value provided"@),
        Some(FilterValue::BoolVal(b)) => Ok(Value::Boolean(b)),
        Some(FilterValue::ByteVal(bytes)) => Ok(Value::Bytes(bytes@)),
        Some(FilterValue::FloatVal(bits)) => Ok(Value::Float(bits)),
        Some(FilterValue::IntVal(n)) => Ok(Value::Integer(n)),
        Some(FilterValue::StringVal(text)) => Ok(Value::Text(text@)),
        Some(FilterValue::RelVal(Some(id))) => if is_hash_text(id@) {
            Ok(Value::Relation(id@))
        } else {
            Err(hash_error_message(id@))
        },
        Some(FilterValue::RelVal(None)) => Err("No document id provided"@),
        Some(FilterValue::Other) => Err("Unsupported"@),
    }
}

/// The operator of the query model that a request operator becomes; the
/// reserved operators become none.
pub open spec fn operator_of(operator: RequestOperator) -> Option<Operator> {
    match operator {
        RequestOperator::Contains => Some(Operator::Contains),
        RequestOperator::Eq => Some(Operator::Eq),
        RequestOperator::Gt => Some(Operator::Gt),
        RequestOperator::Gte => Some(Operator::Gte),
        RequestOperator::In => None,
        RequestOperator::Lt => Some(Operator::Lt),
        RequestOperator::Lte => Some(Operator::Lte),
        RequestOperator::NotContains => Some(Operator::NotContains),
        RequestOperator::NotEq => Some(Operator::NotEq),
        RequestOperator::NotIn => None,
    }
}

/// Whether the schema declares a field of the given name.
pub open spec fn declares(fields: Seq<SchemaField>, name: Seq<char>) -> bool {
    exists|j: int| 0 <= j < fields.len() && (#[trigger] fields[j]).name@ == name
}

/// The message of the error that a reference to an undeclared field
/// causes: it names the field.
pub open spec fn undeclared_message(name: Seq<char>) -> Seq<char> {
    "Undeclared field: "@ + name
}

/// The message of the error that a malformed view id in the conditions on
/// reserved fields causes.
pub open spec fn view_id_message() -> Seq<char> {
    "Invalid document view id"@
}

/// What one condition of a request adds to the filter: a setting, nothing,
/// or the message of the error it causes.
///
/// The field has to be declared by the schema. The reserved operators `In`
/// and `NotIn` add nothing, whatever their value. Of the other operators
/// each needs a usable value, and `Contains` and `NotContains` a text.
pub open spec fn translated_condition(condition: FieldCondition, fields: Seq<SchemaField>) -> Result<
    Option<FilterSettingView>,
    Seq<char>,
> {
    if !declares(fields, condition.field_name@) {
        Err(undeclared_message(condition.field_name@))
    } else {
        match operator_of(condition.condition.operator) {
            None => Ok(None),
            Some(operator) => match value_of_condition(condition.condition) {
                Err(message) => Err(message),
                Ok(value) => if operator == Operator::Contains && !(value is Text) {
                    Err("Contains filter can only be used for string fields"@)
                } else if operator == Operator::NotContains && !(value is Text) {
                    Err("Not-contains filter can only be used for string fields"@)
                } else {
                    Ok(
                        Some(
                            FilterSettingView {
                                field: FieldView::Named(condition.field_name@),
                                operator,
                                value,
                            },
                        ),
                    )
                },
            },
        }
    }
}

/// What the conditions of a request add to the filter, in their order, or
/// the message of the first error among them.
pub open spec fn translated_conditions(conditions: Seq<FieldCondition>, fields: Seq<SchemaField>) -> Result<
    Seq<FilterSettingView>,
    Seq<char>,
>
    decreases conditions.len(),
{
    if conditions.len() == 0 {
        Ok(Seq::empty())
    } else {
        match translated_conditions(conditions.drop_last(), fields) {
            Err(message) => Err(message),
            Ok(settings) => match translated_condition(conditions.last(), fields) {
                Err(message) => Err(message),
                Ok(Some(setting)) => Ok(settings.push(setting)),
                Ok(None) => Ok(settings),
            },
        }
    }
}

/// The condition that a reserved field equals a value.
pub open spec fn meta_setting(field: MetaField, value: Value) -> FilterSettingView {
    FilterSettingView { field: FieldView::Meta(field), operator: Operator::Eq, value }
}

/// What the condition on the owner adds to the filter.
pub open spec fn owner_settings(owner: Option<String>) -> Seq<FilterSettingView> {
    match owner {
        Some(owner) => seq![meta_setting(MetaField::Owner, Value::Text(owner@))],
        None => Seq::empty(),
    }
}

/// What the condition on the document id adds to the filter, or the
/// message that says why the id is none.
pub open spec fn document_id_settings(id: Option<String>) -> Result<
    Seq<FilterSettingView>,
    Seq<char>,
> {
    match id {
        Some(id) => if is_hash_text(id@) {
            Ok(seq![meta_setting(MetaField::DocumentId, Value::Relation(id@))])
        } else {
            Err(hash_error_message(id@))
        },
        None => Ok(Seq::empty()),
    }
}

/// What the condition on the document view id adds to the filter, or the
/// message that says that the id is none.
pub open spec fn view_id_settings(id: Option<String>) -> Result<Seq<FilterSettingView>, Seq<char>> {
    match id {
        Some(id) => if is_view_id(split_text(id@, ID_SEPARATOR)) {
            Ok(
                seq![
                    meta_setting(
                        MetaField::DocumentViewId,
                        Value::PinnedRelation(split_text(id@, ID_SEPARATOR)),
                    ),
                ],
            )
        } else {
            Err(view_id_message())
        },
        None => Ok(Seq::empty()),
    }
}

/// What the conditions on the reserved fields add to the filter: the owner
/// has to be the given one, the document the one with the given id, and
/// its view the one with the given view id, each where the request says
/// so. A malformed document id is reported before a malformed view id.
pub open spec fn meta_settings(meta: Option<MetaFilter>) -> Result<
    Seq<FilterSettingView>,
    Seq<char>,
> {
    match meta {
        Some(meta) => match document_id_settings(meta.document_id) {
            Err(message) => Err(message),
            Ok(document) => match view_id_settings(meta.view_id) {
                Err(message) => Err(message),
                Ok(view) => Ok(owner_settings(meta.owner) + document + view),
            },
        },
        None => Ok(Seq::empty()),
    }
}

/// The field that a request orders by: one of the reserved fields where it
/// gives their name in capitals, else the schema field of that name.
pub open spec fn order_field(name: Seq<char>) -> FieldView {
    if name == "OWNER"@ {
        FieldView::Meta(MetaField::Owner)
    } else if name == "DOCUMENT_ID"@ {
        FieldView::Meta(MetaField::DocumentId)
    } else if name == "DOCUMENT_VIEW_ID"@ {
        FieldView::Meta(MetaField::DocumentViewId)
    } else {
        FieldView::Named(name)
    }
}

/// Whether a name is that of a reserved field.
pub open spec fn is_reserved(name: Seq<char>) -> bool {
    name == "OWNER"@ || name == "DOCUMENT_ID"@ || name == "DOCUMENT_VIEW_ID"@
}

/// The order that a request asks for, or the message that says that it
/// names a field that is neither reserved nor declared by the schema. The
/// direction counts only where the request names a field.
pub open spec fn order_of(
    order_by: Option<String>,
    direction: RequestDirection,
    fields: Seq<SchemaField>,
) -> Result<OrderView, Seq<char>> {
    match order_by {
        Some(name) => if is_reserved(name@) || declares(fields, name@) {
            Ok(
                OrderView {
                    field: Some(order_field(name@)),
                    direction: match direction {
                        RequestDirection::Ascending => Direction::Ascending,
                        RequestDirection::Descending => Direction::Descending,
                    },
                },
            )
        } else {
            Err(undeclared_message(name@))
        },
        None => Ok(OrderView { field: None, direction: Direction::Ascending }),
    }
}

/// The first of the selections that names no field of the schema.
pub open spec fn undeclared_selection(fields: Seq<SchemaField>, selections: Seq<String>) -> Option<
    Seq<char>,
>
    decreases selections.len(),
{
    if selections.len() == 0 {
        None
    } else {
        match undeclared_selection(fields, selections.drop_last()) {
            Some(name) => Some(name),
            None => if declares(fields, selections.last()@) {
                None
            } else {
                Some(selections.last()@)
            },
        }
    }
}

/// The fields that a request selects: of the fields that the schema
/// declares, in their declared order, those that the request names, or all
/// of them where it names none.
pub open spec fn selected_fields(fields: Seq<SchemaField>, selections: Seq<String>) -> Seq<
    FieldView,
>
    decreases fields.len(),
{
    if fields.len() == 0 {
        Seq::empty()
    } else {
        let before = selected_fields(fields.drop_last(), selections);
        let name = fields.last().name@;
        if selections.len() == 0 || texts(selections).contains(name) {
            with_field(before, FieldView::Named(name))
        } else {
            before
        }
    }
}

/// The message of a cursor error.
pub open spec fn cursor_error_message(e: CursorError) -> Seq<char> {
    match e {
        CursorError::PartCount => "Invalid amount of cursor parts"@,
        CursorError::OperationCursor => "Invalid operation cursor"@,
        CursorError::RootOperationCursor => "Invalid root operation cursor"@,
        CursorError::RootViewId => "Invalid root document view id"@,
    }
}

/// The query that a request stands for, or the message that says why it
/// stands for none. The cursor is checked first, then the conditions on the
/// reserved fields, then the other conditions in their order, then the
/// order, then the selections. Every field that the request names has to
/// be declared by the schema.
pub open spec fn query_of(request: CollectionRequest, schema: Schema) -> Result<
    QueryView,
    Seq<char>,
> {
    if request.after matches Some(token) && !is_cursor_token(token@) {
        Err(cursor_error_message(token_error(request.after->0@)))
    } else {
        match meta_settings(request.meta) {
            Err(message) => Err(message),
            Ok(meta) => match translated_conditions(request.filter@, schema.fields@) {
                Err(message) => Err(message),
                Ok(settings) => match order_of(
                    request.order_by,
                    request.order_direction,
                    schema.fields@,
                ) {
                    Err(message) => Err(message),
                    Ok(order) => match undeclared_selection(schema.fields@, request.selections@) {
                        Some(name) => Err(undeclared_message(name)),
                        None => Ok(
                            QueryView {
                                pagination: PaginationView {
                                    first: page_size(request.first),
                                    after: match request.after {
                                        Some(token) => Some(decoded_token(token@)),
                                        None => None,
                                    },
                                },
                                order,
                                filter: meta + settings,
                                select: selected_fields(schema.fields@, request.selections@),
                            },
                        ),
                    },
                },
            },
        }
    }
}

/// Only declared fields are selected: every field that a request selects
/// is a field of the schema, whatever names the request gives, and no field
/// is selected twice.
pub proof fn law_selected_fields_are_declared(fields: Seq<SchemaField>, selections: Seq<String>)
    ensures
        forall|k: int|
            0 <= k < selected_fields(fields, selections).len() ==> exists|j: int|
                0 <= j < fields.len() && #[trigger] selected_fields(fields, selections)[k]
                    == FieldView::Named(fields[j].name@),
        selected_fields(fields, selections).no_duplicates(),
    decreases fields.len(),
{
    if fields.len() > 0 {
        let front = fields.drop_last();
        let before = selected_fields(front, selections);
        let all = selected_fields(fields, selections);
        law_selected_fields_are_declared(front, selections);
        assert forall|k: int| 0 <= k < all.len() implies exists|j: int|
            0 <= j < fields.len() && #[trigger] all[k] == FieldView::Named(fields[j].name@) by {
            if k < before.len() {
                let j = choose|j: int|
                    0 <= j < front.len() && before[k] == FieldView::Named(front[j].name@);
                assert(front[j] == fields[j]);
                assert(all[k] == FieldView::Named(fields[j].name@));
            } else {
                assert(all[k] == FieldView::Named(fields[fields.len() - 1].name@));
            }
        }
    }
}

/// Where no selection is undeclared, every selection is declared.
proof fn lemma_all_declared(fields: Seq<SchemaField>, selections: Seq<String>, k: int)
    requires
        undeclared_selection(fields, selections) is None,
        0 <= k < selections.len(),
    ensures
        declares(fields, selections[k]@),
    decreases selections.len(),
{
    if k < selections.len() - 1 {
        lemma_all_declared(fields, selections.drop_last(), k);
    }
}

/// A declared field that a request names is selected.
proof fn lemma_named_is_selected(fields: Seq<SchemaField>, selections: Seq<String>, j: int)
    requires
        0 <= j < fields.len(),
        texts(selections).contains(fields[j].name@),
    ensures
        selected_fields(fields, selections).contains(FieldView::Named(fields[j].name@)),
    decreases fields.len(),
{
    let wanted = FieldView::Named(fields[j].name@);
    let front = fields.drop_last();
    let before = selected_fields(front, selections);
    let all = selected_fields(fields, selections);
    if j < fields.len() - 1 {
        assert(front[j] == fields[j]);
        lemma_named_is_selected(front, selections, j);
        let c = choose|c: int| 0 <= c < before.len() && before[c] == wanted;
        assert(all[c] == wanted);
    } else {
        if before.contains(wanted) {
        } else {
            assert(all[before.len() as int] == wanted);
        }
    }
}

/// A selection is never widened: where a request names fields, the query
/// selects each of them, so that it never selects nothing, which would
/// stand for every field.
pub proof fn law_selection_is_kept(fields: Seq<SchemaField>, selections: Seq<String>)
    requires
        selections.len() > 0,
        undeclared_selection(fields, selections) is None,
    ensures
        selected_fields(fields, selections).len() > 0,
        forall|k: int|
            0 <= k < selections.len() ==> selected_fields(fields, selections).contains(
                FieldView::Named((#[trigger] selections[k])@),
            ),
{
    assert forall|k: int| 0 <= k < selections.len() implies selected_fields(
        fields,
        selections,
    ).contains(FieldView::Named((#[trigger] selections[k])@)) by {
        lemma_all_declared(fields, selections, k);
        let j = choose|j: int| 0 <= j < fields.len() && (#[trigger] fields[j]).name@ == selections[k]@;
        assert(texts(selections)[k] == selections[k]@);
        lemma_named_is_selected(fields, selections, j);
    }
    assert(selected_fields(fields, selections).contains(FieldView::Named(selections[0]@)));
}

/// The page size of every request is positive.
pub proof fn law_page_size_is_positive(first: Option<u64>)
    ensures
        page_size(first) > 0,
{
}

/// Whether a vector of strings holds the given text.
fn holds_text(strings: &Vec<String>, text: &str) -> (r: bool)
    ensures
        r == texts(strings@).contains(text@),
{
    let mut i: usize = 0;
    while i < strings.len()
        invariant
            i <= strings.len(),
            forall|j: int| 0 <= j < i ==> texts(strings@)[j] != text@,
        decreases strings.len() - i,
    {
        if same_text(strings[i].as_str(), text) {
            assert(texts(strings@)[i as int] == text@);
            return true;
        }
        i += 1;
    }
    false
}

impl FilterCondition {
    /// The value of the condition as a field value. Fails where the
    /// condition has no value, where the value is of a kind that cannot be
    /// compared with, and where a related document comes without an id or
    /// with one that is no hash text.
    pub fn to_operation_value(&self) -> (r: Result<OperationValue, QueryError>)
        ensures
            match r {
                Ok(value) => value_of_condition(*self) == Ok::<Value, Seq<char>>(value@),
                Err(e) => value_of_condition(*self) == Err::<Value, Seq<char>>(e@),
            },
    {
        match &self.value {
            Some(value) => match value {
                FilterValue::BoolVal(b) => Ok(OperationValue::Boolean(*b)),
                FilterValue::ByteVal(bytes) => Ok(OperationValue::Bytes(copy_bytes(bytes))),
                FilterValue::FloatVal(bits) => Ok(OperationValue::Float(*bits)),
                FilterValue::IntVal(n) => Ok(OperationValue::Integer(*n)),
                FilterValue::StringVal(text) => Ok(OperationValue::String(text.clone())),
                FilterValue::RelVal(relation) => match relation {
                    Some(id) => match DocumentId::new(id.as_str()) {
                        Ok(document_id) => Ok(OperationValue::Relation(document_id)),
                        Err(e) => Err(QueryError::InvalidArgument(e.message)),
                    },
                    None => Err(
                        QueryError::InvalidArgument("No document id provided".to_owned()),
                    ),
                },
                FilterValue::Other => Err(QueryError::InvalidArgument("Unsupported".to_owned())),
            },
            None => Err(QueryError::InvalidArgument("No value provided".to_owned())),
        }
    }
}

/// Whether the schema declares a field of the given name.
fn is_declared(schema: &Schema, name: &str) -> (r: bool)
    ensures
        r == declares(schema.fields@, name@),
{
    let mut i: usize = 0;
    while i < schema.fields.len()
        invariant
            i <= schema.fields.len(),
            forall|j: int| 0 <= j < i ==> (#[trigger] schema.fields@[j]).name@ != name@,
        decreases schema.fields.len() - i,
    {
        if same_text(schema.fields[i].name.as_str(), name) {
            return true;
        }
        i += 1;
    }
    false
}

/// The error that a reference to an undeclared field causes.
fn undeclared(name: &str) -> (e: QueryError)
    ensures
        e@ == undeclared_message(name@),
{
    let mut message = "Undeclared field: ".to_owned();
    message.append(name);
    QueryError::InvalidArgument(message)
}

impl CollectionRequest {
    /// Translates the request into a query on the documents of the given
    /// schema, checking it on the way. A malformed cursor, a malformed id,
    /// a value of the wrong kind and a reference to a field that the
    /// schema does not declare are each an invalid argument.
    pub fn to_query(&self, schema: &Schema) -> (r: Result<Query, QueryError>)
        ensures
            match r {
                Ok(query) => query_of(*self, *schema) == Ok::<QueryView, Seq<char>>(query@),
                Err(e) => query_of(*self, *schema) == Err::<QueryView, Seq<char>>(e@),
            },
    {
        let mut order = Order::new();
        let mut filter = Filter::new();
        let mut select = Select::new();

        let after = match &self.after {
            Some(token) => match PaginationCursor::decode(token.as_str()) {
                Ok(cursor) => Some(cursor),
                Err(e) => {
                    return Err(QueryError::InvalidArgument(e.message()));
                },
            },
            None => None,
        };
        let pagination = Pagination::new(self.first, after);

        if let Some(meta_filter) = &self.meta {
            let document_id = match &meta_filter.document_id {
                Some(id) => match DocumentId::new(id.as_str()) {
                    Ok(document_id) => Some(document_id),
                    Err(e) => {
                        return Err(QueryError::InvalidArgument(e.message));
                    },
                },
                None => None,
            };
            let view_id = match &meta_filter.view_id {
                Some(id) => match DocumentViewId::from_text(id.as_str()) {
                    Ok(view_id) => Some(view_id),
                    Err(_) => {
                        return Err(
                            QueryError::InvalidArgument("Invalid document view id".to_owned()),
                        );
                    },
                },
                None => None,
            };
            if let Some(owner) = &meta_filter.owner {
                let value = OperationValue::String(owner.clone());
                filter.add(&Field::Meta(MetaField::Owner), &value);
            }
            if let Some(document_id) = document_id {
                let value = OperationValue::Relation(document_id);
                filter.add(&Field::Meta(MetaField::DocumentId), &value);
            }
            if let Some(view_id) = view_id {
                let value = OperationValue::PinnedRelation(view_id);
                filter.add(&Field::Meta(MetaField::DocumentViewId), &value);
            }
            assert(filter@ =~= owner_settings(meta_filter.owner) + document_id_settings(
                meta_filter.document_id,
            )->Ok_0 + view_id_settings(meta_filter.view_id)->Ok_0);
        }
        let ghost meta = filter@;
        let ghost declared = schema.fields@;
        assert(meta_settings(self.meta) == Ok::<Seq<FilterSettingView>, Seq<char>>(meta));

        let mut i: usize = 0;
        assert(self.filter@.take(0) =~= Seq::<FieldCondition>::empty());
        assert(meta + Seq::<FilterSettingView>::empty() =~= meta);
        while i < self.filter.len()
            invariant
                i <= self.filter.len(),
                declared == schema.fields@,
                self.after matches Some(token) ==> is_cursor_token(token@),
                meta_settings(self.meta) == Ok::<Seq<FilterSettingView>, Seq<char>>(meta),
                translated_conditions(self.filter@.take(i as int), declared) matches Ok(settings)
                    && filter@ == meta + settings,
            decreases self.filter.len() - i,
        {
            let entry = &self.filter[i];
            let ghost before = translated_conditions(self.filter@.take(i as int), declared)->Ok_0;
            proof {
                let longer = self.filter@.take(i + 1);
                assert(longer.drop_last() =~= self.filter@.take(i as int));
                assert(longer.last() == *entry);
            }
            if !is_declared(schema, entry.field_name.as_str()) {
                proof {
                    lemma_error_stays(self.filter@, declared, i as int);
                }
                return Err(undeclared(entry.field_name.as_str()));
            }
            let operator = match entry.condition.operator {
                RequestOperator::Contains => Some(Operator::Contains),
                RequestOperator::Eq => Some(Operator::Eq),
                RequestOperator::Gt => Some(Operator::Gt),
                RequestOperator::Gte => Some(Operator::Gte),
                RequestOperator::In => None,
                RequestOperator::Lt => Some(Operator::Lt),
                RequestOperator::Lte => Some(Operator::Lte),
                RequestOperator::NotContains => Some(Operator::NotContains),
                RequestOperator::NotEq => Some(Operator::NotEq),
                RequestOperator::NotIn => None,
            };
            if let Some(operator) = operator {
                let value = match entry.condition.to_operation_value() {
                    Ok(value) => value,
                    Err(e) => {
                        proof {
                            lemma_error_stays(self.filter@, declared, i as int);
                        }
                        return Err(e);
                    },
                };
                let field = Field::new(entry.field_name.as_str());
                match operator {
                    Operator::Contains => {
                        if let OperationValue::String(text) = &value {
                            filter.add_contains(&field, text.as_str());
                        } else {
                            proof {
                                lemma_error_stays(self.filter@, declared, i as int);
                            }
                            return Err(
                                QueryError::InvalidArgument(
                                    "Contains filter can only be used for string fields".to_owned(),
                                ),
                            );
                        }
                    },
                    Operator::NotContains => {
                        if let OperationValue::String(text) = &value {
                            filter.add_not_contains(&field, text.as_str());
                        } else {
                            proof {
                                lemma_error_stays(self.filter@, declared, i as int);
                            }
                            return Err(
                                QueryError::InvalidArgument(
                                    "Not-contains filter can only be used for string fields".to_owned(),
                                ),
                            );
                        }
                    },
                    Operator::Eq => {
                        filter.add(&field, &value);
                    },
                    Operator::NotEq => {
                        filter.add_not(&field, &value);
                    },
                    Operator::Gt => {
                        filter.add_gt(&field, &value);
                    },
                    Operator::Gte => {
                        filter.add_gte(&field, &value);
                    },
                    Operator::Lt => {
                        filter.add_lt(&field, &value);
                    },
                    Operator::Lte => {
                        filter.add_lte(&field, &value);
                    },
                }
            }
            proof {
                match translated_condition(*entry, declared) {
                    Ok(Some(setting)) => {
                        assert(filter@ =~= meta + before.push(setting));
                    },
                    _ => {},
                }
            }
            i += 1;
        }
        assert(self.filter@.take(i as int) =~= self.filter@);

        if let Some(sort_field) = &self.order_by {
            let order_by = if same_text(sort_field.as_str(), "OWNER") {
                Field::Meta(MetaField::Owner)
            } else if same_text(sort_field.as_str(), "DOCUMENT_ID") {
                Field::Meta(MetaField::DocumentId)
            } else if same_text(sort_field.as_str(), "DOCUMENT_VIEW_ID") {
                Field::Meta(MetaField::DocumentViewId)
            } else if is_declared(schema, sort_field.as_str()) {
                Field::new(sort_field.as_str())
            } else {
                return Err(undeclared(sort_field.as_str()));
            };
            order.field = Some(order_by);
            order.direction = match self.order_direction {
                RequestDirection::Ascending => Direction::Ascending,
                RequestDirection::Descending => Direction::Descending,
            };
        }
        assert(order_of(self.order_by, self.order_direction, declared) == Ok::<
            OrderView,
            Seq<char>,
        >(order@));

        let mut n: usize = 0;
        assert(self.selections@.take(0) =~= Seq::<String>::empty());
        while n < self.selections.len()
            invariant
                n <= self.selections.len(),
                declared == schema.fields@,
                self.after matches Some(token) ==> is_cursor_token(token@),
                meta_settings(self.meta) is Ok,
                translated_conditions(self.filter@, declared) is Ok,
                order_of(self.order_by, self.order_direction, declared) is Ok,
                undeclared_selection(declared, self.selections@.take(n as int)) is None,
            decreases self.selections.len() - n,
        {
            proof {
                let longer = self.selections@.take(n + 1);
                assert(longer.drop_last() =~= self.selections@.take(n as int));
                assert(longer.last() == self.selections@[n as int]);
            }
            if !is_declared(schema, self.selections[n].as_str()) {
                proof {
                    lemma_undeclared_stays(declared, self.selections@, n + 1);
                }
                return Err(undeclared(self.selections[n].as_str()));
            }
            n += 1;
        }
        assert(self.selections@.take(n as int) =~= self.selections@);

        let has_selections = self.selections.len() > 0;
        let mut k: usize = 0;
        assert(schema.fields@.take(0) =~= Seq::<SchemaField>::empty());
        while k < schema.fields.len()
            invariant
                k <= schema.fields.len(),
                has_selections == (self.selections.len() > 0),
                select@ == selected_fields(schema.fields@.take(k as int), self.selections@),
            decreases schema.fields.len() - k,
        {
            let name = &schema.fields[k].name;
            proof {
                let longer = schema.fields@.take(k + 1);
                assert(longer.drop_last() =~= schema.fields@.take(k as int));
                assert(longer.last() == schema.fields@[k as int]);
            }
            if !has_selections || holds_text(&self.selections, name.as_str()) {
                let field = Field::Field(name.clone());
                select.add(&field);
            }
            k += 1;
        }
        assert(schema.fields@.take(k as int) =~= schema.fields@);

        Ok(Query { pagination, order, filter, select })
    }
}

/// Once a condition fails, the conditions as a whole fail with its message.
proof fn lemma_error_stays(conditions: Seq<FieldCondition>, fields: Seq<SchemaField>, i: int)
    requires
        0 <= i < conditions.len(),
        translated_conditions(conditions.take(i), fields) is Ok,
        translated_condition(conditions[i], fields) is Err,
    ensures
        translated_conditions(conditions, fields) == Err::<Seq<FilterSettingView>, Seq<char>>(
            translated_condition(conditions[i], fields)->Err_0,
        ),
    decreases conditions.len(),
{
    let front = conditions.drop_last();
    if i == conditions.len() - 1 {
        assert(conditions.take(i) =~= front);
    } else {
        assert(front.take(i) =~= conditions.take(i));
        lemma_error_stays(front, fields, i);
    }
}

/// The first undeclared selection among the first selections is the first
/// among all.
proof fn lemma_undeclared_stays(fields: Seq<SchemaField>, selections: Seq<String>, n: int)
    requires
        0 <= n <= selections.len(),
        undeclared_selection(fields, selections.take(n)) is Some,
    ensures
        undeclared_selection(fields, selections) == undeclared_selection(
            fields,
            selections.take(n),
        ),
    decreases selections.len() - n,
{
    if n == selections.len() {
        assert(selections.take(n) =~= selections);
    } else {
        let longer = selections.take(n + 1);
        assert(longer.drop_last() =~= selections.take(n));
        lemma_undeclared_stays(fields, selections, n + 1);
    }
}

} // verus!
