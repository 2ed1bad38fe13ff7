//! Reading operations back: how the rows that a join of the two tables
//! yields are put together into operations again.

use vstd::prelude::*;
use crate::decimal::{parsed_i64, parsed_u64, text_to_i64, text_to_u64};
use crate::hash::is_hash_text;
use crate::hex_text::{decode_hex, hex_decode, is_hex_text};
use crate::ids::{
    is_view_id, DocumentId, DocumentViewId, OperationId, PublicKey, SchemaId, ID_SEPARATOR,
};
use crate::operation::{
    action_of_text, document_ids_view, fields_view, type_of_text, view_ids_view, FieldEntry,
    FieldType, Operation, OperationAction, OperationField, OperationValue, OperationView, Value,
};
use crate::rows::option_text;
use crate::text::{same_text, split_text};

verus! {

/// What went wrong in the store.
#[derive(Debug, PartialEq, Eq)]
pub enum StorageError {
    /// The storage failed, or holds what is no operation.
    Fatal(String),
    /// What was to be inserted is there already.
    Conflict(String),
}

impl StorageError {
    /// The error that a failure of the storage is reported as: a conflict
    /// where a row was turned down because its key exists already, and a
    /// fatal error else. The message is kept.
    pub fn from_failure(unique_violation: bool, message: String) -> (e: StorageError)
        ensures
            unique_violation ==> is_conflict(e, message@),
            !unique_violation ==> is_fatal(e, message@),
    {
        if unique_violation {
            StorageError::Conflict(message)
        } else {
            StorageError::Fatal(message)
        }
    }

    /// The diagnostic message of the error.
    pub fn message(&self) -> (text: &str)
        ensures
            is_fatal(*self, text@) || is_conflict(*self, text@),
    {
        match self {
            StorageError::Fatal(message) => message.as_str(),
            StorageError::Conflict(message) => message.as_str(),
        }
    }
}

/// The error is a fatal one with the given message.
pub open spec fn is_fatal(e: StorageError, message: Seq<char>) -> bool {
    e matches StorageError::Fatal(m) && m@ == message
}

/// The error is a conflict with the given message.
pub open spec fn is_conflict(e: StorageError, message: Seq<char>) -> bool {
    e matches StorageError::Conflict(m) && m@ == message
}

/// The message of the error that rows which are no operation cause.
pub open spec fn malformed_message() -> Seq<char> {
    "Malformed operation rows"@
}

/// A row of the join of the table of operations with the table of operation
/// fields. The columns of the field are missing where the operation has no
/// field rows.
#[derive(Debug, PartialEq, Eq)]
pub struct OperationFieldsJoinedRow {
    pub public_key: String,
    pub document_id: String,
    pub operation_id: String,
    pub action: String,
    pub schema_id: String,
    pub previous: Option<String>,
    pub name: Option<String>,
    pub field_type: Option<String>,
    pub value: Option<String>,
    pub list_index: Option<usize>,
}

/// A row of the join, as plain values.
pub struct JoinedRowView {
    pub public_key: Seq<char>,
    pub document_id: Seq<char>,
    pub operation_id: Seq<char>,
    pub action: Seq<char>,
    pub schema_id: Seq<char>,
    pub previous: Option<Seq<char>>,
    pub name: Option<Seq<char>>,
    pub field_type: Option<Seq<char>>,
    pub value: Option<Seq<char>>,
    pub list_index: Option<nat>,
}

impl View for OperationFieldsJoinedRow {
    type V = JoinedRowView;

    open spec fn view(&self) -> JoinedRowView {
        JoinedRowView {
            public_key: self.public_key@,
            document_id: self.document_id@,
            operation_id: self.operation_id@,
            action: self.action@,
            schema_id: self.schema_id@,
            previous: option_text(self.previous),
            name: option_text(self.name),
            field_type: option_text(self.field_type),
            value: option_text(self.value),
            list_index: match self.list_index {
                Some(k) => Some(k as nat),
                None => None,
            },
        }
    }
}

/// The rows of a vector of joined rows, as plain values.
pub open spec fn joined_rows_view(rows: Seq<OperationFieldsJoinedRow>) -> Seq<JoinedRowView> {
    rows.map_values(|r: OperationFieldsJoinedRow| r@)
}

/// An operation as the store gives it back: with its id, its author and
/// the document it belongs to.
#[derive(Debug, PartialEq, Eq)]
pub struct StorageOperation {
    pub id: OperationId,
    pub public_key: PublicKey,
    pub document_id: DocumentId,
    pub operation: Operation,
}

/// A stored operation, as plain values.
pub struct StoredOperation {
    pub id: Seq<char>,
    pub public_key: Seq<char>,
    pub document_id: Seq<char>,
    pub operation: OperationView,
}

impl View for StorageOperation {
    type V = StoredOperation;

    open spec fn view(&self) -> StoredOperation {
        StoredOperation {
            id: self.id@,
            public_key: self.public_key@,
            document_id: self.document_id@,
            operation: self.operation@,
        }
    }
}

impl Clone for StorageOperation {
    fn clone(&self) -> (r: Self)
        ensures
            r@ == self@,
    {
        StorageOperation {
            id: self.id.clone(),
            public_key: self.public_key.clone(),
            document_id: self.document_id.clone(),
            operation: self.operation.clone(),
        }
    }
}

/// Whether a field of this type holds a list.
pub open spec fn is_list_type(field_type: FieldType) -> bool {
    field_type == FieldType::RelationList || field_type == FieldType::PinnedRelationList
}

/// The single value that a text stands for in a field of the given type.
pub open spec fn scalar_of_text(field_type: FieldType, text: Seq<char>) -> Option<Value> {
    match field_type {
        FieldType::Boolean => if text == "true"@ {
            Some(Value::Boolean(true))
        } else if text == "false"@ {
            Some(Value::Boolean(false))
        } else {
            None
        },
        FieldType::Bytes => if is_hex_text(text) {
            Some(Value::Bytes(hex_decode(text)))
        } else {
            None
        },
        FieldType::Integer => match parsed_i64(text) {
            Some(n) => Some(Value::Integer(n)),
            None => None,
        },
        FieldType::Float => match parsed_u64(text) {
            Some(bits) => Some(Value::Float(bits)),
            None => None,
        },
        FieldType::String => Some(Value::Text(text)),
        FieldType::Relation => if is_hash_text(text) {
            Some(Value::Relation(text))
        } else {
            None
        },
        FieldType::PinnedRelation => if is_view_id(split_text(text, ID_SEPARATOR)) {
            Some(Value::PinnedRelation(split_text(text, ID_SEPARATOR)))
        } else {
            None
        },
        FieldType::RelationList => None,
        FieldType::PinnedRelationList => None,
    }
}

/// The list that the first row of a list field stands for: the empty list
/// where the row has no value, and else the list of the one element that
/// the value stands for.
pub open spec fn list_start(field_type: FieldType, value: Option<Seq<char>>) -> Option<Value> {
    match field_type {
        FieldType::RelationList => match value {
            None => Some(Value::RelationList(Seq::empty())),
            Some(text) => if is_hash_text(text) {
                Some(Value::RelationList(seq![text]))
            } else {
                None
            },
        },
        FieldType::PinnedRelationList => match value {
            None => Some(Value::PinnedRelationList(Seq::empty())),
            Some(text) => if is_view_id(split_text(text, ID_SEPARATOR)) {
                Some(Value::PinnedRelationList(seq![split_text(text, ID_SEPARATOR)]))
            } else {
                None
            },
        },
        _ => None,
    }
}

/// The list with one more element: the list must be of the given type and
/// hold exactly `index` elements, and the text must stand for an element.
pub open spec fn list_append(field_type: FieldType, list: Value, index: nat, text: Seq<char>) -> Option<
    Value,
> {
    match (field_type, list) {
        (FieldType::RelationList, Value::RelationList(ids)) => if ids.len() == index
            && is_hash_text(text) {
            Some(Value::RelationList(ids.push(text)))
        } else {
            None
        },
        (FieldType::PinnedRelationList, Value::PinnedRelationList(ids)) => if ids.len() == index
            && is_view_id(split_text(text, ID_SEPARATOR)) {
            Some(Value::PinnedRelationList(ids.push(split_text(text, ID_SEPARATOR))))
        } else {
            None
        },
        _ => None,
    }
}

/// The position of the first field of the given name.
pub open spec fn field_position(fields: Seq<FieldEntry>, name: Seq<char>) -> Option<int>
    decreases fields.len(),
{
    if fields.len() == 0 {
        None
    } else {
        match field_position(fields.drop_last(), name) {
            Some(p) => Some(p),
            None => if fields.last().name == name {
                Some(fields.len() - 1)
            } else {
                None
            },
        }
    }
}

/// The fields after one more row, or nothing where the row does not fit.
///
/// A row without field columns adds nothing, and neither does a row of an
/// unknown type. A row at position zero opens a field, which must be new. A
/// row at a later position adds an element to the list of its field, which
/// must hold as many elements as the position says.
pub open spec fn absorb_row(fields: Seq<FieldEntry>, row: JoinedRowView) -> Option<Seq<FieldEntry>> {
    match (row.name, row.field_type, row.list_index) {
        (Some(name), Some(tag), Some(index)) => match type_of_text(tag) {
            None => Some(fields),
            Some(field_type) => if index == 0 {
                let value = if is_list_type(field_type) {
                    list_start(field_type, row.value)
                } else {
                    match row.value {
                        Some(text) => scalar_of_text(field_type, text),
                        None => None,
                    }
                };
                match (field_position(fields, name), value) {
                    (None, Some(value)) => Some(fields.push(FieldEntry { name, value })),
                    _ => None,
                }
            } else {
                match (field_position(fields, name), row.value) {
                    (Some(p), Some(text)) => match list_append(
                        field_type,
                        fields[p].value,
                        index,
                        text,
                    ) {
                        Some(value) => Some(fields.update(p, FieldEntry { name, value })),
                        None => None,
                    },
                    _ => None,
                }
            },
        },
        (None, None, None) => if row.value is None {
            Some(fields)
        } else {
            None
        },
        _ => None,
    }
}

/// The fields that the rows stand for, taken in their order, or nothing
/// where a row does not fit.
pub open spec fn fields_of_rows(rows: Seq<JoinedRowView>) -> Option<Seq<FieldEntry>>
    decreases rows.len(),
{
    if rows.len() == 0 {
        Some(Seq::empty())
    } else {
        match fields_of_rows(rows.drop_last()) {
            Some(fields) => absorb_row(fields, rows.last()),
            None => None,
        }
    }
}

/// The operation that the rows of a join stand for. No rows stand for no
/// operation. The columns of the operation are read from the first row;
/// the fields from all rows. The result is nothing where the rows are
/// malformed: an id that is no hash text, an unknown action, a row that
/// does not fit.
pub open spec fn operation_of_rows(rows: Seq<JoinedRowView>) -> Option<Option<StoredOperation>> {
    if rows.len() == 0 {
        Some(None)
    } else {
        let first = rows[0];
        let previous_ok = match first.previous {
            Some(text) => is_view_id(split_text(text, ID_SEPARATOR)),
            None => true,
        };
        if is_hash_text(first.operation_id) && is_hash_text(first.document_id) && previous_ok {
            match (action_of_text(first.action), fields_of_rows(rows)) {
                (Some(action), Some(fields)) => Some(
                    Some(
                        StoredOperation {
                            id: first.operation_id,
                            public_key: first.public_key,
                            document_id: first.document_id,
                            operation: OperationView {
                                action,
                                schema_id: first.schema_id,
                                previous: match first.previous {
                                    Some(text) => Some(split_text(text, ID_SEPARATOR)),
                                    None => None,
                                },
                                fields,
                            },
                        },
                    ),
                ),
                _ => None,
            }
        } else {
            None
        }
    }
}

/// The single value that a text stands for in a field of the given type.
fn parse_scalar(field_type: FieldType, text: &str) -> (r: Option<OperationValue>)
    ensures
        match r {
            Some(value) => scalar_of_text(field_type, text@) == Some(value@),
            None => scalar_of_text(field_type, text@) is None,
        },
{
    match field_type {
        FieldType::Boolean => {
            if same_text(text, "true") {
                Some(OperationValue::Boolean(true))
            } else if same_text(text, "false") {
                Some(OperationValue::Boolean(false))
            } else {
                None
            }
        },
        FieldType::Bytes => match decode_hex(text) {
            Ok(bytes) => Some(OperationValue::Bytes(bytes)),
            Err(_) => None,
        },
        FieldType::Integer => match text_to_i64(text) {
            Some(n) => Some(OperationValue::Integer(n)),
            None => None,
        },
        FieldType::Float => match text_to_u64(text) {
            Some(bits) => Some(OperationValue::Float(bits)),
            None => None,
        },
        FieldType::String => Some(OperationValue::String(text.to_owned())),
        FieldType::Relation => match DocumentId::new(text) {
            Ok(id) => Some(OperationValue::Relation(id)),
            Err(_) => None,
        },
        FieldType::PinnedRelation => match DocumentViewId::from_text(text) {
            Ok(id) => Some(OperationValue::PinnedRelation(id)),
            Err(_) => None,
        },
        FieldType::RelationList => None,
        FieldType::PinnedRelationList => None,
    }
}

/// The list that the first row of a list field stands for.
fn parse_list_start(field_type: FieldType, value: &Option<String>) -> (r: Option<OperationValue>)
    ensures
        match r {
            Some(list) => list_start(field_type, option_text(*value)) == Some(list@),
            None => list_start(field_type, option_text(*value)) is None,
        },
{
    match field_type {
        FieldType::RelationList => match value {
            None => {
                let ids: Vec<DocumentId> = Vec::new();
                assert(document_ids_view(ids@) =~= Seq::<Seq<char>>::empty());
                Some(OperationValue::RelationList(ids))
            },
            Some(text) => match DocumentId::new(text.as_str()) {
                Ok(id) => {
                    let mut ids: Vec<DocumentId> = Vec::new();
                    ids.push(id);
                    assert(document_ids_view(ids@) =~= seq![text@]);
                    Some(OperationValue::RelationList(ids))
                },
                Err(_) => None,
            },
        },
        FieldType::PinnedRelationList => match value {
            None => {
                let ids: Vec<DocumentViewId> = Vec::new();
                assert(view_ids_view(ids@) =~= Seq::<Seq<Seq<char>>>::empty());
                Some(OperationValue::PinnedRelationList(ids))
            },
            Some(text) => match DocumentViewId::from_text(text.as_str()) {
                Ok(id) => {
                    let mut ids: Vec<DocumentViewId> = Vec::new();
                    ids.push(id);
                    assert(view_ids_view(ids@) =~= seq![split_text(text@, ID_SEPARATOR)]);
                    Some(OperationValue::PinnedRelationList(ids))
                },
                Err(_) => None,
            },
        },
        _ => None,
    }
}

/// The list with one more element.
fn parse_list_append(field_type: FieldType, list: OperationValue, index: usize, text: &str) -> (r:
    Option<OperationValue>)
    ensures
        match r {
            Some(longer) => list_append(field_type, list@, index as nat, text@) == Some(longer@),
            None => list_append(field_type, list@, index as nat, text@) is None,
        },
{
    match (field_type, list) {
        (FieldType::RelationList, OperationValue::RelationList(ids)) => {
            if ids.len() != index {
                return None;
            }
            match DocumentId::new(text) {
                Ok(id) => {
                    let mut ids = ids;
                    let ghost before = document_ids_view(ids@);
                    ids.push(id);
                    assert(document_ids_view(ids@) =~= before.push(text@));
                    Some(OperationValue::RelationList(ids))
                },
                Err(_) => None,
            }
        },
        (FieldType::PinnedRelationList, OperationValue::PinnedRelationList(ids)) => {
            if ids.len() != index {
                return None;
            }
            match DocumentViewId::from_text(text) {
                Ok(id) => {
                    let mut ids = ids;
                    let ghost before = view_ids_view(ids@);
                    ids.push(id);
                    assert(view_ids_view(ids@) =~= before.push(split_text(text@, ID_SEPARATOR)));
                    Some(OperationValue::PinnedRelationList(ids))
                },
                Err(_) => None,
            }
        },
        _ => None,
    }
}

/// The position of the first field of the given name.
fn find_field(fields: &Vec<OperationField>, name: &str) -> (r: Option<usize>)
    ensures
        match r {
            Some(p) => field_position(fields_view(fields@), name@) == Some(p as int) && p
                < fields.len(),
            None => field_position(fields_view(fields@), name@) is None,
        },
{
    let ghost all = fields_view(fields@);
    let mut i: usize = 0;
    assert(all.take(0) =~= Seq::<FieldEntry>::empty());
    while i < fields.len()
        invariant
            i <= fields.len(),
            all == fields_view(fields@),
            field_position(all.take(i as int), name@) is None,
        decreases fields.len() - i,
    {
        proof {
            let longer = all.take(i + 1);
            assert(longer.drop_last() =~= all.take(i as int));
            assert(longer.last() == all[i as int]);
        }
        if same_text(fields[i].name.as_str(), name) {
            proof {
                lemma_position_stays(all, i + 1, i as int, name@);
            }
            return Some(i);
        }
        i += 1;
    }
    assert(all.take(i as int) =~= all);
    None
}

/// A position that is found in the front of the fields is found in all.
proof fn lemma_position_stays(fields: Seq<FieldEntry>, n: int, p: int, name: Seq<char>)
    requires
        0 <= n <= fields.len(),
        field_position(fields.take(n), name) == Some(p),
    ensures
        field_position(fields, name) == Some(p),
    decreases fields.len() - n,
{
    if n == fields.len() {
        assert(fields.take(n) =~= fields);
    } else {
        let longer = fields.take(n + 1);
        assert(longer.drop_last() =~= fields.take(n));
        lemma_position_stays(fields, n + 1, p, name);
    }
}

/// Takes one more row into the fields read so far. Says whether the row
/// fits; where it does not, the fields are left in no particular state.
fn absorb(fields: &mut Vec<OperationField>, row: &OperationFieldsJoinedRow) -> (fits: bool)
    ensures
        match absorb_row(fields_view(old(fields)@), row@) {
            Some(after) => fits && fields_view(final(fields)@) == after,
            None => !fits,
        },
{
    let ghost before = fields_view(fields@);
    match (&row.name, &row.field_type, &row.list_index) {
        (Some(name), Some(tag), Some(index)) => {
            let field_type = match FieldType::from_text(tag.as_str()) {
                Some(field_type) => field_type,
                None => {
                    return true;
                },
            };
            let position = find_field(fields, name.as_str());
            if *index == 0 {
                let value = if field_type.is_list() {
                    parse_list_start(field_type, &row.value)
                } else {
                    match &row.value {
                        Some(text) => parse_scalar(field_type, text.as_str()),
                        None => None,
                    }
                };
                match (position, value) {
                    (None, Some(value)) => {
                        let field = OperationField { name: name.clone(), value };
                        let ghost entry = field@;
                        fields.push(field);
                        assert(fields_view(fields@) =~= before.push(entry));
                        true
                    },
                    _ => false,
                }
            } else {
                match (position, &row.value) {
                    (Some(p), Some(text)) => {
                        let old_field = fields.remove(p);
                        assert(old_field@ == before[p as int]);
                        match parse_list_append(
                            field_type,
                            old_field.value,
                            *index,
                            text.as_str(),
                        ) {
                            Some(value) => {
                                let field = OperationField { name: name.clone(), value };
                                let ghost entry = field@;
                                fields.insert(p, field);
                                assert(fields_view(fields@) =~= before.update(p as int, entry));
                                true
                            },
                            None => false,
                        }
                    },
                    _ => false,
                }
            }
        },
        (None, None, None) => row.value.is_none(),
        _ => false,
    }
}

/// The error that rows which are no operation cause.
fn malformed() -> (e: StorageError)
    ensures
        is_fatal(e, malformed_message()),
{
    StorageError::Fatal("Malformed operation rows".to_owned())
}

/// Puts the rows that a join has yielded for one operation together again.
/// No rows give no operation. Rows that are malformed give a fatal error.
pub fn parse_operation_rows(rows: &Vec<OperationFieldsJoinedRow>) -> (r: Result<
    Option<StorageOperation>,
    StorageError,
>)
    ensures
        match r {
            Ok(Some(operation)) => operation_of_rows(joined_rows_view(rows@)) == Some(
                Some(operation@),
            ),
            Ok(None) => rows.len() == 0,
            Err(e) => operation_of_rows(joined_rows_view(rows@)) is None && is_fatal(
                e,
                malformed_message(),
            ),
        },
{
    let ghost all = joined_rows_view(rows@);
    if rows.len() == 0 {
        return Ok(None);
    }
    let first = &rows[0];
    assert(all[0] == first@);
    let id = match OperationId::new(first.operation_id.as_str()) {
        Ok(id) => id,
        Err(_) => {
            return Err(malformed());
        },
    };
    let document_id = match DocumentId::new(first.document_id.as_str()) {
        Ok(id) => id,
        Err(_) => {
            return Err(malformed());
        },
    };
    let previous = match &first.previous {
        Some(text) => match DocumentViewId::from_text(text.as_str()) {
            Ok(view_id) => Some(view_id),
            Err(_) => {
                return Err(malformed());
            },
        },
        None => None,
    };
    let action = match OperationAction::from_text(first.action.as_str()) {
        Some(action) => action,
        None => {
            return Err(malformed());
        },
    };
    let mut fields: Vec<OperationField> = Vec::new();
    let mut i: usize = 0;
    assert(all.take(0) =~= Seq::<JoinedRowView>::empty());
    assert(fields_view(fields@) =~= Seq::<FieldEntry>::empty());
    while i < rows.len()
        invariant
            i <= rows.len(),
            all == joined_rows_view(rows@),
            fields_of_rows(all.take(i as int)) == Some(fields_view(fields@)),
        decreases rows.len() - i,
    {
        proof {
            let longer = all.take(i + 1);
            assert(longer.drop_last() =~= all.take(i as int));
            assert(longer.last() == rows@[i as int]@);
        }
        if !absorb(&mut fields, &rows[i]) {
            proof {
                lemma_misfit_stays(all, i + 1);
            }
            return Err(malformed());
        }
        i += 1;
    }
    assert(all.take(i as int) =~= all);
    Ok(
        Some(
            StorageOperation {
                id,
                public_key: PublicKey::new(first.public_key.as_str()),
                document_id,
                operation: Operation {
                    action,
                    schema_id: SchemaId::new(first.schema_id.as_str()),
                    previous,
                    fields,
                },
            },
        ),
    )
}

/// Once a row does not fit, the rows as a whole stand for no fields.
pub proof fn lemma_misfit_stays(rows: Seq<JoinedRowView>, n: int)
    requires
        0 <= n <= rows.len(),
        fields_of_rows(rows.take(n)) is None,
    ensures
        fields_of_rows(rows) is None,
    decreases rows.len() - n,
{
    if n == rows.len() {
        assert(rows.take(n) =~= rows);
    } else {
        let longer = rows.take(n + 1);
        assert(longer.drop_last() =~= rows.take(n));
        lemma_misfit_stays(rows, n + 1);
    }
}

} // verus!
