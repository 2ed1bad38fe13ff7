//! Rows: how an operation is laid out in the two tables of the store, one row
//! for the operation itself and one for each value of each of its fields.

use vstd::prelude::*;
use crate::cursor::{cursor_text, OperationCursor};
use crate::decimal::{decimal_text, i64_to_text, signed_text, u64_to_text};
use crate::hash::is_hash_text;
use crate::hex_text::{encode_hex, hex_encode};
use crate::ids::{is_view_id, DocumentId, OperationId, PublicKey, ID_SEPARATOR};
use crate::operation::{
    action_text, is_value, type_text, value_type, FieldEntry, Operation, OperationValue,
    OperationView, Value,
};
use crate::text::join_texts;

verus! {

/// A row of the table of operations.
#[derive(Debug, PartialEq, Eq)]
pub struct OperationRow {
    pub public_key: String,
    pub document_id: String,
    pub operation_id: String,
    pub action: String,
    pub schema_id: String,
    pub previous: Option<String>,
}

/// A row of the table of operations, as plain values.
pub struct OperationRowView {
    pub public_key: Seq<char>,
    pub document_id: Seq<char>,
    pub operation_id: Seq<char>,
    pub action: Seq<char>,
    pub schema_id: Seq<char>,
    pub previous: Option<Seq<char>>,
}

/// The text of an optional string.
pub open spec fn option_text(text: Option<String>) -> Option<Seq<char>> {
    match text {
        Some(t) => Some(t@),
        None => None,
    }
}

impl View for OperationRow {
    type V = OperationRowView;

    open spec fn view(&self) -> OperationRowView {
        OperationRowView {
            public_key: self.public_key@,
            document_id: self.document_id@,
            operation_id: self.operation_id@,
            action: self.action@,
            schema_id: self.schema_id@,
            previous: option_text(self.previous),
        }
    }
}

/// A row of the table of operation fields: one value of one field. A field
/// that holds a list has one row for each element, numbered from zero, and
/// a single row without a value where the list is empty.
#[derive(Debug, PartialEq, Eq)]
pub struct OperationFieldRow {
    pub operation_id: String,
    pub name: String,
    pub field_type: String,
    pub value: Option<String>,
    pub list_index: usize,
    pub cursor: String,
}

/// A row of the table of operation fields, as plain values.
pub struct FieldRowView {
    pub operation_id: Seq<char>,
    pub name: Seq<char>,
    pub field_type: Seq<char>,
    pub value: Option<Seq<char>>,
    pub list_index: nat,
    pub cursor: Seq<char>,
}

impl View for OperationFieldRow {
    type V = FieldRowView;

    open spec fn view(&self) -> FieldRowView {
        FieldRowView {
            operation_id: self.operation_id@,
            name: self.name@,
            field_type: self.field_type@,
            value: option_text(self.value),
            list_index: self.list_index as nat,
            cursor: self.cursor@,
        }
    }
}

/// The rows of a vector of field rows, as plain values.
pub open spec fn field_rows_view(rows: Seq<OperationFieldRow>) -> Seq<FieldRowView> {
    rows.map_values(|r: OperationFieldRow| r@)
}

/// The word that stands for a truth value in a row.
pub open spec fn bool_text(b: bool) -> Seq<char> {
    if b {
        "true"@
    } else {
        "false"@
    }
}

/// The texts that a value is stored as, one for each row of its field: one
/// for a single value, one for each element of a list, and a single missing
/// text for an empty list.
pub open spec fn value_texts(value: Value) -> Seq<Option<Seq<char>>> {
    match value {
        Value::Boolean(b) => seq![Some(bool_text(b))],
        Value::Bytes(bytes) => seq![Some(hex_encode(bytes))],
        Value::Integer(n) => seq![Some(signed_text(n as int))],
        Value::Float(bits) => seq![Some(decimal_text(bits as nat))],
        Value::Text(text) => seq![Some(text)],
        Value::Relation(id) => seq![Some(id)],
        Value::RelationList(ids) => if ids.len() == 0 {
            seq![None]
        } else {
            Seq::new(ids.len(), |k: int| Some(ids[k]))
        },
        Value::PinnedRelation(id) => seq![Some(join_texts(id, ID_SEPARATOR))],
        Value::PinnedRelationList(ids) => if ids.len() == 0 {
            seq![None]
        } else {
            Seq::new(ids.len(), |k: int| Some(join_texts(ids[k], ID_SEPARATOR)))
        },
    }
}

/// The row of the value at position `k` of a field of an operation.
pub open spec fn field_row(operation_id: Seq<char>, field: FieldEntry, k: int) -> FieldRowView {
    FieldRowView {
        operation_id,
        name: field.name,
        field_type: type_text(value_type(field.value)),
        value: value_texts(field.value)[k],
        list_index: k as nat,
        cursor: cursor_text(k as nat, field.name, operation_id),
    }
}

/// The rows of one field of an operation, by position.
pub open spec fn field_rows(operation_id: Seq<char>, field: FieldEntry) -> Seq<FieldRowView> {
    Seq::new(value_texts(field.value).len(), |k: int| field_row(operation_id, field, k))
}

/// The rows of the fields of an operation: field after field, and within a
/// field position after position.
pub open spec fn rows_of_fields(operation_id: Seq<char>, fields: Seq<FieldEntry>) -> Seq<
    FieldRowView,
>
    decreases fields.len(),
{
    if fields.len() == 0 {
        Seq::empty()
    } else {
        rows_of_fields(operation_id, fields.drop_last()) + field_rows(operation_id, fields.last())
    }
}

/// The row of an operation in the table of operations.
pub open spec fn row_of_operation(
    operation_id: Seq<char>,
    public_key: Seq<char>,
    operation: OperationView,
    document_id: Seq<char>,
) -> OperationRowView {
    OperationRowView {
        public_key,
        document_id,
        operation_id,
        action: action_text(operation.action),
        schema_id: operation.schema_id,
        previous: match operation.previous {
            Some(previous) => Some(join_texts(previous, ID_SEPARATOR)),
            None => None,
        },
    }
}

/// The texts of a vector of optional strings.
pub open spec fn option_texts(texts: Seq<Option<String>>) -> Seq<Option<Seq<char>>> {
    texts.map_values(|t: Option<String>| option_text(t))
}

/// The texts that a value is stored as.
pub fn value_strings(value: &OperationValue) -> (texts: Vec<Option<String>>)
    ensures
        option_texts(texts@) == value_texts(value@),
        is_value(value@),
{
    let mut texts: Vec<Option<String>> = Vec::new();
    match value {
        OperationValue::Boolean(b) => {
            let text = if *b {
                "true"
            } else {
                "false"
            };
            texts.push(Some(text.to_owned()));
        },
        OperationValue::Bytes(bytes) => {
            texts.push(Some(encode_hex(bytes.as_slice())));
        },
        OperationValue::Integer(n) => {
            texts.push(Some(i64_to_text(*n)));
        },
        OperationValue::Float(bits) => {
            texts.push(Some(u64_to_text(*bits)));
        },
        OperationValue::String(text) => {
            texts.push(Some(text.clone()));
        },
        OperationValue::Relation(id) => {
            texts.push(Some(id.as_str().to_owned()));
        },
        OperationValue::RelationList(ids) => {
            if ids.len() == 0 {
                texts.push(None);
            } else {
                let mut k: usize = 0;
                while k < ids.len()
                    invariant
                        k <= ids.len(),
                        texts.len() == k,
                        forall|j: int| 0 <= j < k ==> option_text(#[trigger] texts@[j]) == Some(ids@[j]@),
                        forall|j: int| 0 <= j < k ==> is_hash_text(#[trigger] ids@[j]@),
                    decreases ids.len() - k,
                {
                    texts.push(Some(ids[k].as_str().to_owned()));
                    k += 1;
                }
            }
        },
        OperationValue::PinnedRelation(id) => {
            texts.push(Some(id.to_text()));
        },
        OperationValue::PinnedRelationList(ids) => {
            if ids.len() == 0 {
                texts.push(None);
            } else {
                let mut k: usize = 0;
                while k < ids.len()
                    invariant
                        k <= ids.len(),
                        texts.len() == k,
                        forall|j: int|
                            0 <= j < k ==> option_text(#[trigger] texts@[j]) == Some(
                                join_texts(ids@[j]@, ID_SEPARATOR),
                            ),
                        forall|j: int| 0 <= j < k ==> is_view_id(#[trigger] ids@[j]@),
                    decreases ids.len() - k,
                {
                    texts.push(Some(ids[k].to_text()));
                    k += 1;
                }
            }
        },
    }
    assert(option_texts(texts@) =~= value_texts(value@));
    texts
}

/// The row of an operation in the table of operations.
pub fn operation_row(
    id: &OperationId,
    public_key: &PublicKey,
    operation: &Operation,
    document_id: &DocumentId,
) -> (row: OperationRow)
    ensures
        row@ == row_of_operation(id@, public_key@, operation@, document_id@),
        is_hash_text(id@),
        is_hash_text(document_id@),
        operation@.previous matches Some(previous) ==> is_view_id(previous),
{
    OperationRow {
        public_key: public_key.as_str().to_owned(),
        document_id: document_id.as_str().to_owned(),
        operation_id: id.as_str().to_owned(),
        action: operation.action.as_str().to_owned(),
        schema_id: operation.schema_id.as_str().to_owned(),
        previous: match &operation.previous {
            Some(previous) => Some(previous.to_text()),
            None => None,
        },
    }
}

/// The rows of the fields of an operation in the table of operation fields,
/// each with the cursor of its position.
pub fn operation_field_rows(id: &OperationId, operation: &Operation) -> (rows: Vec<
    OperationFieldRow,
>)
    ensures
        field_rows_view(rows@) == rows_of_fields(id@, operation@.fields),
        forall|k: int|
            0 <= k < operation@.fields.len() ==> is_value((#[trigger] operation@.fields[k]).value),
{
    let mut rows: Vec<OperationFieldRow> = Vec::new();
    let mut i: usize = 0;
    let ghost fields = operation@.fields;
    assert(fields.take(0) =~= Seq::<FieldEntry>::empty());
    assert(field_rows_view(rows@) =~= Seq::<FieldRowView>::empty());
    while i < operation.fields.len()
        invariant
            i <= operation.fields.len(),
            fields == operation@.fields,
            field_rows_view(rows@) == rows_of_fields(id@, fields.take(i as int)),
            forall|k: int| 0 <= k < i ==> is_value((#[trigger] fields[k]).value),
        decreases operation.fields.len() - i,
    {
        let field = &operation.fields[i];
        let texts = value_strings(&field.value);
        let field_type = field.value.field_type();
        let ghost before = field_rows_view(rows@);
        let ghost entry = field@;
        assert(entry == fields[i as int]);
        let mut k: usize = 0;
        while k < texts.len()
            invariant
                k <= texts.len(),
                entry == field@,
                field_type == value_type(entry.value),
                option_texts(texts@) == value_texts(entry.value),
                field_rows_view(rows@) == before + field_rows(id@, entry).take(k as int),
            decreases texts.len() - k,
        {
            let cursor = OperationCursor::new(k, field.name.as_str(), id);
            let row = OperationFieldRow {
                operation_id: id.as_str().to_owned(),
                name: field.name.clone(),
                field_type: field_type.as_str().to_owned(),
                value: match &texts[k] {
                    Some(text) => Some(text.clone()),
                    None => None,
                },
                list_index: k,
                cursor: cursor.to_text(),
            };
            assert(row@ == field_row(id@, entry, k as int));
            let ghost so_far = field_rows_view(rows@);
            let ghost pushed = row@;
            rows.push(row);
            proof {
                assert(option_texts(texts@).len() == texts.len());
                assert(field_rows_view(rows@) =~= so_far.push(pushed));
                assert(field_rows(id@, entry).take(k + 1) =~= field_rows(id@, entry).take(
                    k as int,
                ).push(pushed));
                assert(so_far.push(pushed) =~= before + field_rows(id@, entry).take(k + 1));
            }
            k += 1;
        }
        proof {
            assert(field_rows(id@, entry).take(k as int) =~= field_rows(id@, entry));
            let longer = fields.take(i + 1);
            assert(longer.drop_last() =~= fields.take(i as int));
            assert(longer.last() == entry);
        }
        i += 1;
    }
    assert(fields.take(i as int) =~= fields);
    rows
}

} // verus!
