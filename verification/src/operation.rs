//! Operations: the immutable records of what was done to a document, and the
//! values that their fields hold.

use vstd::prelude::*;
use crate::hash::is_hash_text;
use crate::ids::{is_view_id, DocumentId, DocumentViewId, SchemaId};
use crate::text::same_text;

verus! {

/// What an operation does to its document.
#[derive(Debug, Clone, Copy, PartialEq, Eq, Structural)]
pub enum OperationAction {
    Create,
    Update,
    Delete,
}

/// The word that stands for an action in a row.
pub open spec fn action_text(action: OperationAction) -> Seq<char> {
    match action {
        OperationAction::Create => "create"@,
        OperationAction::Update => "update"@,
        OperationAction::Delete => "delete"@,
    }
}

/// The action that a word stands for.
pub open spec fn action_of_text(text: Seq<char>) -> Option<OperationAction> {
    if text == "create"@ {
        Some(OperationAction::Create)
    } else if text == "update"@ {
        Some(OperationAction::Update)
    } else if text == "delete"@ {
        Some(OperationAction::Delete)
    } else {
        None
    }
}

/// Every action is read back from its word.
pub proof fn lemma_action_text_round_trip(action: OperationAction)
    ensures
        action_of_text(action_text(action)) == Some(action),
{
    reveal_strlit("create");
    reveal_strlit("update");
    reveal_strlit("delete");
    assert("create"@[0] == 'c' && "update"@[0] == 'u' && "delete"@[0] == 'd');
}

impl OperationAction {
    /// The word that stands for the action.
    pub fn as_str(&self) -> (text: &'static str)
        ensures
            text@ == action_text(*self),
    {
        match self {
            OperationAction::Create => "create",
            OperationAction::Update => "update",
            OperationAction::Delete => "delete",
        }
    }

    /// The action that a word stands for.
    pub fn from_text(text: &str) -> (r: Option<OperationAction>)
        ensures
            r == action_of_text(text@),
    {
        if same_text(text, "create") {
            Some(OperationAction::Create)
        } else if same_text(text, "update") {
            Some(OperationAction::Update)
        } else if same_text(text, "delete") {
            Some(OperationAction::Delete)
        } else {
            None
        }
    }
}

/// The type of a field value.
#[derive(Debug, Clone, Copy, PartialEq, Eq, Structural)]
pub enum FieldType {
    Boolean,
    Bytes,
    Integer,
    Float,
    String,
    Relation,
    RelationList,
    PinnedRelation,
    PinnedRelationList,
}

/// The tag that stands for a field type in a row.
pub open spec fn type_text(field_type: FieldType) -> Seq<char> {
    match field_type {
        FieldType::Boolean => "bool"@,
        FieldType::Bytes => "bytes"@,
        FieldType::Integer => "int"@,
        FieldType::Float => "float"@,
        FieldType::String => "str"@,
        FieldType::Relation => "relation"@,
        FieldType::RelationList => "relation_list"@,
        FieldType::PinnedRelation => "pinned_relation"@,
        FieldType::PinnedRelationList => "pinned_relation_list"@,
    }
}

/// The field type that a tag stands for.
pub open spec fn type_of_text(text: Seq<char>) -> Option<FieldType> {
    if text == "bool"@ {
        Some(FieldType::Boolean)
    } else if text == "bytes"@ {
        Some(FieldType::Bytes)
    } else if text == "int"@ {
        Some(FieldType::Integer)
    } else if text == "float"@ {
        Some(FieldType::Float)
    } else if text == "str"@ {
        Some(FieldType::String)
    } else if text == "relation"@ {
        Some(FieldType::Relation)
    } else if text == "relation_list"@ {
        Some(FieldType::RelationList)
    } else if text == "pinned_relation"@ {
        Some(FieldType::PinnedRelation)
    } else if text == "pinned_relation_list"@ {
        Some(FieldType::PinnedRelationList)
    } else {
        None
    }
}

/// Every field type is read back from its tag.
pub proof fn lemma_type_text_round_trip(field_type: FieldType)
    ensures
        type_of_text(type_text(field_type)) == Some(field_type),
{
    reveal_strlit("bool");
    reveal_strlit("bytes");
    reveal_strlit("int");
    reveal_strlit("float");
    reveal_strlit("str");
    reveal_strlit("relation");
    reveal_strlit("relation_list");
    reveal_strlit("pinned_relation");
    reveal_strlit("pinned_relation_list");
    assert("bool"@.len() == 4 && "bytes"@.len() == 5 && "int"@.len() == 3);
    assert("float"@.len() == 5 && "str"@.len() == 3 && "relation"@.len() == 8);
    assert("relation_list"@.len() == 13 && "pinned_relation"@.len() == 15);
    assert("pinned_relation_list"@.len() == 20);
    assert("bytes"@[0] == 'b' && "float"@[0] == 'f' && "int"@[0] == 'i' && "str"@[0] == 's');
}

impl FieldType {
    /// The tag that stands for the field type.
    pub fn as_str(&self) -> (text: &'static str)
        ensures
            text@ == type_text(*self),
    {
        match self {
            FieldType::Boolean => "bool",
            FieldType::Bytes => "bytes",
            FieldType::Integer => "int",
            FieldType::Float => "float",
            FieldType::String => "str",
            FieldType::Relation => "relation",
            FieldType::RelationList => "relation_list",
            FieldType::PinnedRelation => "pinned_relation",
            FieldType::PinnedRelationList => "pinned_relation_list",
        }
    }

    /// The field type that a tag stands for.
    pub fn from_text(text: &str) -> (r: Option<FieldType>)
        ensures
            r == type_of_text(text@),
    {
        if same_text(text, "bool") {
            Some(FieldType::Boolean)
        } else if same_text(text, "bytes") {
            Some(FieldType::Bytes)
        } else if same_text(text, "int") {
            Some(FieldType::Integer)
        } else if same_text(text, "float") {
            Some(FieldType::Float)
        } else if same_text(text, "str") {
            Some(FieldType::String)
        } else if same_text(text, "relation") {
            Some(FieldType::Relation)
        } else if same_text(text, "relation_list") {
            Some(FieldType::RelationList)
        } else if same_text(text, "pinned_relation") {
            Some(FieldType::PinnedRelation)
        } else if same_text(text, "pinned_relation_list") {
            Some(FieldType::PinnedRelationList)
        } else {
            None
        }
    }

    /// Whether a field of this type holds a list.
    pub fn is_list(&self) -> (r: bool)
        ensures
            r == (*self == FieldType::RelationList || *self == FieldType::PinnedRelationList),
    {
        match self {
            FieldType::RelationList => true,
            FieldType::PinnedRelationList => true,
            _ => false,
        }
    }
}

/// The value of one field of an operation. A floating-point number is held
/// as the bit pattern of its IEEE 754 double.
#[derive(Debug, PartialEq, Eq)]
pub enum OperationValue {
    Boolean(bool),
    Bytes(Vec<u8>),
    Integer(i64),
    Float(u64),
    String(String),
    Relation(DocumentId),
    RelationList(Vec<DocumentId>),
    PinnedRelation(DocumentViewId),
    PinnedRelationList(Vec<DocumentViewId>),
}

/// What a field value holds, as plain values.
pub enum Value {
    Boolean(bool),
    Bytes(Seq<u8>),
    Integer(i64),
    Float(u64),
    Text(Seq<char>),
    Relation(Seq<char>),
    RelationList(Seq<Seq<char>>),
    PinnedRelation(Seq<Seq<char>>),
    PinnedRelationList(Seq<Seq<Seq<char>>>),
}

/// The texts of a vector of document ids.
pub open spec fn document_ids_view(ids: Seq<DocumentId>) -> Seq<Seq<char>> {
    ids.map_values(|id: DocumentId| id@)
}

/// The operation ids of a vector of view ids.
pub open spec fn view_ids_view(ids: Seq<DocumentViewId>) -> Seq<Seq<Seq<char>>> {
    ids.map_values(|id: DocumentViewId| id@)
}

impl View for OperationValue {
    type V = Value;

    open spec fn view(&self) -> Value {
        match self {
            OperationValue::Boolean(b) => Value::Boolean(*b),
            OperationValue::Bytes(bytes) => Value::Bytes(bytes@),
            OperationValue::Integer(n) => Value::Integer(*n),
            OperationValue::Float(bits) => Value::Float(*bits),
            OperationValue::String(text) => Value::Text(text@),
            OperationValue::Relation(id) => Value::Relation(id@),
            OperationValue::RelationList(ids) => Value::RelationList(document_ids_view(ids@)),
            OperationValue::PinnedRelation(id) => Value::PinnedRelation(id@),
            OperationValue::PinnedRelationList(ids) => Value::PinnedRelationList(
                view_ids_view(ids@),
            ),
        }
    }
}

/// The type of a value.
pub open spec fn value_type(value: Value) -> FieldType {
    match value {
        Value::Boolean(_) => FieldType::Boolean,
        Value::Bytes(_) => FieldType::Bytes,
        Value::Integer(_) => FieldType::Integer,
        Value::Float(_) => FieldType::Float,
        Value::Text(_) => FieldType::String,
        Value::Relation(_) => FieldType::Relation,
        Value::RelationList(_) => FieldType::RelationList,
        Value::PinnedRelation(_) => FieldType::PinnedRelation,
        Value::PinnedRelationList(_) => FieldType::PinnedRelationList,
    }
}

/// Every id that the value holds is well-formed.
pub open spec fn is_value(value: Value) -> bool {
    match value {
        Value::Relation(id) => is_hash_text(id),
        Value::RelationList(ids) => forall|k: int|
            0 <= k < ids.len() ==> is_hash_text(#[trigger] ids[k]),
        Value::PinnedRelation(id) => is_view_id(id),
        Value::PinnedRelationList(ids) => forall|k: int|
            0 <= k < ids.len() ==> is_view_id(#[trigger] ids[k]),
        _ => true,
    }
}

/// A copy of a vector of bytes.
pub fn copy_bytes(bytes: &Vec<u8>) -> (copy: Vec<u8>)
    ensures
        copy@ == bytes@,
{
    let mut copy: Vec<u8> = Vec::new();
    let mut i: usize = 0;
    while i < bytes.len()
        invariant
            i <= bytes.len(),
            copy@ == bytes@.take(i as int),
        decreases bytes.len() - i,
    {
        copy.push(bytes[i]);
        assert(copy@ =~= bytes@.take(i + 1));
        i += 1;
    }
    assert(bytes@.take(i as int) =~= bytes@);
    copy
}

/// A copy of a vector of document ids.
pub fn copy_document_ids(ids: &Vec<DocumentId>) -> (copy: Vec<DocumentId>)
    ensures
        document_ids_view(copy@) == document_ids_view(ids@),
{
    let mut copy: Vec<DocumentId> = Vec::new();
    let mut i: usize = 0;
    while i < ids.len()
        invariant
            i <= ids.len(),
            copy.len() == i,
            forall|j: int| 0 <= j < i ==> copy@[j]@ == ids@[j]@,
        decreases ids.len() - i,
    {
        copy.push(ids[i].clone());
        i += 1;
    }
    assert(document_ids_view(copy@) =~= document_ids_view(ids@));
    copy
}

/// A copy of a vector of view ids.
pub fn copy_view_ids(ids: &Vec<DocumentViewId>) -> (copy: Vec<DocumentViewId>)
    ensures
        view_ids_view(copy@) == view_ids_view(ids@),
{
    let mut copy: Vec<DocumentViewId> = Vec::new();
    let mut i: usize = 0;
    while i < ids.len()
        invariant
            i <= ids.len(),
            copy.len() == i,
            forall|j: int| 0 <= j < i ==> copy@[j]@ == ids@[j]@,
        decreases ids.len() - i,
    {
        copy.push(ids[i].clone());
        i += 1;
    }
    assert(view_ids_view(copy@) =~= view_ids_view(ids@));
    copy
}

impl Clone for OperationValue {
    fn clone(&self) -> (r: Self)
        ensures
            r@ == self@,
    {
        match self {
            OperationValue::Boolean(b) => OperationValue::Boolean(*b),
            OperationValue::Bytes(bytes) => OperationValue::Bytes(copy_bytes(bytes)),
            OperationValue::Integer(n) => OperationValue::Integer(*n),
            OperationValue::Float(bits) => OperationValue::Float(*bits),
            OperationValue::String(text) => OperationValue::String(text.clone()),
            OperationValue::Relation(id) => OperationValue::Relation(id.clone()),
            OperationValue::RelationList(ids) => OperationValue::RelationList(
                copy_document_ids(ids),
            ),
            OperationValue::PinnedRelation(id) => OperationValue::PinnedRelation(id.clone()),
            OperationValue::PinnedRelationList(ids) => OperationValue::PinnedRelationList(
                copy_view_ids(ids),
            ),
        }
    }
}

impl OperationValue {
    /// The type of the value.
    pub fn field_type(&self) -> (field_type: FieldType)
        ensures
            field_type == value_type(self@),
    {
        match self {
            OperationValue::Boolean(_) => FieldType::Boolean,
            OperationValue::Bytes(_) => FieldType::Bytes,
            OperationValue::Integer(_) => FieldType::Integer,
            OperationValue::Float(_) => FieldType::Float,
            OperationValue::String(_) => FieldType::String,
            OperationValue::Relation(_) => FieldType::Relation,
            OperationValue::RelationList(_) => FieldType::RelationList,
            OperationValue::PinnedRelation(_) => FieldType::PinnedRelation,
            OperationValue::PinnedRelationList(_) => FieldType::PinnedRelationList,
        }
    }
}

/// One field of an operation: a name and a value.
#[derive(Debug, PartialEq, Eq)]
pub struct OperationField {
    pub name: String,
    pub value: OperationValue,
}

/// One field of an operation, as plain values.
pub struct FieldEntry {
    pub name: Seq<char>,
    pub value: Value,
}

impl View for OperationField {
    type V = FieldEntry;

    open spec fn view(&self) -> FieldEntry {
        FieldEntry { name: self.name@, value: self.value@ }
    }
}

impl Clone for OperationField {
    fn clone(&self) -> (r: Self)
        ensures
            r@ == self@,
    {
        OperationField { name: self.name.clone(), value: self.value.clone() }
    }
}

/// The fields of a vector of fields, as plain values.
pub open spec fn fields_view(fields: Seq<OperationField>) -> Seq<FieldEntry> {
    fields.map_values(|f: OperationField| f@)
}

/// An operation: what was done to a document of which schema, after which
/// earlier operations, and with which field values, in their order.
#[derive(Debug, PartialEq, Eq)]
pub struct Operation {
    pub action: OperationAction,
    pub schema_id: SchemaId,
    pub previous: Option<DocumentViewId>,
    pub fields: Vec<OperationField>,
}

/// An operation, as plain values.
pub struct OperationView {
    pub action: OperationAction,
    pub schema_id: Seq<char>,
    pub previous: Option<Seq<Seq<char>>>,
    pub fields: Seq<FieldEntry>,
}

impl View for Operation {
    type V = OperationView;

    open spec fn view(&self) -> OperationView {
        OperationView {
            action: self.action,
            schema_id: self.schema_id@,
            previous: match self.previous {
                Some(previous) => Some(previous@),
                None => None,
            },
            fields: fields_view(self.fields@),
        }
    }
}

/// No two fields have the same name.
pub open spec fn distinct_names(fields: Seq<FieldEntry>) -> bool {
    forall|i: int, j: int|
        0 <= i < j < fields.len() ==> (#[trigger] fields[i]).name != (#[trigger] fields[j]).name
}

/// The ids that the operation holds are well-formed, and no two of its
/// fields have the same name.
pub open spec fn is_operation(operation: OperationView) -> bool {
    &&& operation.previous matches Some(previous) ==> is_view_id(previous)
    &&& forall|k: int|
        0 <= k < operation.fields.len() ==> is_value((#[trigger] operation.fields[k]).value)
    &&& distinct_names(operation.fields)
}

/// A copy of a vector of fields.
pub fn copy_fields(fields: &Vec<OperationField>) -> (copy: Vec<OperationField>)
    ensures
        fields_view(copy@) == fields_view(fields@),
{
    let mut copy: Vec<OperationField> = Vec::new();
    let mut i: usize = 0;
    while i < fields.len()
        invariant
            i <= fields.len(),
            copy.len() == i,
            forall|j: int| 0 <= j < i ==> copy@[j]@ == fields@[j]@,
        decreases fields.len() - i,
    {
        copy.push(fields[i].clone());
        i += 1;
    }
    assert(fields_view(copy@) =~= fields_view(fields@));
    copy
}

impl Clone for Operation {
    fn clone(&self) -> (r: Self)
        ensures
            r@ == self@,
    {
        Operation {
            action: self.action,
            schema_id: self.schema_id.clone(),
            previous: match &self.previous {
                Some(previous) => Some(previous.clone()),
                None => None,
            },
            fields: copy_fields(&self.fields),
        }
    }
}

impl Operation {
    /// The operation that creates a document with the given fields.
    pub fn create(schema_id: SchemaId, fields: Vec<OperationField>) -> (operation: Operation)
        ensures
            operation@ == (OperationView {
                action: OperationAction::Create,
                schema_id: schema_id@,
                previous: None,
                fields: fields_view(fields@),
            }),
    {
        Operation { action: OperationAction::Create, schema_id, previous: None, fields }
    }

    /// The operation that gives new values to fields of a document.
    pub fn update(
        schema_id: SchemaId,
        previous: DocumentViewId,
        fields: Vec<OperationField>,
    ) -> (operation: Operation)
        ensures
            operation@ == (OperationView {
                action: OperationAction::Update,
                schema_id: schema_id@,
                previous: Some(previous@),
                fields: fields_view(fields@),
            }),
    {
        Operation { action: OperationAction::Update, schema_id, previous: Some(previous), fields }
    }

    /// The operation that deletes a document.
    pub fn delete(schema_id: SchemaId, previous: DocumentViewId) -> (operation: Operation)
        ensures
            operation@ == (OperationView {
                action: OperationAction::Delete,
                schema_id: schema_id@,
                previous: Some(previous@),
                fields: Seq::empty(),
            }),
    {
        let operation = Operation {
            action: OperationAction::Delete,
            schema_id,
            previous: Some(previous),
            fields: Vec::new(),
        };
        assert(fields_view(operation.fields@) =~= Seq::<FieldEntry>::empty());
        operation
    }

    /// Whether no two fields of the operation have the same name.
    pub fn has_distinct_names(&self) -> (r: bool)
        ensures
            r == distinct_names(self@.fields),
    {
        let mut j: usize = 0;
        while j < self.fields.len()
            invariant
                j <= self.fields.len(),
                forall|a: int, b: int|
                    0 <= a < b < j ==> (#[trigger] self@.fields[a]).name != (
                    #[trigger] self@.fields[b]).name,
            decreases self.fields.len() - j,
        {
            let mut i: usize = 0;
            while i < j
                invariant
                    i <= j < self.fields.len(),
                    forall|a: int| 0 <= a < i ==> (#[trigger] self@.fields[a]).name != self@.fields[j as int].name,
                decreases j - i,
            {
                if same_text(self.fields[i].name.as_str(), self.fields[j].name.as_str()) {
                    assert(self@.fields[i as int].name == self@.fields[j as int].name);
                    return false;
                }
                i += 1;
            }
            j += 1;
        }
        true
    }
}

} // verus!
