//! The document materializer: from the view of a document to the document
//! as a client sees it, with every relation followed to the document it
//! points at.

use vstd::prelude::*;
use crate::ids::{DocumentId, DocumentViewId, ID_SEPARATOR};
use crate::operation::{
    copy_bytes, copy_fields, document_ids_view, fields_view, view_ids_view, FieldEntry,
    OperationField, OperationValue, Value,
};
use crate::query::{FieldView, Select, Field};
use crate::text::join_texts;

verus! {

/// The field values of a document at one moment of its history.
#[derive(Debug, PartialEq, Eq)]
pub struct DocumentView {
    pub id: DocumentViewId,
    pub document_id: DocumentId,
    pub fields: Vec<OperationField>,
}

/// A document view, as plain values.
pub struct ViewModel {
    pub id: Seq<Seq<char>>,
    pub document_id: Seq<char>,
    pub fields: Seq<FieldEntry>,
}

impl View for DocumentView {
    type V = ViewModel;

    open spec fn view(&self) -> ViewModel {
        ViewModel { id: self.id@, document_id: self.document_id@, fields: fields_view(self.fields@) }
    }
}

impl Clone for DocumentView {
    fn clone(&self) -> (r: Self)
        ensures
            r@ == self@,
    {
        DocumentView {
            id: self.id.clone(),
            document_id: self.document_id.clone(),
            fields: copy_fields(&self.fields),
        }
    }
}

/// The fields of a view that a selection names, in the order of the view.
pub open spec fn selected_entries(fields: Seq<FieldEntry>, select: Seq<FieldView>) -> Seq<
    FieldEntry,
>
    decreases fields.len(),
{
    if fields.len() == 0 {
        Seq::empty()
    } else {
        let before = selected_entries(fields.drop_last(), select);
        if select.contains(FieldView::Named(fields.last().name)) {
            before.push(fields.last())
        } else {
            before
        }
    }
}

impl DocumentView {
    /// The view with only the fields that the selection names.
    pub fn select(&self, select: &Select) -> (view: DocumentView)
        ensures
            view@ == (ViewModel {
                id: self@.id,
                document_id: self@.document_id,
                fields: selected_entries(self@.fields, select@),
            }),
    {
        let ghost all = fields_view(self.fields@);
        let mut fields: Vec<OperationField> = Vec::new();
        let mut i: usize = 0;
        assert(all.take(0) =~= Seq::<FieldEntry>::empty());
        assert(fields_view(fields@) =~= Seq::<FieldEntry>::empty());
        while i < self.fields.len()
            invariant
                i <= self.fields.len(),
                all == fields_view(self.fields@),
                fields_view(fields@) == selected_entries(all.take(i as int), select@),
            decreases self.fields.len() - i,
        {
            proof {
                let longer = all.take(i + 1);
                assert(longer.drop_last() =~= all.take(i as int));
                assert(longer.last() == self.fields@[i as int]@);
            }
            let name = Field::new(self.fields[i].name.as_str());
            if select.contains(&name) {
                let ghost before = fields_view(fields@);
                fields.push(self.fields[i].clone());
                assert(fields_view(fields@) =~= before.push(self.fields@[i as int]@));
            }
            i += 1;
        }
        assert(all.take(i as int) =~= all);
        DocumentView { id: self.id.clone(), document_id: self.document_id.clone(), fields }
    }
}

/// The views of a vector of views, as plain values.
pub open spec fn views_view(views: Seq<DocumentView>) -> Seq<ViewModel> {
    views.map_values(|v: DocumentView| v@)
}

/// The view that was added last for the document with the given id.
pub open spec fn latest_view(views: Seq<ViewModel>, document_id: Seq<char>) -> Option<ViewModel>
    decreases views.len(),
{
    if views.len() == 0 {
        None
    } else if views.last().document_id == document_id {
        Some(views.last())
    } else {
        latest_view(views.drop_last(), document_id)
    }
}

/// The view with the given id; of several, the one that was added last.
pub open spec fn view_with_id(views: Seq<ViewModel>, id: Seq<Seq<char>>) -> Option<ViewModel>
    decreases views.len(),
{
    if views.len() == 0 {
        None
    } else if views.last().id == id {
        Some(views.last())
    } else {
        view_with_id(views.drop_last(), id)
    }
}

/// The views of documents that are known: what relations are resolved in.
#[derive(Debug, PartialEq, Eq)]
pub struct DocumentViews {
    views: Vec<DocumentView>,
}

impl View for DocumentViews {
    type V = Seq<ViewModel>;

    closed spec fn view(&self) -> Seq<ViewModel> {
        views_view(self.views@)
    }
}

impl DocumentViews {
    /// No views at all.
    pub fn new() -> (views: DocumentViews)
        ensures
            views@ == Seq::<ViewModel>::empty(),
    {
        let views = DocumentViews { views: Vec::new() };
        assert(views@ =~= Seq::<ViewModel>::empty());
        views
    }

    /// Adds a view. It becomes the latest view of its document.
    pub fn add(&mut self, view: DocumentView)
        ensures
            final(self)@ == old(self)@.push(view@),
    {
        self.views.push(view);
        assert(self@ =~= old(self)@.push(view@));
    }

    /// The latest view of the document with the given id.
    pub fn latest(&self, document_id: &DocumentId) -> (r: Option<&DocumentView>)
        ensures
            match r {
                Some(view) => latest_view(self@, document_id@) == Some(view@),
                None => latest_view(self@, document_id@) is None,
            },
    {
        let ghost all = self@;
        let mut i: usize = self.views.len();
        assert(all.take(i as int) =~= all);
        while i > 0
            invariant
                i <= self.views.len(),
                all == self@,
                latest_view(all, document_id@) == latest_view(all.take(i as int), document_id@),
            decreases i,
        {
            proof {
                let front = all.take(i as int);
                assert(front.drop_last() =~= all.take(i - 1));
                assert(front.last() == self.views@[i - 1]@);
            }
            if self.views[i - 1].document_id.same(document_id) {
                return Some(&self.views[i - 1]);
            }
            i -= 1;
        }
        None
    }

    /// The view with the given id.
    pub fn by_view_id(&self, id: &DocumentViewId) -> (r: Option<&DocumentView>)
        ensures
            match r {
                Some(view) => view_with_id(self@, id@) == Some(view@),
                None => view_with_id(self@, id@) is None,
            },
    {
        let ghost all = self@;
        let mut i: usize = self.views.len();
        assert(all.take(i as int) =~= all);
        while i > 0
            invariant
                i <= self.views.len(),
                all == self@,
                view_with_id(all, id@) == view_with_id(all.take(i as int), id@),
            decreases i,
        {
            proof {
                let front = all.take(i as int);
                assert(front.drop_last() =~= all.take(i - 1));
                assert(front.last() == self.views@[i - 1]@);
            }
            if self.views[i - 1].id.same(id) {
                return Some(&self.views[i - 1]);
            }
            i -= 1;
        }
        None
    }
}

/// The value of a field of a materialized document: a plain value, or the
/// documents that a relation points at.
#[derive(Debug, PartialEq, Eq)]
pub enum DocumentValue {
    Boolean(bool),
    Bytes(Vec<u8>),
    Integer(i64),
    /// The bit pattern of a double.
    Float(u64),
    String(String),
    Relation(Box<Document>),
    RelationList(Vec<Document>),
    PinnedRelation(Box<Document>),
    PinnedRelationList(Vec<Document>),
}

/// A field of a materialized document.
#[derive(Debug, PartialEq, Eq)]
pub struct DocumentField {
    pub name: String,
    pub value: DocumentValue,
}

/// A document as a client sees it.
#[derive(Debug, PartialEq, Eq)]
pub struct Document {
    pub document_id: DocumentId,
    pub view_id: DocumentViewId,
    pub fields: Vec<DocumentField>,
}

/// The value of a field of a materialized document, as plain values.
pub enum DocumentValueModel {
    Boolean(bool),
    Bytes(Seq<u8>),
    Integer(i64),
    Float(u64),
    Text(Seq<char>),
    Relation(Box<DocumentModel>),
    RelationList(Seq<DocumentModel>),
    PinnedRelation(Box<DocumentModel>),
    PinnedRelationList(Seq<DocumentModel>),
}

/// A field of a materialized document, as plain values.
pub struct DocumentFieldModel {
    pub name: Seq<char>,
    pub value: DocumentValueModel,
}

/// A materialized document, as plain values.
pub struct DocumentModel {
    pub document_id: Seq<char>,
    pub view_id: Seq<Seq<char>>,
    pub fields: Seq<DocumentFieldModel>,
}

/// What a document holds, as plain values.
pub open spec fn document_model(document: Document) -> DocumentModel
    decreases document,
{
    DocumentModel {
        document_id: document.document_id@,
        view_id: document.view_id@,
        fields: Seq::new(
            document.fields.len() as nat,
            |i: int|
                if 0 <= i < document.fields.len() {
                    field_model(document.fields[i])
                } else {
                    arbitrary()
                },
        ),
    }
}

/// What a field of a document holds, as plain values.
pub open spec fn field_model(field: DocumentField) -> DocumentFieldModel
    decreases field,
{
    DocumentFieldModel { name: field.name@, value: value_model(field.value) }
}

/// What the value of a field of a document holds, as plain values.
pub open spec fn value_model(value: DocumentValue) -> DocumentValueModel
    decreases value,
{
    match value {
        DocumentValue::Boolean(b) => DocumentValueModel::Boolean(b),
        DocumentValue::Bytes(bytes) => DocumentValueModel::Bytes(bytes@),
        DocumentValue::Integer(n) => DocumentValueModel::Integer(n),
        DocumentValue::Float(bits) => DocumentValueModel::Float(bits),
        DocumentValue::String(text) => DocumentValueModel::Text(text@),
        DocumentValue::Relation(document) => DocumentValueModel::Relation(
            Box::new(document_model(*document)),
        ),
        DocumentValue::RelationList(documents) => DocumentValueModel::RelationList(
            Seq::new(
                documents.len() as nat,
                |i: int|
                    if 0 <= i < documents.len() {
                        document_model(documents[i])
                    } else {
                        arbitrary()
                    },
            ),
        ),
        DocumentValue::PinnedRelation(document) => DocumentValueModel::PinnedRelation(
            Box::new(document_model(*document)),
        ),
        DocumentValue::PinnedRelationList(documents) => DocumentValueModel::PinnedRelationList(
            Seq::new(
                documents.len() as nat,
                |i: int|
                    if 0 <= i < documents.len() {
                        document_model(documents[i])
                    } else {
                        arbitrary()
                    },
            ),
        ),
    }
}

impl View for Document {
    type V = DocumentModel;

    open spec fn view(&self) -> DocumentModel {
        document_model(*self)
    }
}

/// Why a document could not be materialized.
#[derive(Debug, PartialEq, Eq)]
pub enum MaterializationError {
    /// A relation points at a document, or at a view, that is not known.
    /// The text names what was looked for.
    NotFound(String),
    /// Relations were followed as deep as allowed, and there is one more.
    DepthExceeded,
}

/// Why a document could not be materialized, as plain values.
pub enum Fault {
    NotFound(Seq<char>),
    DepthExceeded,
}

impl View for MaterializationError {
    type V = Fault;

    open spec fn view(&self) -> Fault {
        match self {
            MaterializationError::NotFound(target) => Fault::NotFound(target@),
            MaterializationError::DepthExceeded => Fault::DepthExceeded,
        }
    }
}

/// What a relation points at: the latest view of a document, or one view.
pub enum Target {
    Document(Seq<char>),
    View(Seq<Seq<char>>),
}

/// The view that a relation is resolved to, or the reason why it is not:
/// no relation is followed at depth zero, and what is not known is not
/// found.
pub open spec fn resolved(views: Seq<ViewModel>, target: Target, depth: nat) -> Result<
    ViewModel,
    Fault,
> {
    if depth == 0 {
        Err(Fault::DepthExceeded)
    } else {
        match target {
            Target::Document(id) => match latest_view(views, id) {
                Some(view) => Ok(view),
                None => Err(Fault::NotFound(id)),
            },
            Target::View(id) => match view_with_id(views, id) {
                Some(view) => Ok(view),
                None => Err(Fault::NotFound(join_texts(id, ID_SEPARATOR))),
            },
        }
    }
}

/// The document of a view: its fields in their order, each relation
/// followed, up to `depth` relations deep. The first field that cannot be
/// materialized decides the error.
pub open spec fn expanded(views: Seq<ViewModel>, view: ViewModel, depth: nat) -> Result<
    DocumentModel,
    Fault,
>
    decreases depth, 3nat, 0nat,
{
    match expanded_fields(views, view.fields, depth) {
        Ok(fields) => Ok(DocumentModel { document_id: view.document_id, view_id: view.id, fields }),
        Err(e) => Err(e),
    }
}

/// The fields of a document, in the order of the fields of its view.
pub open spec fn expanded_fields(views: Seq<ViewModel>, fields: Seq<FieldEntry>, depth: nat) -> Result<
    Seq<DocumentFieldModel>,
    Fault,
>
    decreases depth, 2nat, fields.len(),
{
    if fields.len() == 0 {
        Ok(Seq::empty())
    } else {
        match expanded_fields(views, fields.drop_last(), depth) {
            Err(e) => Err(e),
            Ok(before) => match expanded_value(views, fields.last().value, depth) {
                Err(e) => Err(e),
                Ok(value) => Ok(
                    before.push(DocumentFieldModel { name: fields.last().name, value }),
                ),
            },
        }
    }
}

/// The value of a field of a document: a plain value as it is, a relation
/// as the document of the latest view of its target, a pinned relation as
/// the document of the view it names, and a list element by element.
pub open spec fn expanded_value(views: Seq<ViewModel>, value: Value, depth: nat) -> Result<
    DocumentValueModel,
    Fault,
>
    decreases depth, 1nat, 0nat,
{
    match value {
        Value::Boolean(b) => Ok(DocumentValueModel::Boolean(b)),
        Value::Bytes(bytes) => Ok(DocumentValueModel::Bytes(bytes)),
        Value::Integer(n) => Ok(DocumentValueModel::Integer(n)),
        Value::Float(bits) => Ok(DocumentValueModel::Float(bits)),
        Value::Text(text) => Ok(DocumentValueModel::Text(text)),
        Value::Relation(id) => match expanded_target(views, Target::Document(id), depth) {
            Ok(document) => Ok(DocumentValueModel::Relation(Box::new(document))),
            Err(e) => Err(e),
        },
        Value::RelationList(ids) => match expanded_targets(views, document_targets(ids), depth) {
            Ok(documents) => Ok(DocumentValueModel::RelationList(documents)),
            Err(e) => Err(e),
        },
        Value::PinnedRelation(id) => match expanded_target(views, Target::View(id), depth) {
            Ok(document) => Ok(DocumentValueModel::PinnedRelation(Box::new(document))),
            Err(e) => Err(e),
        },
        Value::PinnedRelationList(ids) => match expanded_targets(views, view_targets(ids), depth) {
            Ok(documents) => Ok(DocumentValueModel::PinnedRelationList(documents)),
            Err(e) => Err(e),
        },
    }
}

/// The document that a relation points at.
pub open spec fn expanded_target(views: Seq<ViewModel>, target: Target, depth: nat) -> Result<
    DocumentModel,
    Fault,
>
    decreases depth, 0nat, 0nat,
{
    match resolved(views, target, depth) {
        Ok(view) => expanded(views, view, (depth - 1) as nat),
        Err(e) => Err(e),
    }
}

/// The documents that the relations of a list point at, in their order.
pub open spec fn expanded_targets(views: Seq<ViewModel>, targets: Seq<Target>, depth: nat) -> Result<
    Seq<DocumentModel>,
    Fault,
>
    decreases depth, 0nat, targets.len() + 1,
{
    if targets.len() == 0 {
        Ok(Seq::empty())
    } else {
        match expanded_targets(views, targets.drop_last(), depth) {
            Err(e) => Err(e),
            Ok(before) => match expanded_target(views, targets.last(), depth) {
                Err(e) => Err(e),
                Ok(document) => Ok(before.push(document)),
            },
        }
    }
}

/// The documents of a vector of documents, as plain values.
pub open spec fn documents_model(documents: Seq<Document>) -> Seq<DocumentModel> {
    Seq::new(documents.len(), |i: int| document_model(documents[i]))
}

/// The fields of a vector of fields of a document, as plain values.
pub open spec fn fields_model(fields: Seq<DocumentField>) -> Seq<DocumentFieldModel> {
    Seq::new(fields.len(), |i: int| field_model(fields[i]))
}

/// The targets of the relations of a list of document ids.
pub open spec fn document_targets(ids: Seq<Seq<char>>) -> Seq<Target> {
    Seq::new(ids.len(), |i: int| Target::Document(ids[i]))
}

/// The targets of the relations of a list of view ids.
pub open spec fn view_targets(ids: Seq<Seq<Seq<char>>>) -> Seq<Target> {
    Seq::new(ids.len(), |i: int| Target::View(ids[i]))
}

/// The fields of a materialized document are the fields of its view, name
/// for name and in the same order.
pub proof fn law_field_order_is_kept(views: Seq<ViewModel>, view: ViewModel, depth: nat)
    requires
        expanded(views, view, depth) is Ok,
    ensures
        expanded(views, view, depth)->Ok_0.document_id == view.document_id,
        expanded(views, view, depth)->Ok_0.view_id == view.id,
        expanded(views, view, depth)->Ok_0.fields.len() == view.fields.len(),
        forall|k: int|
            0 <= k < view.fields.len() ==> (#[trigger] expanded(views, view, depth)->Ok_0.fields[k]).name
                == view.fields[k].name,
{
    lemma_field_names(views, view.fields, depth);
}

/// Materialized fields have the names of the fields they come from.
proof fn lemma_field_names(views: Seq<ViewModel>, fields: Seq<FieldEntry>, depth: nat)
    requires
        expanded_fields(views, fields, depth) is Ok,
    ensures
        expanded_fields(views, fields, depth)->Ok_0.len() == fields.len(),
        forall|k: int|
            0 <= k < fields.len() ==> (#[trigger] expanded_fields(views, fields, depth)->Ok_0[k]).name
                == fields[k].name,
    decreases fields.len(),
{
    if fields.len() > 0 {
        lemma_field_names(views, fields.drop_last(), depth);
    }
}

/// Once a field cannot be materialized, the fields as a whole cannot.
proof fn lemma_field_fault_stays(views: Seq<ViewModel>, fields: Seq<FieldEntry>, depth: nat, n: int)
    requires
        0 <= n <= fields.len(),
        expanded_fields(views, fields.take(n), depth) is Err,
    ensures
        expanded_fields(views, fields, depth) == expanded_fields(views, fields.take(n), depth),
    decreases fields.len() - n,
{
    if n == fields.len() {
        assert(fields.take(n) =~= fields);
    } else {
        let longer = fields.take(n + 1);
        assert(longer.drop_last() =~= fields.take(n));
        lemma_field_fault_stays(views, fields, depth, n + 1);
    }
}

/// Once a relation of a list cannot be followed, the list as a whole
/// cannot be materialized.
proof fn lemma_target_fault_stays(views: Seq<ViewModel>, targets: Seq<Target>, depth: nat, n: int)
    requires
        0 <= n <= targets.len(),
        expanded_targets(views, targets.take(n), depth) is Err,
    ensures
        expanded_targets(views, targets, depth) == expanded_targets(views, targets.take(n), depth),
    decreases targets.len() - n,
{
    if n == targets.len() {
        assert(targets.take(n) =~= targets);
    } else {
        let longer = targets.take(n + 1);
        assert(longer.drop_last() =~= targets.take(n));
        lemma_target_fault_stays(views, targets, depth, n + 1);
    }
}

/// Materializes the document of a view: the fields of the view in their
/// order, and in place of each relation the document it points at,
/// materialized in the same way. A relation points at the latest view of
/// its document; a pinned relation at the view it names. Relations are
/// followed `max_depth` deep and no deeper.
///
/// Fails with `NotFound` where a relation points at what is not among the
/// views, and with `DepthExceeded` where a relation is left at depth zero.
pub fn materialize(view: &DocumentView, views: &DocumentViews, max_depth: usize) -> (r: Result<
    Document,
    MaterializationError,
>)
    ensures
        match r {
            Ok(document) => expanded(views@, view@, max_depth as nat) == Ok::<DocumentModel, Fault>(
                document@,
            ),
            Err(e) => expanded(views@, view@, max_depth as nat) == Err::<DocumentModel, Fault>(e@),
        },
    decreases max_depth, 3nat, 0nat,
{
    match materialize_fields(&view.fields, views, max_depth) {
        Ok(fields) => {
            let document = Document {
                document_id: view.document_id.clone(),
                view_id: view.id.clone(),
                fields,
            };
            assert(document@.fields =~= fields_model(document.fields@));
            Ok(document)
        },
        Err(e) => Err(e),
    }
}

/// Materializes the fields of a view, in their order.
fn materialize_fields(fields: &Vec<OperationField>, views: &DocumentViews, depth: usize) -> (r:
    Result<Vec<DocumentField>, MaterializationError>)
    ensures
        match r {
            Ok(done) => expanded_fields(views@, fields_view(fields@), depth as nat) == Ok::<
                Seq<DocumentFieldModel>,
                Fault,
            >(fields_model(done@)),
            Err(e) => expanded_fields(views@, fields_view(fields@), depth as nat) == Err::<
                Seq<DocumentFieldModel>,
                Fault,
            >(e@),
        },
    decreases depth, 2nat, fields.len(),
{
    let ghost all = fields_view(fields@);
    let mut done: Vec<DocumentField> = Vec::new();
    let mut i: usize = 0;
    assert(all.take(0) =~= Seq::<FieldEntry>::empty());
    assert(fields_model(done@) =~= Seq::<DocumentFieldModel>::empty());
    while i < fields.len()
        invariant
            i <= fields.len(),
            all == fields_view(fields@),
            expanded_fields(views@, all.take(i as int), depth as nat) == Ok::<
                Seq<DocumentFieldModel>,
                Fault,
            >(fields_model(done@)),
        decreases fields.len() - i,
    {
        proof {
            let longer = all.take(i + 1);
            assert(longer.drop_last() =~= all.take(i as int));
            assert(longer.last() == fields@[i as int]@);
        }
        match materialize_value(&fields[i].value, views, depth) {
            Ok(value) => {
                let field = DocumentField { name: fields[i].name.clone(), value };
                let ghost before = fields_model(done@);
                let ghost model = field_model(field);
                done.push(field);
                assert(fields_model(done@) =~= before.push(model));
            },
            Err(e) => {
                proof {
                    lemma_field_fault_stays(views@, all, depth as nat, i + 1);
                }
                return Err(e);
            },
        }
        i += 1;
    }
    assert(all.take(i as int) =~= all);
    Ok(done)
}

/// Materializes the value of one field.
fn materialize_value(value: &OperationValue, views: &DocumentViews, depth: usize) -> (r: Result<
    DocumentValue,
    MaterializationError,
>)
    ensures
        match r {
            Ok(done) => expanded_value(views@, value@, depth as nat) == Ok::<
                DocumentValueModel,
                Fault,
            >(value_model(done)),
            Err(e) => expanded_value(views@, value@, depth as nat) == Err::<
                DocumentValueModel,
                Fault,
            >(e@),
        },
    decreases depth, 1nat, 0nat,
{
    match value {
        OperationValue::Boolean(b) => Ok(DocumentValue::Boolean(*b)),
        OperationValue::Bytes(bytes) => Ok(DocumentValue::Bytes(copy_bytes(bytes))),
        OperationValue::Integer(n) => Ok(DocumentValue::Integer(*n)),
        OperationValue::Float(bits) => Ok(DocumentValue::Float(*bits)),
        OperationValue::String(text) => Ok(DocumentValue::String(text.clone())),
        OperationValue::Relation(id) => match materialize_relation(id, views, depth) {
            Ok(document) => Ok(DocumentValue::Relation(Box::new(document))),
            Err(e) => Err(e),
        },
        OperationValue::RelationList(ids) => {
            let ghost targets = document_targets(document_ids_view(ids@));
            let mut done: Vec<Document> = Vec::new();
            let mut i: usize = 0;
            assert(targets.take(0) =~= Seq::<Target>::empty());
            assert(documents_model(done@) =~= Seq::<DocumentModel>::empty());
            while i < ids.len()
                invariant
                    i <= ids.len(),
                    targets == document_targets(document_ids_view(ids@)),
                    value@ == Value::RelationList(document_ids_view(ids@)),
                    expanded_targets(views@, targets.take(i as int), depth as nat) == Ok::<
                        Seq<DocumentModel>,
                        Fault,
                    >(documents_model(done@)),
                decreases ids.len() - i,
            {
                proof {
                    let longer = targets.take(i + 1);
                    assert(longer.drop_last() =~= targets.take(i as int));
                    assert(longer.last() == Target::Document(ids@[i as int]@));
                }
                match materialize_relation(&ids[i], views, depth) {
                    Ok(document) => {
                        let ghost before = documents_model(done@);
                        let ghost model = document@;
                        done.push(document);
                        assert(documents_model(done@) =~= before.push(model));
                    },
                    Err(e) => {
                        proof {
                            lemma_target_fault_stays(views@, targets, depth as nat, i + 1);
                        }
                        return Err(e);
                    },
                }
                i += 1;
            }
            assert(targets.take(i as int) =~= targets);
            let result = DocumentValue::RelationList(done);
            assert(value_model(result) == DocumentValueModel::RelationList(
                documents_model(done@),
            )) by {
                assert(documents_model(done@) =~= value_model(result)->RelationList_0);
            }
            Ok(result)
        },
        OperationValue::PinnedRelation(id) => match materialize_pinned_relation(id, views, depth) {
            Ok(document) => Ok(DocumentValue::PinnedRelation(Box::new(document))),
            Err(e) => Err(e),
        },
        OperationValue::PinnedRelationList(ids) => {
            let ghost targets = view_targets(view_ids_view(ids@));
            let mut done: Vec<Document> = Vec::new();
            let mut i: usize = 0;
            assert(targets.take(0) =~= Seq::<Target>::empty());
            assert(documents_model(done@) =~= Seq::<DocumentModel>::empty());
            while i < ids.len()
                invariant
                    i <= ids.len(),
                    targets == view_targets(view_ids_view(ids@)),
                    value@ == Value::PinnedRelationList(view_ids_view(ids@)),
                    expanded_targets(views@, targets.take(i as int), depth as nat) == Ok::<
                        Seq<DocumentModel>,
                        Fault,
                    >(documents_model(done@)),
                decreases ids.len() - i,
            {
                proof {
                    let longer = targets.take(i + 1);
                    assert(longer.drop_last() =~= targets.take(i as int));
                    assert(longer.last() == Target::View(ids@[i as int]@));
                }
                match materialize_pinned_relation(&ids[i], views, depth) {
                    Ok(document) => {
                        let ghost before = documents_model(done@);
                        let ghost model = document@;
                        done.push(document);
                        assert(documents_model(done@) =~= before.push(model));
                    },
                    Err(e) => {
                        proof {
                            lemma_target_fault_stays(views@, targets, depth as nat, i + 1);
                        }
                        return Err(e);
                    },
                }
                i += 1;
            }
            assert(targets.take(i as int) =~= targets);
            let result = DocumentValue::PinnedRelationList(done);
            assert(value_model(result) == DocumentValueModel::PinnedRelationList(
                documents_model(done@),
            )) by {
                assert(documents_model(done@) =~= value_model(result)->PinnedRelationList_0);
            }
            Ok(result)
        },
    }
}

/// Materializes the document that a relation points at: the latest view
/// of the document with the given id.
fn materialize_relation(id: &DocumentId, views: &DocumentViews, depth: usize) -> (r: Result<
    Document,
    MaterializationError,
>)
    ensures
        match r {
            Ok(document) => expanded_target(views@, Target::Document(id@), depth as nat) == Ok::<
                DocumentModel,
                Fault,
            >(document@),
            Err(e) => expanded_target(views@, Target::Document(id@), depth as nat) == Err::<
                DocumentModel,
                Fault,
            >(e@),
        },
    decreases depth, 0nat, 0nat,
{
    if depth == 0 {
        return Err(MaterializationError::DepthExceeded);
    }
    match views.latest(id) {
        Some(view) => materialize(view, views, depth - 1),
        None => Err(MaterializationError::NotFound(id.as_str().to_owned())),
    }
}

/// Materializes the document that a pinned relation points at: the view
/// with the given id.
fn materialize_pinned_relation(id: &DocumentViewId, views: &DocumentViews, depth: usize) -> (r:
    Result<Document, MaterializationError>)
    ensures
        match r {
            Ok(document) => expanded_target(views@, Target::View(id@), depth as nat) == Ok::<
                DocumentModel,
                Fault,
            >(document@),
            Err(e) => expanded_target(views@, Target::View(id@), depth as nat) == Err::<
                DocumentModel,
                Fault,
            >(e@),
        },
    decreases depth, 0nat, 0nat,
{
    if depth == 0 {
        return Err(MaterializationError::DepthExceeded);
    }
    match views.by_view_id(id) {
        Some(view) => materialize(view, views, depth - 1),
        None => Err(MaterializationError::NotFound(id.to_text())),
    }
}

} // verus!
