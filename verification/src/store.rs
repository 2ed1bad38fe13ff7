//! The operation store: operations are added once and never changed, and
//! are read back by their id, by their document or by their schema.

use vstd::prelude::*;
use crate::assemble::{
    is_conflict, joined_rows_view, parse_operation_rows, JoinedRowView,
    OperationFieldsJoinedRow, StorageError, StorageOperation, StoredOperation,
};
use crate::ids::{DocumentId, OperationId, PublicKey, SchemaId};
use crate::join::{
    group_rows_by_operation_id, groups_of, groups_view, join_rows,
    lemma_operation_ids_ascending, lemma_operation_ids_distinct, operation_ids,
    sort_by_list_index,
};
use crate::operation::{distinct_names, Operation};
use crate::round_trip::{
    field_rows_of, is_stored, lemma_rows_round_trip, operation_row_of, stored,
};
use crate::rows::{
    field_rows_view, operation_field_rows, operation_row, OperationFieldRow, OperationRow,
};
use crate::scan::{
    holds_id, ids_of, in_document, in_schema, is_log, lemma_scanned_count,
    lemma_scanned_group, lemma_selected_is_scanned, operation_with_id, same_operations, scan_result, scan_rows, scanned,
    selected_with_id,
};
use crate::text::{ascending, same_text, text_lt};

verus! {

/// The message of the conflict that an operation causes whose id is in the
/// store already.
pub open spec fn id_conflict_message() -> Seq<char> {
    "An operation with this id exists already"@
}

/// The message of the conflict that an operation causes of which two field
/// rows would have the same name and list position.
pub open spec fn field_conflict_message() -> Seq<char> {
    "A field row with this name and position exists already"@
}

/// The rows of one operation: its row in the table of operations and its
/// rows in the table of operation fields.
struct StoredRows {
    operation: OperationRow,
    fields: Vec<OperationFieldRow>,
}

/// A store of operations that keeps its two tables in memory. The rows of
/// the table of operation fields are kept together by operation.
pub struct MemoryStore {
    entries: Vec<StoredRows>,
    log: Ghost<Seq<StoredOperation>>,
}

impl View for MemoryStore {
    type V = Seq<StoredOperation>;

    /// The operations that were inserted, in their order.
    closed spec fn view(&self) -> Seq<StoredOperation> {
        self.log@
    }
}

impl MemoryStore {
    /// The tables hold the rows of the operations that were inserted, and
    /// nothing else.
    pub closed spec fn wf(&self) -> bool {
        &&& is_log(self.log@)
        &&& self.entries.len() == self.log@.len()
        &&& forall|i: int|
            0 <= i < self.entries.len() ==> (#[trigger] self.entries[i]).operation@
                == operation_row_of(self.log@[i])
        &&& forall|i: int|
            0 <= i < self.entries.len() ==> field_rows_view((#[trigger] self.entries[i]).fields@)
                == field_rows_of(self.log@[i])
    }

    /// A store without operations.
    pub fn new() -> (store: MemoryStore)
        ensures
            store.wf(),
            store@ == Seq::<StoredOperation>::empty(),
    {
        MemoryStore { entries: Vec::new(), log: Ghost(Seq::empty()) }
    }

    /// How many operations the store holds.
    pub fn len(&self) -> (n: usize)
        requires
            self.wf(),
        ensures
            n == self@.len(),
    {
        self.entries.len()
    }

    /// A store in order holds well-formed operations, each id once.
    pub proof fn lemma_log(&self)
        requires
            self.wf(),
        ensures
            is_log(self@),
    {
    }

    /// The position of the operation with the given id.
    fn find(&self, id: &str) -> (r: Option<usize>)
        requires
            self.wf(),
        ensures
            match r {
                Some(p) => p < self@.len() && self@[p as int].id == id@ && operation_with_id(
                    self@,
                    id@,
                ) == Some(self@[p as int]),
                None => !holds_id(self@, id@),
            },
    {
        let mut i: usize = 0;
        while i < self.entries.len()
            invariant
                i <= self.entries.len(),
                self.wf(),
                forall|k: int| 0 <= k < i ==> (#[trigger] self.log@[k]).id != id@,
            decreases self.entries.len() - i,
        {
            if same_text(self.entries[i].operation.operation_id.as_str(), id) {
                assert(self.entries[i as int].operation@ == operation_row_of(self.log@[i as int]));
                assert(self.log@[i as int].id == id@);
                return Some(i);
            }
            assert(self.entries[i as int].operation@ == operation_row_of(self.log@[i as int]));
            i += 1;
        }
        None
    }

    /// Inserts an operation with all its field rows, or nothing at all.
    ///
    /// Fails with a conflict where the store holds an operation of this id
    /// already, and where two fields of the operation have the same name,
    /// so that two of its field rows would have the same key. After a
    /// failure the store is as it was before.
    pub fn insert_operation(
        &mut self,
        id: &OperationId,
        public_key: &PublicKey,
        operation: &Operation,
        document_id: &DocumentId,
    ) -> (r: Result<(), StorageError>)
        requires
            old(self).wf(),
        ensures
            final(self).wf(),
            r is Ok <==> !holds_id(old(self)@, id@) && distinct_names(operation@.fields),
            match r {
                Ok(()) => final(self)@ == old(self)@.push(
                    stored(id@, public_key@, document_id@, operation@),
                ),
                Err(e) => final(self)@ == old(self)@ && is_conflict(
                    e,
                    if holds_id(old(self)@, id@) {
                        id_conflict_message()
                    } else {
                        field_conflict_message()
                    },
                ),
            },
    {
        if self.find(id.as_str()).is_some() {
            return Err(
                StorageError::Conflict("An operation with this id exists already".to_owned()),
            );
        }
        if !operation.has_distinct_names() {
            return Err(
                StorageError::Conflict(
                    "A field row with this name and position exists already".to_owned(),
                ),
            );
        }
        let operation_row = operation_row(id, public_key, operation, document_id);
        let field_rows = operation_field_rows(id, operation);
        let ghost entry = stored(id@, public_key@, document_id@, operation@);
        let ghost before = self.log@;
        assert(is_stored(entry));
        self.entries.push(StoredRows { operation: operation_row, fields: field_rows });
        self.log = Ghost(before.push(entry));
        proof {
            assert forall|i: int, j: int| 0 <= i < j < self.log@.len() implies (
            #[trigger] self.log@[i]).id != (#[trigger] self.log@[j]).id by {
                if j == before.len() {
                    assert(before[i].id != id@);
                }
            }
        }
        Ok(())
    }

    /// The operation with the given id, put together from its rows, or
    /// none where the store holds no operation of this id.
    pub fn get_operation(&self, id: &OperationId) -> (r: Result<
        Option<StorageOperation>,
        StorageError,
    >)
        requires
            self.wf(),
        ensures
            r is Ok,
            match r->Ok_0 {
                Some(operation) => operation_with_id(self@, id@) == Some(operation@),
                None => operation_with_id(self@, id@) is None,
            },
    {
        let rows = match self.find(id.as_str()) {
            Some(p) => {
                proof {
                    lemma_rows_round_trip(self@[p as int]);
                }
                join_rows(&self.entries[p].operation, &self.entries[p].fields)
            },
            None => {
                let rows: Vec<OperationFieldsJoinedRow> = Vec::new();
                assert(joined_rows_view(rows@) =~= Seq::<JoinedRowView>::empty());
                rows
            },
        };
        let sorted = sort_by_list_index(&rows);
        parse_operation_rows(&sorted)
    }

    /// The id of the document that the operation with the given id belongs
    /// to, or none where the store holds no operation of this id.
    pub fn get_document_id_by_operation_id(&self, id: &OperationId) -> (r: Result<
        Option<DocumentId>,
        StorageError,
    >)
        requires
            self.wf(),
        ensures
            r is Ok,
            match r->Ok_0 {
                Some(document_id) => operation_with_id(self@, id@) matches Some(operation)
                    && document_id@ == operation.document_id,
                None => operation_with_id(self@, id@) is None,
            },
    {
        match self.find(id.as_str()) {
            Some(p) => match DocumentId::new(self.entries[p].operation.document_id.as_str()) {
                Ok(document_id) => Ok(Some(document_id)),
                Err(e) => Err(StorageError::Fatal(e.message)),
            },
            None => Ok(None),
        }
    }

    /// The rows that the join yields for the operations of a document, or
    /// of a schema: operation after operation, in the order of the tables.
    fn scan(&self, by_schema: bool, key: &str) -> (rows: Vec<OperationFieldsJoinedRow>)
        requires
            self.wf(),
        ensures
            joined_rows_view(rows@) == scan_rows(self@, scope(by_schema, key@)),
    {
        let ghost selected = scope(by_schema, key@);
        let mut rows: Vec<OperationFieldsJoinedRow> = Vec::new();
        let mut i: usize = 0;
        assert(self@.take(0) =~= Seq::<StoredOperation>::empty());
        assert(joined_rows_view(rows@) =~= Seq::<JoinedRowView>::empty());
        while i < self.entries.len()
            invariant
                i <= self.entries.len(),
                self.wf(),
                selected == scope(by_schema, key@),
                joined_rows_view(rows@) == scan_rows(self@.take(i as int), selected),
            decreases self.entries.len() - i,
        {
            let entry = &self.entries[i];
            let ghost before = joined_rows_view(rows@);
            proof {
                let longer = self@.take(i + 1);
                assert(longer.drop_last() =~= self@.take(i as int));
                assert(longer.last() == self@[i as int]);
                assert(entry.operation@ == operation_row_of(self@[i as int]));
            }
            let of_scope = if by_schema {
                same_text(entry.operation.schema_id.as_str(), key)
            } else {
                same_text(entry.operation.document_id.as_str(), key)
            };
            if of_scope {
                let mut joined = join_rows(&entry.operation, &entry.fields);
                let ghost added = joined_rows_view(joined@);
                rows.append(&mut joined);
                assert(joined_rows_view(rows@) =~= before + added);
            } else {
                assert(before + Seq::<JoinedRowView>::empty() =~= before);
            }
            i += 1;
        }
        assert(self@.take(i as int) =~= self@);
        rows
    }

    /// The operations of a document, or of a schema: their rows are
    /// scanned, ordered by list position, sorted into one group for each
    /// operation, and each group is put together.
    fn read(&self, by_schema: bool, key: &str) -> (r: Result<Vec<StorageOperation>, StorageError>)
        requires
            self.wf(),
        ensures
            r is Ok,
            operations_view(r->Ok_0@) == scan_result(self@, scope(by_schema, key@)),
            same_operations(operations_view(r->Ok_0@), self@.filter(scope(by_schema, key@))),
            ascending(ids_of(operations_view(r->Ok_0@))),
    {
        let ghost selected = scope(by_schema, key@);
        let ghost log = self@;
        let rows = self.scan(by_schema, key);
        let sorted = sort_by_list_index(&rows);
        let groups = group_rows_by_operation_id(&sorted);
        let ghost ordered = scanned(log, selected);
        let ghost ids = operation_ids(ordered);
        let mut operations: Vec<StorageOperation> = Vec::new();
        let mut k: usize = 0;
        assert(groups_view(groups@).len() == groups.len());
        assert(groups_of(ordered).len() == ids.len());
        while k < groups.len()
            invariant
                k <= groups.len(),
                groups.len() == ids.len(),
                is_log(log),
                ordered == scanned(log, selected),
                ids == operation_ids(ordered),
                groups_view(groups@) == groups_of(ordered),
                operations.len() == k,
                forall|j: int|
                    0 <= j < k ==> Some((#[trigger] operations@[j])@) == selected_with_id(
                        log,
                        selected,
                        ids[j],
                    ),
            decreases groups.len() - k,
        {
            proof {
                assert(groups_view(groups@)[k as int] == joined_rows_view(groups@[k as int]@));
                lemma_scanned_group(log, selected, k as int);
                let entry = selected_with_id(log, selected, ids[k as int])->0;
                assert(log.filter(selected).contains(entry));
                log.lemma_filter_contains_rev(selected, entry);
                lemma_rows_round_trip(entry);
            }
            match parse_operation_rows(&groups[k]) {
                Ok(Some(operation)) => {
                    operations.push(operation);
                },
                Ok(None) => {},
                Err(e) => {
                    return Err(e);
                },
            }
            k += 1;
        }
        proof {
            lemma_scanned_count(log, selected);
            lemma_operation_ids_distinct(ordered);
            let found = operations_view(operations@);
            assert(found =~= scan_result(log, selected));
            lemma_operation_ids_ascending(ordered);
            assert forall|i: int, j: int| 0 <= i < j < found.len() implies text_lt(
                #[trigger] ids_of(found)[i],
                #[trigger] ids_of(found)[j],
            ) by {
                lemma_scanned_group(log, selected, i);
                lemma_scanned_group(log, selected, j);
                assert(text_lt(ids[i], ids[j]));
            }
            assert forall|j: int| 0 <= j < found.len() implies log.filter(selected).contains(
                #[trigger] found[j],
            ) by {
                lemma_scanned_group(log, selected, j);
            }
            let kept = log.filter(selected);
            assert forall|c: int| 0 <= c < kept.len() implies found.contains(
                #[trigger] kept[c],
            ) by {
                lemma_selected_is_scanned(log, selected, c);
                let k = choose|k: int| 0 <= k < ids.len() && #[trigger] ids[k] == kept[c].id;
                assert(found[k] == kept[c]);
            }
            assert forall|i: int, j: int| 0 <= i < j < found.len() implies (#[trigger] found[i]).id
                != (#[trigger] found[j]).id by {
                lemma_scanned_group(log, selected, i);
                lemma_scanned_group(log, selected, j);
            }
        }
        Ok(operations)
    }

    /// The operations of the document with the given id: exactly those
    /// that were inserted for it, each put together from its rows. They
    /// come in ascending dictionary order of their ids, whatever the order
    /// in which they were inserted.
    pub fn get_operations_by_document_id(&self, id: &DocumentId) -> (r: Result<
        Vec<StorageOperation>,
        StorageError,
    >)
        requires
            self.wf(),
        ensures
            r is Ok,
            operations_view(r->Ok_0@) == scan_result(self@, in_document(id@)),
            same_operations(operations_view(r->Ok_0@), self@.filter(in_document(id@))),
            ascending(ids_of(operations_view(r->Ok_0@))),
    {
        self.read(false, id.as_str())
    }

    /// The operations of the schema with the given id: exactly those that
    /// were inserted for it, each put together from its rows. They come in
    /// ascending dictionary order of their ids, whatever the order in which
    /// they were inserted.
    pub fn get_operations_by_schema_id(&self, id: &SchemaId) -> (r: Result<
        Vec<StorageOperation>,
        StorageError,
    >)
        requires
            self.wf(),
        ensures
            r is Ok,
            operations_view(r->Ok_0@) == scan_result(self@, in_schema(id@)),
            same_operations(operations_view(r->Ok_0@), self@.filter(in_schema(id@))),
            ascending(ids_of(operations_view(r->Ok_0@))),
    {
        self.read(true, id.as_str())
    }
}

/// The operations of a document, or of a schema.
pub open spec fn scope(by_schema: bool, key: Seq<char>) -> spec_fn(StoredOperation) -> bool {
    if by_schema {
        in_schema(key)
    } else {
        in_document(key)
    }
}

/// The operations of a vector of operations, as plain values.
pub open spec fn operations_view(operations: Seq<StorageOperation>) -> Seq<StoredOperation> {
    operations.map_values(|operation: StorageOperation| operation@)
}

} // verus!
