//! What holds of the store as a whole, whatever was inserted into it.

use vstd::prelude::*;
use crate::assemble::{operation_of_rows, StoredOperation};
use crate::operation::Value;
use crate::round_trip::{is_stored, joined_rows_of, lemma_rows_round_trip};
use crate::scan::{
    holds_id, ids_of, in_document, is_log, lemma_operation_at, operation_with_id,
    same_operations,
};
use crate::text::{ascending, lemma_text_lt_irreflexive, lemma_text_lt_transitive, text_lt};

verus! {

/// The operations after one more was inserted are in order, where the new
/// one is well-formed and its id is new.
pub proof fn lemma_log_grows(log: Seq<StoredOperation>, entry: StoredOperation)
    requires
        is_log(log),
        is_stored(entry),
        !holds_id(log, entry.id),
    ensures
        is_log(log.push(entry)),
{
    let longer = log.push(entry);
    assert forall|i: int, j: int| 0 <= i < j < longer.len() implies (#[trigger] longer[i]).id != (
    #[trigger] longer[j]).id by {
        if j == log.len() {
            assert(log[i].id != entry.id);
        } else {
            assert(longer[i] == log[i] && longer[j] == log[j]);
        }
    }
}

/// Insert, then read: an operation that was inserted is read back by its id
/// exactly as it was, every field with its value, and every element of
/// every list at its position. Its rows, joined and ordered by list
/// position, are put together into that very operation.
pub proof fn law_insert_then_read(log: Seq<StoredOperation>, entry: StoredOperation)
    requires
        is_log(log),
        is_stored(entry),
        !holds_id(log, entry.id),
    ensures
        operation_with_id(log.push(entry), entry.id) == Some(entry),
        operation_of_rows(joined_rows_of(entry)) == Some(Some(entry)),
{
    lemma_log_grows(log, entry);
    let longer = log.push(entry);
    lemma_operation_at(longer, log.len() as int);
    lemma_rows_round_trip(entry);
}

/// Insert twice: once an operation is in the store its id is taken, so
/// that a second insertion of the id is a conflict, and reading the id
/// gives the first operation, whatever the second one was.
pub proof fn law_second_insert_conflicts(log: Seq<StoredOperation>, first: StoredOperation)
    requires
        is_log(log),
        is_stored(first),
        !holds_id(log, first.id),
    ensures
        holds_id(log.push(first), first.id),
        operation_with_id(log.push(first), first.id) == Some(first),
{
    law_insert_then_read(log, first);
    assert(log.push(first)[log.len() as int].id == first.id);
}

/// The document of an operation is unknown before the operation is
/// inserted and known afterwards, and stays known when another operation,
/// of the same document or of another, is inserted later.
pub proof fn law_document_id_by_operation_id(
    log: Seq<StoredOperation>,
    first: StoredOperation,
    later: StoredOperation,
)
    requires
        is_log(log),
        is_stored(first),
        is_stored(later),
        !holds_id(log, first.id),
        !holds_id(log, later.id),
        first.id != later.id,
    ensures
        operation_with_id(log, first.id) is None,
        operation_with_id(log.push(first), first.id) == Some(first),
        operation_with_id(log.push(first).push(later), first.id) == Some(first),
        operation_with_id(log.push(first).push(later), later.id) == Some(later),
{
    law_insert_then_read(log, first);
    lemma_log_grows(log, first);
    let one = log.push(first);
    assert(!holds_id(one, later.id)) by {
        if holds_id(one, later.id) {
            let c = choose|c: int| 0 <= c < one.len() && (#[trigger] one[c]).id == later.id;
            if c < log.len() {
                assert(log[c].id == later.id);
            }
        }
    }
    lemma_log_grows(one, later);
    let two = one.push(later);
    lemma_operation_at(two, log.len() as int);
    lemma_operation_at(two, log.len() as int + 1);
}

/// The operations of a document are those that were inserted for it: an
/// insertion for the document adds one, and an insertion for another
/// document adds none.
pub proof fn law_operations_by_document_id(
    log: Seq<StoredOperation>,
    entry: StoredOperation,
    document_id: Seq<char>,
)
    ensures
        Seq::<StoredOperation>::empty().filter(in_document(document_id)).len() == 0,
        log.push(entry).filter(in_document(document_id)) == if entry.document_id == document_id {
            log.filter(in_document(document_id)).push(entry)
        } else {
            log.filter(in_document(document_id))
        },
{
    reveal(Seq::filter);
    log.lemma_filter_push(entry, in_document(document_id));
}

/// The order of a reading does not depend on the order of insertion: two
/// readings that hold the same operations, each in ascending order of the
/// ids, are the same sequence.
pub proof fn law_reading_order_is_by_id(a: Seq<StoredOperation>, b: Seq<StoredOperation>)
    requires
        ascending(ids_of(a)),
        ascending(ids_of(b)),
        forall|x: StoredOperation| a.contains(x) <==> b.contains(x),
    ensures
        a == b,
    decreases a.len(),
{
    if a.len() == 0 {
        if b.len() > 0 {
            assert(b.contains(b[0]));
        }
        assert(a =~= b);
    } else {
        let n = a.len() - 1;
        assert(a.contains(a[n]));
        let j = choose|j: int| 0 <= j < b.len() && b[j] == a[n];
        let m = b.len() - 1;
        assert(b.contains(b[m]));
        let i = choose|i: int| 0 <= i < a.len() && a[i] == b[m];
        lemma_text_lt_irreflexive(a[n].id);
        if j < m {
            assert(text_lt(ids_of(b)[j], ids_of(b)[m]));
            if i < n {
                assert(text_lt(ids_of(a)[i], ids_of(a)[n]));
                lemma_text_lt_transitive(a[n].id, b[m].id, a[n].id);
            }
        }
        assert(a[n] == b[m]);
        let fa = a.drop_last();
        let fb = b.drop_last();
        assert(ascending(ids_of(fa))) by {
            assert forall|p: int, q: int| 0 <= p < q < fa.len() implies text_lt(
                #[trigger] ids_of(fa)[p],
                #[trigger] ids_of(fa)[q],
            ) by {
                assert(text_lt(ids_of(a)[p], ids_of(a)[q]));
            }
        }
        assert(ascending(ids_of(fb))) by {
            assert forall|p: int, q: int| 0 <= p < q < fb.len() implies text_lt(
                #[trigger] ids_of(fb)[p],
                #[trigger] ids_of(fb)[q],
            ) by {
                assert(text_lt(ids_of(b)[p], ids_of(b)[q]));
            }
        }
        assert forall|x: StoredOperation| fa.contains(x) <==> fb.contains(x) by {
            if fa.contains(x) {
                let p = choose|p: int| 0 <= p < fa.len() && fa[p] == x;
                assert(a[p] == x);
                assert(a.contains(x));
                let q = choose|q: int| 0 <= q < b.len() && b[q] == x;
                assert(text_lt(ids_of(a)[p], ids_of(a)[n]));
                assert(fb[q] == x);
            }
            if fb.contains(x) {
                let q = choose|q: int| 0 <= q < fb.len() && fb[q] == x;
                assert(b[q] == x);
                assert(b.contains(x));
                let p = choose|p: int| 0 <= p < a.len() && a[p] == x;
                assert(text_lt(ids_of(b)[q], ids_of(b)[m]));
                assert(fa[p] == x);
            }
        }
        law_reading_order_is_by_id(fa, fb);
        assert(a =~= fa.push(a[n]));
        assert(b =~= fb.push(b[m]));
    }
}

/// Two stores that hold the same operations give the same reading, in
/// whatever order the operations were inserted into each: a reading holds
/// exactly the operations it is expected to hold, in ascending order of
/// their ids.
pub proof fn law_reading_is_independent_of_insertion_order(
    first: Seq<StoredOperation>,
    first_expected: Seq<StoredOperation>,
    second: Seq<StoredOperation>,
    second_expected: Seq<StoredOperation>,
)
    requires
        same_operations(first, first_expected),
        same_operations(second, second_expected),
        ascending(ids_of(first)),
        ascending(ids_of(second)),
        forall|x: StoredOperation| first_expected.contains(x) <==> second_expected.contains(x),
    ensures
        first == second,
{
    assert forall|x: StoredOperation| first.contains(x) <==> second.contains(x) by {
        if first.contains(x) {
            let k = choose|k: int| 0 <= k < first.len() && first[k] == x;
            assert(first_expected.contains(first[k]));
            let c = choose|c: int| 0 <= c < second_expected.len() && second_expected[c] == x;
            assert(second.contains(second_expected[c]));
        }
        if second.contains(x) {
            let k = choose|k: int| 0 <= k < second.len() && second[k] == x;
            assert(second_expected.contains(second[k]));
            let c = choose|c: int| 0 <= c < first_expected.len() && first_expected[c] == x;
            assert(first.contains(first_expected[c]));
        }
    }
    law_reading_order_is_by_id(first, second);
}

/// Reading keeps the elements of a list in their order: of an operation
/// that is read back, the list of every field is the list that was
/// inserted, element for element.
pub proof fn law_list_order_is_kept(entry: StoredOperation, k: int, n: int)
    requires
        is_stored(entry),
        0 <= k < entry.operation.fields.len(),
        entry.operation.fields[k].value matches Value::RelationList(ids) && 0 <= n < ids.len(),
    ensures
        operation_of_rows(joined_rows_of(entry)) matches Some(Some(read)) && read.operation.fields[k].value
            matches Value::RelationList(ids) && ids[n] == entry.operation.fields[k].value->RelationList_0[n],
{
    lemma_rows_round_trip(entry);
}

} // verus!
