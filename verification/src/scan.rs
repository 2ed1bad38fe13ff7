//! Reading many operations at once: why the rows of a scan over several
//! operations, ordered by list position and sorted into groups, give back
//! exactly the operations that were scanned.

use vstd::prelude::*;
use crate::assemble::{JoinedRowView, StoredOperation};
use crate::join::{
    at_level, groups_of, join_fields, lemma_operation_ids_cover, lemma_operation_ids_distinct,
    lemma_operation_ids_sound, lemma_rows_below_beyond, level_bound, of_operation, operation_ids,
    rows_below, sorted_by_list_index,
};
use crate::round_trip::{
    field_rows_of, is_stored, joined_rows_of, lemma_rows_round_trip, operation_row_of,
};

verus! {

/// The operations hold well-formed operations, each id once.
pub open spec fn is_log(log: Seq<StoredOperation>) -> bool {
    &&& forall|i: int| 0 <= i < log.len() ==> is_stored(#[trigger] log[i])
    &&& forall|i: int, j: int|
        0 <= i < j < log.len() ==> (#[trigger] log[i]).id != (#[trigger] log[j]).id
}

/// Whether an operation of the given id is among the operations.
pub open spec fn holds_id(log: Seq<StoredOperation>, id: Seq<char>) -> bool {
    exists|i: int| 0 <= i < log.len() && (#[trigger] log[i]).id == id
}

/// The operation of the given id among the operations, if there is one.
pub open spec fn operation_with_id(log: Seq<StoredOperation>, id: Seq<char>) -> Option<
    StoredOperation,
> {
    if holds_id(log, id) {
        Some(log[choose|i: int| 0 <= i < log.len() && (#[trigger] log[i]).id == id])
    } else {
        None
    }
}

/// The operations of the document with the given id.
pub open spec fn in_document(document_id: Seq<char>) -> spec_fn(StoredOperation) -> bool {
    |entry: StoredOperation| entry.document_id == document_id
}

/// The operations of the schema with the given id.
pub open spec fn in_schema(schema_id: Seq<char>) -> spec_fn(StoredOperation) -> bool {
    |entry: StoredOperation| entry.operation.schema_id == schema_id
}

/// The rows that the join yields for one operation, in the order of the
/// table.
pub open spec fn join_of(entry: StoredOperation) -> Seq<JoinedRowView> {
    join_fields(operation_row_of(entry), field_rows_of(entry))
}

/// The rows that the join yields for the selected operations, operation
/// after operation in the order of their insertion.
pub open spec fn scan_rows(log: Seq<StoredOperation>, selected: spec_fn(StoredOperation) -> bool) -> Seq<
    JoinedRowView,
>
    decreases log.len(),
{
    if log.len() == 0 {
        Seq::empty()
    } else {
        scan_rows(log.drop_last(), selected) + if selected(log.last()) {
            join_of(log.last())
        } else {
            Seq::empty()
        }
    }
}

/// The selected operation of the given id, if there is one.
pub open spec fn selected_with_id(
    log: Seq<StoredOperation>,
    selected: spec_fn(StoredOperation) -> bool,
    id: Seq<char>,
) -> Option<StoredOperation> {
    match operation_with_id(log, id) {
        Some(entry) => if selected(entry) {
            Some(entry)
        } else {
            None
        },
        None => None,
    }
}

/// What it means that `operations` are the `expected` ones in some order:
/// they are as many, each of them is among the expected, each of the
/// expected is among them, and no two of them have the same id.
pub open spec fn same_operations(operations: Seq<StoredOperation>, expected: Seq<StoredOperation>) -> bool {
    &&& operations.len() == expected.len()
    &&& forall|k: int| 0 <= k < operations.len() ==> expected.contains(#[trigger] operations[k])
    &&& forall|k: int| 0 <= k < expected.len() ==> operations.contains(#[trigger] expected[k])
    &&& forall|i: int, j: int|
        0 <= i < j < operations.len() ==> (#[trigger] operations[i]).id != (
        #[trigger] operations[j]).id
}

/// A filter that every element passes changes nothing.
pub proof fn lemma_filter_all<A>(s: Seq<A>, p: spec_fn(A) -> bool)
    requires
        forall|i: int| 0 <= i < s.len() ==> p(#[trigger] s[i]),
    ensures
        s.filter(p) == s,
    decreases s.len(),
{
    reveal(Seq::filter);
    if s.len() > 0 {
        lemma_filter_all(s.drop_last(), p);
        assert(s.drop_last().push(s.last()) =~= s);
    }
}

/// A filter that no element passes leaves nothing.
pub proof fn lemma_filter_none<A>(s: Seq<A>, p: spec_fn(A) -> bool)
    requires
        forall|i: int| 0 <= i < s.len() ==> !p(#[trigger] s[i]),
    ensures
        s.filter(p) == Seq::<A>::empty(),
    decreases s.len(),
{
    reveal(Seq::filter);
    if s.len() > 0 {
        lemma_filter_none(s.drop_last(), p);
    }
}

/// Two filters can be applied in either order.
pub proof fn lemma_filter_commute<A>(s: Seq<A>, p: spec_fn(A) -> bool, q: spec_fn(A) -> bool)
    ensures
        s.filter(p).filter(q) == s.filter(q).filter(p),
    decreases s.len(),
{
    reveal(Seq::filter);
    if s.len() > 0 {
        let front = s.drop_last();
        let last = s.last();
        lemma_filter_commute(front, p, q);
        front.filter(p).lemma_filter_push(last, q);
        front.filter(q).lemma_filter_push(last, p);
    }
}

/// Filtering the rows below a level is taking the rows below that level
/// of the filtered rows.
pub proof fn lemma_rows_below_filter(
    rows: Seq<JoinedRowView>,
    n: nat,
    p: spec_fn(JoinedRowView) -> bool,
)
    ensures
        rows_below(rows, n).filter(p) == rows_below(rows.filter(p), n),
    decreases n,
{
    if n == 0 {
        reveal(Seq::filter);
    } else {
        let level = at_level((n - 1) as nat);
        lemma_rows_below_filter(rows, (n - 1) as nat, p);
        Seq::filter_distributes_over_add(rows_below(rows, (n - 1) as nat), rows.filter(level), p);
        lemma_filter_commute(rows, level, p);
    }
}

/// The bound of the levels of filtered rows is no higher than that of all.
pub proof fn lemma_level_bound_filter(rows: Seq<JoinedRowView>, p: spec_fn(JoinedRowView) -> bool)
    ensures
        level_bound(rows.filter(p)) <= level_bound(rows),
    decreases rows.len(),
{
    reveal(Seq::filter);
    if rows.len() > 0 {
        let front = rows.drop_last();
        lemma_level_bound_filter(front, p);
        if p(rows.last()) {
            assert(front.filter(p).push(rows.last()).drop_last() =~= front.filter(p));
        }
    }
}

/// Of no rows there are no rows below any level.
pub proof fn lemma_rows_below_empty(n: nat)
    ensures
        rows_below(Seq::<JoinedRowView>::empty(), n) == Seq::<JoinedRowView>::empty(),
    decreases n,
{
    reveal(Seq::filter);
    if n > 0 {
        lemma_rows_below_empty((n - 1) as nat);
        assert(Seq::<JoinedRowView>::empty() + Seq::<JoinedRowView>::empty()
            =~= Seq::<JoinedRowView>::empty());
    }
}

/// Every row of the join of an operation carries the id of the operation.
pub proof fn lemma_join_of_ids(entry: StoredOperation, k: int)
    requires
        0 <= k < join_of(entry).len(),
    ensures
        join_of(entry)[k].operation_id == entry.id,
{
}

/// With each id once, the operation of an id is the one at its position.
pub proof fn lemma_operation_at(log: Seq<StoredOperation>, i: int)
    requires
        is_log(log),
        0 <= i < log.len(),
    ensures
        operation_with_id(log, log[i].id) == Some(log[i]),
{
    let id = log[i].id;
    let c = choose|c: int| 0 <= c < log.len() && (#[trigger] log[c]).id == id;
    if c < i {
        assert(log[c].id != log[i].id);
    }
    if i < c {
        assert(log[i].id != log[c].id);
    }
}

/// Of the rows of a scan, those of one id are the rows of the join of the
/// selected operation of that id, and none where there is no such
/// operation.
pub proof fn lemma_scan_filter(
    log: Seq<StoredOperation>,
    selected: spec_fn(StoredOperation) -> bool,
    id: Seq<char>,
)
    requires
        is_log(log),
    ensures
        scan_rows(log, selected).filter(of_operation(id)) == match selected_with_id(
            log,
            selected,
            id,
        ) {
            Some(entry) => join_of(entry),
            None => Seq::<JoinedRowView>::empty(),
        },
    decreases log.len(),
{
    let empty = Seq::<JoinedRowView>::empty();
    if log.len() == 0 {
        reveal(Seq::filter);
    } else {
        let front = log.drop_last();
        let last = log.last();
        let n = front.len() as int;
        assert(is_log(front)) by {
            assert forall|i: int| 0 <= i < front.len() implies is_stored(#[trigger] front[i]) by {
                assert(front[i] == log[i]);
            }
            assert forall|i: int, j: int| 0 <= i < j < front.len() implies (#[trigger] front[i]).id
                != (#[trigger] front[j]).id by {
                assert(front[i] == log[i] && front[j] == log[j]);
            }
        }
        lemma_scan_filter(front, selected, id);
        let tail = if selected(last) {
            join_of(last)
        } else {
            empty
        };
        Seq::filter_distributes_over_add(scan_rows(front, selected), tail, of_operation(id));
        if last.id == id {
            assert(!holds_id(front, id)) by {
                if holds_id(front, id) {
                    let c = choose|c: int| 0 <= c < front.len() && (#[trigger] front[c]).id == id;
                    assert(front[c] == log[c]);
                    assert(log[c].id != log[n].id);
                }
            }
            lemma_operation_at(log, n);
            assert forall|k: int| 0 <= k < tail.len() implies of_operation(id)(#[trigger] tail[k]) by {
                lemma_join_of_ids(last, k);
            }
            lemma_filter_all(tail, of_operation(id));
            assert(empty + tail =~= tail);
        } else {
            assert forall|k: int| 0 <= k < tail.len() implies !of_operation(id)(
                #[trigger] tail[k],
            ) by {
                lemma_join_of_ids(last, k);
            }
            lemma_filter_none(tail, of_operation(id));
            assert(holds_id(log, id) == holds_id(front, id)) by {
                if holds_id(log, id) {
                    let c = choose|c: int| 0 <= c < log.len() && (#[trigger] log[c]).id == id;
                    assert(front[c] == log[c]);
                }
                if holds_id(front, id) {
                    let c = choose|c: int| 0 <= c < front.len() && (#[trigger] front[c]).id == id;
                    assert(front[c] == log[c]);
                }
            }
            if holds_id(front, id) {
                let c = choose|c: int| 0 <= c < front.len() && (#[trigger] front[c]).id == id;
                assert(front[c] == log[c]);
                lemma_operation_at(front, c);
                lemma_operation_at(log, c);
            }
            let part = scan_rows(front, selected).filter(of_operation(id));
            assert(part + empty =~= part);
        }
    }
}

/// The rows of a scan, ordered by list position.
pub open spec fn scanned(log: Seq<StoredOperation>, selected: spec_fn(StoredOperation) -> bool) -> Seq<
    JoinedRowView,
> {
    sorted_by_list_index(scan_rows(log, selected))
}

/// The ids of the given operations, in their order.
pub open spec fn ids_of(operations: Seq<StoredOperation>) -> Seq<Seq<char>> {
    Seq::new(operations.len(), |k: int| operations[k].id)
}

/// The operations that a scan gives: one for each id among its rows, in
/// ascending dictionary order of the ids, whatever the order in which the
/// operations were inserted.
pub open spec fn scan_result(log: Seq<StoredOperation>, selected: spec_fn(StoredOperation) -> bool) -> Seq<
    StoredOperation,
> {
    let ids = operation_ids(scanned(log, selected));
    Seq::new(ids.len(), |k: int| selected_with_id(log, selected, ids[k])->0)
}

/// Of the ordered rows of a scan, those of one id are the ordered rows of
/// the selected operation of that id.
pub proof fn lemma_scanned_filter(
    log: Seq<StoredOperation>,
    selected: spec_fn(StoredOperation) -> bool,
    id: Seq<char>,
)
    requires
        is_log(log),
    ensures
        scanned(log, selected).filter(of_operation(id)) == match selected_with_id(
            log,
            selected,
            id,
        ) {
            Some(entry) => joined_rows_of(entry),
            None => Seq::<JoinedRowView>::empty(),
        },
{
    let rows = scan_rows(log, selected);
    let bound = level_bound(rows);
    let p = of_operation(id);
    lemma_rows_below_filter(rows, bound, p);
    lemma_scan_filter(log, selected, id);
    lemma_level_bound_filter(rows, p);
    match selected_with_id(log, selected, id) {
        Some(entry) => {
            lemma_rows_below_beyond(join_of(entry), bound);
        },
        None => {
            lemma_rows_below_empty(bound);
        },
    }
}

/// The ordered rows of a well-formed operation are not none.
pub proof fn lemma_joined_rows_nonempty(entry: StoredOperation)
    requires
        is_stored(entry),
    ensures
        joined_rows_of(entry).len() > 0,
{
    lemma_rows_round_trip(entry);
}

/// The group of every id among the ordered rows of a scan holds the
/// ordered rows of a selected operation of that id.
pub proof fn lemma_scanned_group(
    log: Seq<StoredOperation>,
    selected: spec_fn(StoredOperation) -> bool,
    k: int,
)
    requires
        is_log(log),
        0 <= k < operation_ids(scanned(log, selected)).len(),
    ensures
        selected_with_id(log, selected, operation_ids(scanned(log, selected))[k]) is Some,
        groups_of(scanned(log, selected))[k] == joined_rows_of(
            selected_with_id(log, selected, operation_ids(scanned(log, selected))[k])->0,
        ),
        selected_with_id(log, selected, operation_ids(scanned(log, selected))[k])->0.id
            == operation_ids(scanned(log, selected))[k],
        log.filter(selected).contains(
            selected_with_id(log, selected, operation_ids(scanned(log, selected))[k])->0,
        ),
{
    let rows = scanned(log, selected);
    let id = operation_ids(rows)[k];
    lemma_operation_ids_sound(rows, k);
    let r = choose|r: int| 0 <= r < rows.len() && (#[trigger] rows[r]).operation_id == id;
    assert(of_operation(id)(rows[r]));
    rows.lemma_filter_contains(of_operation(id), r);
    lemma_scanned_filter(log, selected, id);
    assert(rows.filter(of_operation(id)).len() > 0);
    let entry = selected_with_id(log, selected, id)->0;
    let c = choose|c: int| 0 <= c < log.len() && (#[trigger] log[c]).id == id;
    assert(entry == log[c]);
    log.lemma_filter_contains(selected, c);
}

/// Among filtered operations there is each id once, too.
pub proof fn lemma_filter_distinct(log: Seq<StoredOperation>, selected: spec_fn(StoredOperation) -> bool)
    requires
        is_log(log),
    ensures
        is_log(log.filter(selected)),
{
    let kept = log.filter(selected);
    assert forall|i: int| 0 <= i < kept.len() implies is_stored(#[trigger] kept[i]) by {
        assert(kept.contains(kept[i]));
        log.lemma_filter_contains_rev(selected, kept[i]);
    }
    lemma_filter_distinct_ids(log, selected);
}

/// Among filtered operations no two have the same id.
proof fn lemma_filter_distinct_ids(log: Seq<StoredOperation>, selected: spec_fn(StoredOperation) -> bool)
    requires
        forall|i: int, j: int|
            0 <= i < j < log.len() ==> (#[trigger] log[i]).id != (#[trigger] log[j]).id,
    ensures
        forall|i: int, j: int|
            0 <= i < j < log.filter(selected).len() ==> (#[trigger] log.filter(selected)[i]).id
                != (#[trigger] log.filter(selected)[j]).id,
    decreases log.len(),
{
    reveal(Seq::filter);
    if log.len() > 0 {
        let front = log.drop_last();
        let kept = front.filter(selected);
        assert forall|i: int, j: int| 0 <= i < j < front.len() implies (#[trigger] front[i]).id
            != (#[trigger] front[j]).id by {
            assert(front[i] == log[i] && front[j] == log[j]);
        }
        lemma_filter_distinct_ids(front, selected);
        if selected(log.last()) {
            assert forall|i: int| 0 <= i < kept.len() implies (#[trigger] kept[i]).id
                != log.last().id by {
                assert(kept.contains(kept[i]));
                front.lemma_filter_contains_rev(selected, kept[i]);
                let c = choose|c: int| 0 <= c < front.len() && front[c] == kept[i];
                assert(log[c].id != log[log.len() - 1].id);
            }
        }
    }
}

/// Every selected operation has its id among the ids of the ordered rows
/// of the scan.
pub proof fn lemma_selected_is_scanned(
    log: Seq<StoredOperation>,
    selected: spec_fn(StoredOperation) -> bool,
    c: int,
)
    requires
        is_log(log),
        0 <= c < log.filter(selected).len(),
    ensures
        exists|k: int|
            0 <= k < operation_ids(scanned(log, selected)).len() && #[trigger] operation_ids(
                scanned(log, selected),
            )[k] == log.filter(selected)[c].id,
        selected_with_id(log, selected, log.filter(selected)[c].id) == Some(log.filter(selected)[c]),
{
    let rows = scanned(log, selected);
    let kept = log.filter(selected);
    let entry = kept[c];
    let id = entry.id;
    assert(kept.contains(entry));
    log.lemma_filter_contains_rev(selected, entry);
    log.lemma_filter_pred(selected, c);
    let i = choose|i: int| 0 <= i < log.len() && log[i] == entry;
    lemma_operation_at(log, i);
    lemma_scanned_filter(log, selected, id);
    lemma_joined_rows_nonempty(entry);
    let own = rows.filter(of_operation(id));
    assert(own.contains(own[0]));
    rows.lemma_filter_contains_rev(of_operation(id), own[0]);
    rows.lemma_filter_pred(of_operation(id), 0);
    let r = choose|r: int| 0 <= r < rows.len() && rows[r] == own[0];
    lemma_operation_ids_cover(rows, r);
    let k = choose|k: int| 0 <= k < operation_ids(rows).len() && operation_ids(rows)[k] == id;
    assert(operation_ids(rows)[k] == kept[c].id);
}

/// The ordered rows of a scan belong to as many operations as were
/// selected.
pub proof fn lemma_scanned_count(log: Seq<StoredOperation>, selected: spec_fn(StoredOperation) -> bool)
    requires
        is_log(log),
    ensures
        operation_ids(scanned(log, selected)).len() == log.filter(selected).len(),
{
    let rows = scanned(log, selected);
    let ids = operation_ids(rows);
    let kept = log.filter(selected);
    let kept_ids = kept.map_values(|entry: StoredOperation| entry.id);
    lemma_operation_ids_distinct(rows);
    lemma_filter_distinct(log, selected);
    assert(kept_ids.no_duplicates());
    assert forall|id: Seq<char>| ids.to_set().contains(id) <==> kept_ids.to_set().contains(
        id,
    ) by {
        if ids.contains(id) {
            let k = choose|k: int| 0 <= k < ids.len() && ids[k] == id;
            lemma_scanned_group(log, selected, k);
            let entry = selected_with_id(log, selected, id)->0;
            let c = choose|c: int| 0 <= c < kept.len() && kept[c] == entry;
            assert(kept_ids[c] == id);
        }
        if kept_ids.contains(id) {
            let c = choose|c: int| 0 <= c < kept_ids.len() && kept_ids[c] == id;
            lemma_selected_is_scanned(log, selected, c);
        }
    }
    assert(ids.to_set() =~= kept_ids.to_set());
    ids.unique_seq_to_set();
    kept_ids.unique_seq_to_set();
}

} // verus!
