//! The join of the two tables: how the rows of operations and the rows of
//! their fields are put side by side, ordered by list position, and sorted
//! into one group for each operation.

use vstd::prelude::*;
use crate::assemble::{joined_rows_view, JoinedRowView, OperationFieldsJoinedRow};
use crate::rows::{
    field_rows_view, option_text, FieldRowView, OperationFieldRow, OperationRow,
    OperationRowView,
};
use crate::text::{
    ascending, lemma_text_lt_irreflexive, lemma_text_lt_total, lemma_text_lt_transitive,
    same_text, text_before, text_lt, texts,
};

verus! {

/// A copy of an optional string.
pub fn copy_option_text(text: &Option<String>) -> (copy: Option<String>)
    ensures
        option_text(copy) == option_text(*text),
{
    match text {
        Some(t) => Some(t.clone()),
        None => None,
    }
}

impl Clone for OperationFieldsJoinedRow {
    fn clone(&self) -> (r: Self)
        ensures
            r@ == self@,
    {
        OperationFieldsJoinedRow {
            public_key: self.public_key.clone(),
            document_id: self.document_id.clone(),
            operation_id: self.operation_id.clone(),
            action: self.action.clone(),
            schema_id: self.schema_id.clone(),
            previous: copy_option_text(&self.previous),
            name: copy_option_text(&self.name),
            field_type: copy_option_text(&self.field_type),
            value: copy_option_text(&self.value),
            list_index: self.list_index,
        }
    }
}

/// The row of an operation side by side with one of its field rows.
pub open spec fn joined_row(operation: OperationRowView, field: FieldRowView) -> JoinedRowView {
    JoinedRowView {
        public_key: operation.public_key,
        document_id: operation.document_id,
        operation_id: operation.operation_id,
        action: operation.action,
        schema_id: operation.schema_id,
        previous: operation.previous,
        name: Some(field.name),
        field_type: Some(field.field_type),
        value: field.value,
        list_index: Some(field.list_index),
    }
}

/// The row of an operation that has no field rows.
pub open spec fn bare_row(operation: OperationRowView) -> JoinedRowView {
    JoinedRowView {
        public_key: operation.public_key,
        document_id: operation.document_id,
        operation_id: operation.operation_id,
        action: operation.action,
        schema_id: operation.schema_id,
        previous: operation.previous,
        name: None,
        field_type: None,
        value: None,
        list_index: None,
    }
}

/// The left join of one operation with its field rows: one row for each
/// field row, in their order, and one bare row where there is none.
pub open spec fn join_fields(operation: OperationRowView, fields: Seq<FieldRowView>) -> Seq<
    JoinedRowView,
> {
    if fields.len() == 0 {
        seq![bare_row(operation)]
    } else {
        Seq::new(fields.len(), |k: int| joined_row(operation, fields[k]))
    }
}

/// The left join of one operation with its field rows.
pub fn join_rows(operation: &OperationRow, fields: &Vec<OperationFieldRow>) -> (rows: Vec<
    OperationFieldsJoinedRow,
>)
    ensures
        joined_rows_view(rows@) == join_fields(operation@, field_rows_view(fields@)),
{
    let mut rows: Vec<OperationFieldsJoinedRow> = Vec::new();
    if fields.len() == 0 {
        rows.push(
            OperationFieldsJoinedRow {
                public_key: operation.public_key.clone(),
                document_id: operation.document_id.clone(),
                operation_id: operation.operation_id.clone(),
                action: operation.action.clone(),
                schema_id: operation.schema_id.clone(),
                previous: copy_option_text(&operation.previous),
                name: None,
                field_type: None,
                value: None,
                list_index: None,
            },
        );
        assert(joined_rows_view(rows@) =~= seq![bare_row(operation@)]);
        return rows;
    }
    let mut i: usize = 0;
    while i < fields.len()
        invariant
            i <= fields.len(),
            rows.len() == i,
            forall|k: int|
                0 <= k < i ==> (#[trigger] rows@[k])@ == joined_row(operation@, fields@[k]@),
        decreases fields.len() - i,
    {
        let field = &fields[i];
        rows.push(
            OperationFieldsJoinedRow {
                public_key: operation.public_key.clone(),
                document_id: operation.document_id.clone(),
                operation_id: operation.operation_id.clone(),
                action: operation.action.clone(),
                schema_id: operation.schema_id.clone(),
                previous: copy_option_text(&operation.previous),
                name: Some(field.name.clone()),
                field_type: Some(field.field_type.clone()),
                value: copy_option_text(&field.value),
                list_index: Some(field.list_index),
            },
        );
        i += 1;
    }
    assert(joined_rows_view(rows@) =~= join_fields(operation@, field_rows_view(fields@)));
    rows
}

/// Where a row stands in the order by list position: rows without a
/// position first, then the rows at position zero, and so on.
pub open spec fn row_level(row: JoinedRowView) -> nat {
    match row.list_index {
        None => 0,
        Some(k) => k + 1,
    }
}

/// The rows of the given level.
pub open spec fn at_level(level: nat) -> spec_fn(JoinedRowView) -> bool {
    |row: JoinedRowView| row_level(row) == level
}

/// The rows of the levels below `n`: level after level, and within a level
/// in the order in which the rows came.
pub open spec fn rows_below(rows: Seq<JoinedRowView>, n: nat) -> Seq<JoinedRowView>
    decreases n,
{
    if n == 0 {
        Seq::empty()
    } else {
        rows_below(rows, (n - 1) as nat) + rows.filter(at_level((n - 1) as nat))
    }
}

/// A level above the level of every row.
pub open spec fn level_bound(rows: Seq<JoinedRowView>) -> nat
    decreases rows.len(),
{
    if rows.len() == 0 {
        0
    } else {
        let before = level_bound(rows.drop_last());
        if row_level(rows.last()) < before {
            before
        } else {
            row_level(rows.last()) + 1
        }
    }
}

/// The rows in ascending order of their list position. Rows of the same
/// position keep the order in which they came.
pub open spec fn sorted_by_list_index(rows: Seq<JoinedRowView>) -> Seq<JoinedRowView> {
    rows_below(rows, level_bound(rows))
}

/// Every row stands below the bound.
pub proof fn lemma_level_bound(rows: Seq<JoinedRowView>, k: int)
    requires
        0 <= k < rows.len(),
    ensures
        row_level(rows[k]) < level_bound(rows),
    decreases rows.len(),
{
    if k < rows.len() - 1 {
        lemma_level_bound(rows.drop_last(), k);
    }
}

/// Where no row is of a level, the rows of that level are none.
pub proof fn lemma_empty_level(rows: Seq<JoinedRowView>, level: nat)
    requires
        forall|k: int| 0 <= k < rows.len() ==> row_level(#[trigger] rows[k]) != level,
    ensures
        rows.filter(at_level(level)) == Seq::<JoinedRowView>::empty(),
    decreases rows.len(),
{
    reveal(Seq::filter);
    if rows.len() > 0 {
        lemma_empty_level(rows.drop_last(), level);
    }
}

/// Levels that no row is of add nothing.
pub proof fn lemma_rows_below_skip(rows: Seq<JoinedRowView>, from: nat, to: nat)
    requires
        from <= to,
        forall|k: int|
            0 <= k < rows.len() ==> !(from <= row_level(#[trigger] rows[k]) < to),
    ensures
        rows_below(rows, to) == rows_below(rows, from),
    decreases to,
{
    if from < to {
        lemma_rows_below_skip(rows, from, (to - 1) as nat);
        lemma_empty_level(rows, (to - 1) as nat);
        assert(rows_below(rows, (to - 1) as nat) + Seq::<JoinedRowView>::empty() =~= rows_below(
            rows,
            (to - 1) as nat,
        ));
    }
}

/// Beyond the bound there are no more rows.
pub proof fn lemma_rows_below_beyond(rows: Seq<JoinedRowView>, n: nat)
    requires
        n >= level_bound(rows),
    ensures
        rows_below(rows, n) == sorted_by_list_index(rows),
{
    assert forall|k: int| 0 <= k < rows.len() implies !(level_bound(rows) <= row_level(
        #[trigger] rows[k],
    ) < n) by {
        lemma_level_bound(rows, k);
    }
    lemma_rows_below_skip(rows, level_bound(rows), n);
}

/// The level of a row, as a number that cannot overflow.
fn level_of(row: &OperationFieldsJoinedRow) -> (level: u128)
    ensures
        level == row_level(row@),
{
    match row.list_index {
        None => 0,
        Some(k) => k as u128 + 1,
    }
}

/// Orders rows by their list position, ascending; rows without a position
/// come first, and rows of the same position keep their order.
pub fn sort_by_list_index(rows: &Vec<OperationFieldsJoinedRow>) -> (sorted: Vec<
    OperationFieldsJoinedRow,
>)
    ensures
        joined_rows_view(sorted@) == sorted_by_list_index(joined_rows_view(rows@)),
{
    let ghost all = joined_rows_view(rows@);
    let mut sorted: Vec<OperationFieldsJoinedRow> = Vec::new();
    let mut next: u128 = 0;
    assert(joined_rows_view(sorted@) =~= rows_below(all, 0));
    loop
        invariant
            all == joined_rows_view(rows@),
            joined_rows_view(sorted@) == rows_below(all, next as nat),
            next <= usize::MAX + 2,
        ensures
            joined_rows_view(sorted@) == sorted_by_list_index(all),
        decreases usize::MAX + 3 - next,
    {
        // The lowest level at or above `next` that some row is of.
        let mut lowest: Option<u128> = None;
        let mut i: usize = 0;
        while i < rows.len()
            invariant
                i <= rows.len(),
                all == joined_rows_view(rows@),
                match lowest {
                    Some(m) => next <= m <= usize::MAX + 1 && (exists|k: int|
                        0 <= k < i && row_level(#[trigger] all[k]) == m) && forall|k: int|
                        0 <= k < i ==> !(next <= row_level(#[trigger] all[k]) < m),
                    None => forall|k: int| 0 <= k < i ==> row_level(#[trigger] all[k]) < next,
                },
            decreases rows.len() - i,
        {
            let level = level_of(&rows[i]);
            assert(all[i as int] == rows@[i as int]@);
            if level >= next {
                match lowest {
                    Some(m) => {
                        if level < m {
                            lowest = Some(level);
                        }
                    },
                    None => {
                        lowest = Some(level);
                    },
                }
            }
            i += 1;
        }
        let level = match lowest {
            Some(level) => level,
            None => {
                proof {
                    if (next as nat) < level_bound(all) {
                        assert forall|k: int| 0 <= k < all.len() implies !(next <= row_level(
                            #[trigger] all[k],
                        ) < level_bound(all)) by {}
                        lemma_rows_below_skip(all, next as nat, level_bound(all));
                    } else {
                        lemma_rows_below_beyond(all, next as nat);
                    }
                }
                break ;
            },
        };
        proof {
            lemma_rows_below_skip(all, next as nat, level as nat);
        }
        let ghost before = joined_rows_view(sorted@);
        let mut j: usize = 0;
        assert(all.take(0) =~= Seq::<JoinedRowView>::empty());
        proof {
            reveal(Seq::filter);
            assert(all.take(0).filter(at_level(level as nat)) =~= Seq::<JoinedRowView>::empty());
        }
        while j < rows.len()
            invariant
                j <= rows.len(),
                all == joined_rows_view(rows@),
                joined_rows_view(sorted@) == before + all.take(j as int).filter(
                    at_level(level as nat),
                ),
            decreases rows.len() - j,
        {
            let ghost so_far = joined_rows_view(sorted@);
            proof {
                assert(all.take(j + 1) =~= all.take(j as int).push(all[j as int]));
                all.take(j as int).lemma_filter_push(all[j as int], at_level(level as nat));
                assert(all[j as int] == rows@[j as int]@);
            }
            if level_of(&rows[j]) == level {
                sorted.push(rows[j].clone());
                assert(joined_rows_view(sorted@) =~= so_far.push(all[j as int]));
                assert(so_far.push(all[j as int]) =~= before + all.take(j as int).filter(
                    at_level(level as nat),
                ).push(all[j as int]));
            }
            j += 1;
        }
        assert(all.take(j as int) =~= all);
        next = level + 1;
    }
    sorted
}

/// The rows of the operation with the given id.
pub open spec fn of_operation(id: Seq<char>) -> spec_fn(JoinedRowView) -> bool {
    |row: JoinedRowView| row.operation_id == id
}

/// The ids with one more among them, at its place in ascending dictionary
/// order; an id that is there already is not added again.
pub open spec fn with_id(ids: Seq<Seq<char>>, id: Seq<char>) -> Seq<Seq<char>>
    decreases ids.len(),
{
    if ids.len() == 0 {
        seq![id]
    } else if ids.last() == id {
        ids
    } else if text_lt(ids.last(), id) {
        ids.push(id)
    } else {
        with_id(ids.drop_last(), id).push(ids.last())
    }
}

/// The ids of the operations that the rows belong to, each once, in
/// ascending dictionary order.
pub open spec fn operation_ids(rows: Seq<JoinedRowView>) -> Seq<Seq<char>>
    decreases rows.len(),
{
    if rows.len() == 0 {
        Seq::empty()
    } else {
        with_id(operation_ids(rows.drop_last()), rows.last().operation_id)
    }
}

/// The rows sorted into groups, one for each operation: the groups stand in
/// ascending dictionary order of the ids of their operations, whatever the
/// order of the rows, and the rows of a group in the order in which they
/// came.
pub open spec fn groups_of(rows: Seq<JoinedRowView>) -> Seq<Seq<JoinedRowView>> {
    Seq::new(
        operation_ids(rows).len(),
        |k: int| rows.filter(of_operation(operation_ids(rows)[k])),
    )
}

/// The rows of a vector of groups, as plain values.
pub open spec fn groups_view(groups: Seq<Vec<OperationFieldsJoinedRow>>) -> Seq<Seq<JoinedRowView>> {
    groups.map_values(|g: Vec<OperationFieldsJoinedRow>| joined_rows_view(g@))
}

/// After an id was added, the ids are the ones from before and that one.
pub proof fn lemma_with_id_contains(ids: Seq<Seq<char>>, id: Seq<char>, x: Seq<char>)
    ensures
        with_id(ids, id).contains(x) <==> ids.contains(x) || x == id,
    decreases ids.len(),
{
    let after = with_id(ids, id);
    if ids.len() == 0 {
        assert(after[0] == id);
    } else if ids.last() == id {
        assert(ids[ids.len() - 1] == id);
    } else if text_lt(ids.last(), id) {
        if ids.contains(x) {
            let j = choose|j: int| 0 <= j < ids.len() && ids[j] == x;
            assert(after[j] == x);
        }
        assert(after[ids.len() as int] == id);
    } else {
        let front = ids.drop_last();
        let inner = with_id(front, id);
        lemma_with_id_contains(front, id, x);
        if after.contains(x) {
            let j = choose|j: int| 0 <= j < after.len() && after[j] == x;
            if j < inner.len() {
                assert(inner[j] == x);
                if front.contains(x) {
                    let i = choose|i: int| 0 <= i < front.len() && front[i] == x;
                    assert(ids[i] == x);
                }
            } else {
                assert(ids[ids.len() - 1] == x);
            }
        }
        if ids.contains(x) || x == id {
            if x == ids.last() {
                assert(after[after.len() - 1] == x);
            } else {
                if ids.contains(x) {
                    let i = choose|i: int| 0 <= i < ids.len() && ids[i] == x;
                    assert(front[i] == x);
                }
                let j = choose|j: int| 0 <= j < inner.len() && inner[j] == x;
                assert(after[j] == x);
            }
        }
    }
}

/// Adding an id keeps the ids in ascending order.
pub proof fn lemma_with_id_ascending(ids: Seq<Seq<char>>, id: Seq<char>)
    requires
        ascending(ids),
    ensures
        ascending(with_id(ids, id)),
    decreases ids.len(),
{
    let after = with_id(ids, id);
    if ids.len() == 0 {
    } else if ids.last() == id {
    } else if text_lt(ids.last(), id) {
        assert forall|i: int, j: int| 0 <= i < j < after.len() implies text_lt(
            #[trigger] after[i],
            #[trigger] after[j],
        ) by {
            if j == ids.len() {
                if i < ids.len() - 1 {
                    assert(text_lt(ids[i], ids[ids.len() - 1]));
                    lemma_text_lt_transitive(ids[i], ids.last(), id);
                }
            } else {
                assert(text_lt(ids[i], ids[j]));
            }
        }
    } else {
        let front = ids.drop_last();
        let inner = with_id(front, id);
        assert(ascending(front)) by {
            assert forall|i: int, j: int| 0 <= i < j < front.len() implies text_lt(
                #[trigger] front[i],
                #[trigger] front[j],
            ) by {
                assert(text_lt(ids[i], ids[j]));
            }
        }
        lemma_with_id_ascending(front, id);
        lemma_text_lt_total(ids.last(), id);
        assert forall|i: int, j: int| 0 <= i < j < after.len() implies text_lt(
            #[trigger] after[i],
            #[trigger] after[j],
        ) by {
            if j == inner.len() {
                lemma_with_id_contains(front, id, inner[i]);
                assert(inner.contains(inner[i]));
                if inner[i] != id {
                    let c = choose|c: int| 0 <= c < front.len() && front[c] == inner[i];
                    assert(text_lt(ids[c], ids[ids.len() - 1]));
                }
            } else {
                assert(text_lt(inner[i], inner[j]));
            }
        }
    }
}

/// Where an id goes: after the last id that comes before it.
pub proof fn lemma_with_id_at(ids: Seq<Seq<char>>, id: Seq<char>, p: int)
    requires
        0 <= p <= ids.len(),
        forall|j: int| p <= j < ids.len() ==> (#[trigger] ids[j]) != id && !text_lt(ids[j], id),
        p == 0 || ids[p - 1] == id || text_lt(ids[p - 1], id),
    ensures
        with_id(ids, id) == if p > 0 && ids[p - 1] == id {
            ids
        } else {
            ids.insert(p, id)
        },
    decreases ids.len(),
{
    if p == ids.len() {
        if ids.len() == 0 {
            assert(seq![id] =~= ids.insert(0, id));
        } else if ids.last() == id {
        } else {
            assert(ids.push(id) =~= ids.insert(p, id));
        }
    } else {
        let front = ids.drop_last();
        assert(ids[ids.len() - 1] != id && !text_lt(ids[ids.len() - 1], id));
        assert forall|j: int| p <= j < front.len() implies (#[trigger] front[j]) != id && !text_lt(
            front[j],
            id,
        ) by {
            assert(front[j] == ids[j]);
        }
        if p > 0 {
            assert(front[p - 1] == ids[p - 1]);
        }
        lemma_with_id_at(front, id, p);
        if p > 0 && ids[p - 1] == id {
            assert(front.push(ids.last()) =~= ids);
        } else {
            assert(front.insert(p, id).push(ids.last()) =~= ids.insert(p, id));
        }
    }
}

/// The ids of the operations stand in ascending order.
pub proof fn lemma_operation_ids_ascending(rows: Seq<JoinedRowView>)
    ensures
        ascending(operation_ids(rows)),
    decreases rows.len(),
{
    if rows.len() > 0 {
        lemma_operation_ids_ascending(rows.drop_last());
        lemma_with_id_ascending(operation_ids(rows.drop_last()), rows.last().operation_id);
    }
}

/// The id of every row is among the ids of the operations.
pub proof fn lemma_operation_ids_cover(rows: Seq<JoinedRowView>, k: int)
    requires
        0 <= k < rows.len(),
    ensures
        operation_ids(rows).contains(rows[k].operation_id),
    decreases rows.len(),
{
    let before = operation_ids(rows.drop_last());
    lemma_with_id_contains(before, rows.last().operation_id, rows[k].operation_id);
    if k < rows.len() - 1 {
        lemma_operation_ids_cover(rows.drop_last(), k);
        assert(rows.drop_last()[k] == rows[k]);
    }
}

/// Every id among the ids of the operations is the id of a row.
pub proof fn lemma_operation_ids_sound(rows: Seq<JoinedRowView>, j: int)
    requires
        0 <= j < operation_ids(rows).len(),
    ensures
        exists|k: int| 0 <= k < rows.len() && (#[trigger] rows[k]).operation_id == operation_ids(rows)[j],
    decreases rows.len(),
{
    let ids = operation_ids(rows);
    let front = rows.drop_last();
    let before = operation_ids(front);
    assert(ids.contains(ids[j]));
    lemma_with_id_contains(before, rows.last().operation_id, ids[j]);
    if ids[j] == rows.last().operation_id {
        assert(rows[rows.len() - 1].operation_id == ids[j]);
    } else {
        let i = choose|i: int| 0 <= i < before.len() && before[i] == ids[j];
        lemma_operation_ids_sound(front, i);
        let k = choose|k: int| 0 <= k < front.len() && (#[trigger] front[k]).operation_id == before[i];
        assert(rows[k].operation_id == ids[j]);
    }
}

/// No id occurs twice among the ids of the operations.
pub proof fn lemma_operation_ids_distinct(rows: Seq<JoinedRowView>)
    ensures
        operation_ids(rows).no_duplicates(),
{
    let ids = operation_ids(rows);
    lemma_operation_ids_ascending(rows);
    assert forall|i: int, j: int| 0 <= i < ids.len() && 0 <= j < ids.len() && i != j implies ids[i]
        != ids[j] by {
        lemma_text_lt_irreflexive(ids[i]);
        if i < j {
            assert(text_lt(ids[i], ids[j]));
        } else {
            assert(text_lt(ids[j], ids[i]));
        }
    }
}

/// An operation that no row belongs to has no rows.
pub proof fn lemma_no_rows_of_operation(rows: Seq<JoinedRowView>, id: Seq<char>)
    requires
        !operation_ids(rows).contains(id),
    ensures
        rows.filter(of_operation(id)) == Seq::<JoinedRowView>::empty(),
    decreases rows.len(),
{
    reveal(Seq::filter);
    if rows.len() > 0 {
        lemma_with_id_contains(operation_ids(rows.drop_last()), rows.last().operation_id, id);
        lemma_no_rows_of_operation(rows.drop_last(), id);
    }
}

/// Where an id stands among ids in ascending order, or where it goes:
/// the position after the last id that is the id or comes before it, and
/// whether that one is the id itself.
fn place_of(keys: &Vec<String>, id: &str) -> (r: (usize, bool))
    ensures
        r.0 <= keys.len(),
        forall|j: int|
            r.0 <= j < keys.len() ==> (#[trigger] keys@[j])@ != id@ && !text_lt(keys@[j]@, id@),
        r.1 ==> r.0 > 0 && keys@[r.0 - 1]@ == id@,
        !r.1 ==> r.0 == 0 || (keys@[r.0 - 1]@ != id@ && text_lt(keys@[r.0 - 1]@, id@)),
{
    let mut p: usize = keys.len();
    while p > 0
        invariant
            p <= keys.len(),
            forall|j: int|
                p <= j < keys.len() ==> (#[trigger] keys@[j])@ != id@ && !text_lt(keys@[j]@, id@),
        decreases p,
    {
        if same_text(keys[p - 1].as_str(), id) {
            return (p, true);
        }
        if text_before(keys[p - 1].as_str(), id) {
            return (p, false);
        }
        p -= 1;
    }
    (p, false)
}

/// Sorts rows into groups, one for each operation id. The groups stand in
/// ascending dictionary order of their operation ids, whatever the order of
/// the rows, and within a group the rows keep their order.
pub fn group_rows_by_operation_id(rows: &Vec<OperationFieldsJoinedRow>) -> (groups: Vec<
    Vec<OperationFieldsJoinedRow>,
>)
    ensures
        groups_view(groups@) == groups_of(joined_rows_view(rows@)),
        ascending(operation_ids(joined_rows_view(rows@))),
{
    let ghost all = joined_rows_view(rows@);
    let mut keys: Vec<String> = Vec::new();
    let mut groups: Vec<Vec<OperationFieldsJoinedRow>> = Vec::new();
    let mut i: usize = 0;
    assert(all.take(0) =~= Seq::<JoinedRowView>::empty());
    assert(texts(keys@) =~= operation_ids(all.take(0)));
    while i < rows.len()
        invariant
            i <= rows.len(),
            all == joined_rows_view(rows@),
            texts(keys@) == operation_ids(all.take(i as int)),
            groups.len() == keys.len(),
            forall|k: int|
                0 <= k < groups.len() ==> joined_rows_view((#[trigger] groups@[k])@) == all.take(
                    i as int,
                ).filter(of_operation(keys@[k]@)),
        decreases rows.len() - i,
    {
        let row = rows[i].clone();
        let ghost seen = all.take(i as int);
        let ghost longer = all.take(i + 1);
        let ghost ids = operation_ids(seen);
        let ghost old_groups = groups@;
        let ghost old_keys = keys@;
        let ghost id = row@.operation_id;
        let (p, found) = place_of(&keys, row.operation_id.as_str());
        proof {
            assert(longer =~= seen.push(all[i as int]));
            assert(longer.drop_last() =~= seen);
            assert(all[i as int] == row@);
            assert forall|k: int| 0 <= k < keys.len() implies #[trigger] longer.filter(
                of_operation(keys@[k]@),
            ) == if keys@[k]@ == id {
                seen.filter(of_operation(keys@[k]@)).push(row@)
            } else {
                seen.filter(of_operation(keys@[k]@))
            } by {
                seen.lemma_filter_push(row@, of_operation(keys@[k]@));
            }
            lemma_operation_ids_ascending(seen);
            lemma_operation_ids_distinct(seen);
            assert forall|j: int| p <= j < ids.len() implies (#[trigger] ids[j]) != id && !text_lt(
                ids[j],
                id,
            ) by {
                assert(ids[j] == keys@[j]@);
            }
            if p > 0 {
                assert(ids[p - 1] == keys@[p - 1]@);
            }
            lemma_with_id_at(ids, id, p as int);
        }
        if found {
            let mut group = groups.remove(p - 1);
            let ghost before = joined_rows_view(group@);
            group.push(row);
            assert(joined_rows_view(group@) =~= before.push(all[i as int]));
            groups.insert(p - 1, group);
            proof {
                assert forall|k: int| 0 <= k < groups.len() implies joined_rows_view(
                    (#[trigger] groups@[k])@,
                ) == longer.filter(of_operation(keys@[k]@)) by {
                    if k != p - 1 {
                        assert(groups@[k] == old_groups[k]);
                        assert(ids[k] == keys@[k]@);
                        assert(ids[p - 1] == keys@[p - 1]@);
                    }
                }
            }
        } else {
            proof {
                assert(!ids.contains(id)) by {
                    if ids.contains(id) {
                        let j = choose|j: int| 0 <= j < ids.len() && ids[j] == id;
                        if j < p {
                            lemma_text_lt_irreflexive(id);
                            if j < p - 1 {
                                assert(text_lt(ids[j], ids[p - 1]));
                                lemma_text_lt_transitive(ids[j], ids[p - 1], id);
                            }
                        }
                    }
                }
                lemma_no_rows_of_operation(seen, id);
                seen.lemma_filter_push(row@, of_operation(id));
            }
            keys.insert(p, row.operation_id.clone());
            let mut group: Vec<OperationFieldsJoinedRow> = Vec::new();
            group.push(row);
            assert(joined_rows_view(group@) =~= seq![all[i as int]]);
            groups.insert(p, group);
            proof {
                assert(texts(keys@) =~= ids.insert(p as int, id));
                assert forall|k: int| 0 <= k < groups.len() implies joined_rows_view(
                    (#[trigger] groups@[k])@,
                ) == longer.filter(of_operation(keys@[k]@)) by {
                    if k < p {
                        assert(groups@[k] == old_groups[k]);
                        assert(keys@[k] == old_keys[k]);
                        assert(ids[k] == old_keys[k]@);
                    } else if k == p {
                        assert(Seq::<JoinedRowView>::empty().push(all[i as int]) =~= seq![
                            all[i as int],
                        ]);
                    } else {
                        assert(groups@[k] == old_groups[k - 1]);
                        assert(keys@[k] == old_keys[k - 1]);
                        assert(ids[k - 1] == old_keys[k - 1]@);
                    }
                }
            }
        }
        i += 1;
    }
    proof {
        assert(all.take(i as int) =~= all);
        lemma_operation_ids_ascending(all);
        assert(groups_view(groups@) =~= groups_of(all)) by {
            assert forall|k: int| 0 <= k < groups.len() implies groups_view(groups@)[k]
                == groups_of(all)[k] by {
                assert(operation_ids(all)[k] == keys@[k]@);
            }
        }
    }
    groups
}

} // verus!
