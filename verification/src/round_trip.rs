//! Why reading gives back what was written: the rows of an operation, joined
//! and ordered by list position, are put together into that operation again.

use vstd::prelude::*;
use crate::assemble::{
    field_position, fields_of_rows, is_list_type, list_append, list_start, operation_of_rows,
    scalar_of_text, JoinedRowView, StoredOperation,
};
use crate::decimal::{lemma_i64_round_trip, lemma_u64_round_trip};
use crate::hash::is_hash_text;
use crate::hex_text::{lemma_hex_encode_is_hex, lemma_hex_round_trip};
use crate::ids::lemma_view_id_text_round_trip;
use crate::join::{
    at_level, join_fields, joined_row, lemma_level_bound, lemma_rows_below_beyond, level_bound,
    row_level, rows_below, sorted_by_list_index,
};
use crate::operation::{
    distinct_names, is_operation, is_value, lemma_action_text_round_trip,
    lemma_type_text_round_trip, value_type, FieldEntry, OperationView, Value,
};
use crate::rows::{
    field_row, field_rows, row_of_operation, rows_of_fields, value_texts, FieldRowView,
    OperationRowView,
};

verus! {

/// The value with its list cut down to `n` elements, if it holds more.
pub open spec fn truncated(value: Value, n: nat) -> Value {
    match value {
        Value::RelationList(ids) => Value::RelationList(
            ids.take(if n < ids.len() {
                n as int
            } else {
                ids.len() as int
            }),
        ),
        Value::PinnedRelationList(ids) => Value::PinnedRelationList(
            ids.take(if n < ids.len() {
                n as int
            } else {
                ids.len() as int
            }),
        ),
        _ => value,
    }
}

/// A value has at least one text, and only a list has more.
pub proof fn lemma_value_texts_len(value: Value)
    ensures
        value_texts(value).len() >= 1,
        !is_list_type(value_type(value)) ==> value_texts(value).len() == 1,
        value matches Value::RelationList(ids) ==> value_texts(value).len() == if ids.len() == 0 {
            1
        } else {
            ids.len()
        },
        value matches Value::PinnedRelationList(ids) ==> value_texts(value).len() == if ids.len()
            == 0 {
            1
        } else {
            ids.len()
        },
{
}

/// A single value is read back from its text.
pub proof fn lemma_scalar_round_trip(value: Value)
    requires
        is_value(value),
        !is_list_type(value_type(value)),
    ensures
        value_texts(value)[0] is Some,
        scalar_of_text(value_type(value), value_texts(value)[0]->0) == Some(value),
{
    match value {
        Value::Boolean(b) => {
            reveal_strlit("true");
            reveal_strlit("false");
            assert("true"@.len() == 4 && "false"@.len() == 5);
        },
        Value::Bytes(bytes) => {
            lemma_hex_encode_is_hex(bytes);
            lemma_hex_round_trip(bytes);
        },
        Value::Integer(n) => {
            lemma_i64_round_trip(n);
        },
        Value::Float(bits) => {
            lemma_u64_round_trip(bits);
        },
        Value::Text(text) => {},
        Value::Relation(id) => {},
        Value::PinnedRelation(id) => {
            lemma_view_id_text_round_trip(id);
        },
        _ => {},
    }
}

/// The first row of a list is read as the list cut down to one element.
pub proof fn lemma_list_start_round_trip(value: Value)
    requires
        is_value(value),
        is_list_type(value_type(value)),
    ensures
        list_start(value_type(value), value_texts(value)[0]) == Some(truncated(value, 1)),
{
    match value {
        Value::RelationList(ids) => {
            if ids.len() == 0 {
                assert(ids.take(0) =~= Seq::<Seq<char>>::empty());
            } else {
                assert(ids.take(1) =~= seq![ids[0]]);
            }
        },
        Value::PinnedRelationList(ids) => {
            if ids.len() == 0 {
                assert(ids.take(0) =~= Seq::<Seq<Seq<char>>>::empty());
            } else {
                lemma_view_id_text_round_trip(ids[0]);
                assert(ids.take(1) =~= seq![ids[0]]);
            }
        },
        _ => {},
    }
}

/// A later row of a list adds the element at its position.
pub proof fn lemma_list_append_round_trip(value: Value, k: nat)
    requires
        is_value(value),
        1 <= k < value_texts(value).len(),
    ensures
        is_list_type(value_type(value)),
        value_texts(value)[k as int] is Some,
        list_append(value_type(value), truncated(value, k), k, value_texts(value)[k as int]->0)
            == Some(truncated(value, k + 1)),
{
    match value {
        Value::RelationList(ids) => {
            assert(ids.take(k as int).push(ids[k as int]) =~= ids.take(k as int + 1));
        },
        Value::PinnedRelationList(ids) => {
            lemma_view_id_text_round_trip(ids[k as int]);
            assert(ids.take(k as int).push(ids[k as int]) =~= ids.take(k as int + 1));
        },
        _ => {},
    }
}

/// Cutting a list down to no less than it holds changes nothing.
pub proof fn lemma_truncated_whole(value: Value, n: nat)
    requires
        n >= value_texts(value).len(),
    ensures
        truncated(value, n) == value,
{
    match value {
        Value::RelationList(ids) => {
            assert(ids.take(ids.len() as int) =~= ids);
        },
        Value::PinnedRelationList(ids) => {
            assert(ids.take(ids.len() as int) =~= ids);
        },
        _ => {},
    }
}

/// A name that no field has is at no position.
pub proof fn lemma_position_absent(fields: Seq<FieldEntry>, name: Seq<char>)
    requires
        forall|j: int| 0 <= j < fields.len() ==> (#[trigger] fields[j]).name != name,
    ensures
        field_position(fields, name) is None,
    decreases fields.len(),
{
    if fields.len() > 0 {
        assert forall|j: int| 0 <= j < fields.drop_last().len() implies (
        #[trigger] fields.drop_last()[j]).name != name by {
            assert(fields.drop_last()[j] == fields[j]);
        }
        lemma_position_absent(fields.drop_last(), name);
    }
}

/// A name that no earlier field has is at the position of its field.
pub proof fn lemma_position_present(fields: Seq<FieldEntry>, p: int)
    requires
        0 <= p < fields.len(),
        forall|j: int| 0 <= j < p ==> (#[trigger] fields[j]).name != fields[p].name,
    ensures
        field_position(fields, fields[p].name) == Some(p),
    decreases fields.len(),
{
    let front = fields.drop_last();
    if p == fields.len() - 1 {
        assert forall|j: int| 0 <= j < front.len() implies (#[trigger] front[j]).name
            != fields[p].name by {
            assert(front[j] == fields[j]);
        }
        lemma_position_absent(front, fields[p].name);
    } else {
        assert(front[p] == fields[p]);
        assert forall|j: int| 0 <= j < p implies (#[trigger] front[j]).name != front[p].name by {
            assert(front[j] == fields[j]);
        }
        lemma_position_present(front, p);
    }
}

/// The joined row of the value at position `k` of the field at `j`.
pub open spec fn row_at(
    operation: OperationRowView,
    fields: Seq<FieldEntry>,
    j: int,
    k: nat,
) -> JoinedRowView {
    joined_row(operation, field_row(operation.operation_id, fields[j], k as int))
}

/// The rows in the order by list position, as far as position `k` of the
/// field before `upto`: all rows of the positions before `k`, and of the
/// rows at position `k` those of the fields before `upto`.
pub open spec fn prefix_rows(
    operation: OperationRowView,
    fields: Seq<FieldEntry>,
    k: nat,
    upto: nat,
) -> Seq<JoinedRowView>
    decreases k, upto,
{
    if upto == 0 {
        if k == 0 {
            Seq::empty()
        } else {
            prefix_rows(operation, fields, (k - 1) as nat, fields.len())
        }
    } else {
        let before = prefix_rows(operation, fields, k, (upto - 1) as nat);
        if value_texts(fields[upto - 1].value).len() > k {
            before.push(row_at(operation, fields, upto - 1, k))
        } else {
            before
        }
    }
}

/// The fields as they stand after the rows of `prefix_rows` were read.
pub open spec fn partial_fields(fields: Seq<FieldEntry>, k: nat, upto: nat) -> Seq<FieldEntry> {
    if k == 0 {
        Seq::new(
            upto,
            |j: int| FieldEntry { name: fields[j].name, value: truncated(fields[j].value, 1) },
        )
    } else {
        Seq::new(
            fields.len(),
            |j: int|
                FieldEntry {
                    name: fields[j].name,
                    value: truncated(
                        fields[j].value,
                        if j < upto {
                            k + 1
                        } else {
                            k
                        },
                    ),
                },
        )
    }
}

/// Reading the rows of `prefix_rows` gives the fields of `partial_fields`.
pub proof fn lemma_prefix_fields(
    operation: OperationRowView,
    fields: Seq<FieldEntry>,
    k: nat,
    upto: nat,
)
    requires
        upto <= fields.len(),
        distinct_names(fields),
        forall|j: int| 0 <= j < fields.len() ==> is_value((#[trigger] fields[j]).value),
    ensures
        fields_of_rows(prefix_rows(operation, fields, k, upto)) == Some(
            partial_fields(fields, k, upto),
        ),
    decreases k, upto,
{
    let rows = prefix_rows(operation, fields, k, upto);
    if upto == 0 {
        if k == 0 {
            assert(partial_fields(fields, 0, 0) =~= Seq::<FieldEntry>::empty());
        } else {
            lemma_prefix_fields(operation, fields, (k - 1) as nat, fields.len());
            assert(partial_fields(fields, (k - 1) as nat, fields.len()) =~= partial_fields(
                fields,
                k,
                0,
            ));
        }
    } else {
        let j = upto - 1;
        let field = fields[j];
        let before_rows = prefix_rows(operation, fields, k, j as nat);
        let before = partial_fields(fields, k, j as nat);
        lemma_prefix_fields(operation, fields, k, j as nat);
        lemma_value_texts_len(field.value);
        if value_texts(field.value).len() > k {
            let row = row_at(operation, fields, j, k);
            assert(rows.drop_last() =~= before_rows);
            assert(rows.last() == row);
            lemma_type_text_round_trip(value_type(field.value));
            if k == 0 {
                assert forall|i: int| 0 <= i < before.len() implies (#[trigger] before[i]).name
                    != field.name by {
                    assert(fields[i].name != fields[j].name);
                }
                lemma_position_absent(before, field.name);
                if is_list_type(value_type(field.value)) {
                    lemma_list_start_round_trip(field.value);
                } else {
                    lemma_scalar_round_trip(field.value);
                    lemma_truncated_whole(field.value, 1);
                }
                assert(before.push(FieldEntry { name: field.name, value: truncated(field.value, 1) })
                    =~= partial_fields(fields, k, upto));
            } else {
                assert(before[j].name == field.name);
                assert forall|i: int| 0 <= i < j implies (#[trigger] before[i]).name
                    != before[j].name by {
                    assert(fields[i].name != fields[j].name);
                }
                lemma_position_present(before, j);
                lemma_list_append_round_trip(field.value, k);
                assert(before.update(
                    j,
                    FieldEntry { name: field.name, value: truncated(field.value, k + 1) },
                ) =~= partial_fields(fields, k, upto));
            }
        } else {
            assert(k >= 1);
            lemma_truncated_whole(field.value, k);
            lemma_truncated_whole(field.value, k + 1);
            assert(before =~= partial_fields(fields, k, upto));
        }
    }
}

/// The first `n` joined rows of the field at `j`.
pub open spec fn field_joined(
    operation: OperationRowView,
    fields: Seq<FieldEntry>,
    j: int,
    n: nat,
) -> Seq<JoinedRowView> {
    Seq::new(n, |i: int| row_at(operation, fields, j, i as nat))
}

/// Each field row side by side with the row of the operation.
pub open spec fn joined_all(operation: OperationRowView, rows: Seq<FieldRowView>) -> Seq<
    JoinedRowView,
> {
    Seq::new(rows.len(), |i: int| joined_row(operation, rows[i]))
}

/// The joined rows of the fields before `upto`, field after field.
pub open spec fn joined_upto(operation: OperationRowView, fields: Seq<FieldEntry>, upto: nat) -> Seq<
    JoinedRowView,
> {
    joined_all(operation, rows_of_fields(operation.operation_id, fields.take(upto as int)))
}

/// Of the rows at position `k`, those of the fields before `upto`.
pub open spec fn bucket_rows(
    operation: OperationRowView,
    fields: Seq<FieldEntry>,
    k: nat,
    upto: nat,
) -> Seq<JoinedRowView>
    decreases upto,
{
    if upto == 0 {
        Seq::empty()
    } else {
        let before = bucket_rows(operation, fields, k, (upto - 1) as nat);
        if value_texts(fields[upto - 1].value).len() > k {
            before.push(row_at(operation, fields, upto - 1, k))
        } else {
            before
        }
    }
}

/// The joined rows of one more field are those of the fields before it and
/// then its own.
pub proof fn lemma_joined_upto_step(
    operation: OperationRowView,
    fields: Seq<FieldEntry>,
    upto: nat,
)
    requires
        1 <= upto <= fields.len(),
    ensures
        joined_upto(operation, fields, upto) == joined_upto(operation, fields, (upto - 1) as nat)
            + field_joined(
            operation,
            fields,
            upto - 1,
            value_texts(fields[upto - 1].value).len(),
        ),
{
    let id = operation.operation_id;
    let taken = fields.take(upto as int);
    assert(taken.drop_last() =~= fields.take(upto - 1));
    assert(taken.last() == fields[upto - 1]);
    let a = rows_of_fields(id, fields.take(upto - 1));
    let b = field_rows(id, fields[upto - 1]);
    assert(rows_of_fields(id, taken) == a + b);
    assert(joined_all(operation, a + b) =~= joined_all(operation, a) + field_joined(
        operation,
        fields,
        upto - 1,
        value_texts(fields[upto - 1].value).len(),
    ));
}

/// Of the first `n` rows of a field, the one at position `k` is the only
/// one of its level.
pub proof fn lemma_field_level(
    operation: OperationRowView,
    fields: Seq<FieldEntry>,
    j: int,
    n: nat,
    level: nat,
)
    ensures
        field_joined(operation, fields, j, n).filter(at_level(level)) == if 1 <= level <= n {
            seq![row_at(operation, fields, j, (level - 1) as nat)]
        } else {
            Seq::<JoinedRowView>::empty()
        },
    decreases n,
{
    reveal(Seq::filter);
    let rows = field_joined(operation, fields, j, n);
    if n > 0 {
        let front = field_joined(operation, fields, j, (n - 1) as nat);
        lemma_field_level(operation, fields, j, (n - 1) as nat, level);
        assert(rows.drop_last() =~= front);
        assert(rows.last() == row_at(operation, fields, j, (n - 1) as nat));
        assert(row_level(rows.last()) == n);
        if level == n {
            assert(Seq::<JoinedRowView>::empty().push(rows.last()) =~= seq![rows.last()]);
        }
    }
}

/// Of the joined rows of the fields before `upto`, those of a level are the
/// rows of `bucket_rows`; none is of the level of rows without position.
pub proof fn lemma_joined_level(
    operation: OperationRowView,
    fields: Seq<FieldEntry>,
    k: nat,
    upto: nat,
)
    requires
        upto <= fields.len(),
    ensures
        joined_upto(operation, fields, upto).filter(at_level(k + 1)) == bucket_rows(
            operation,
            fields,
            k,
            upto,
        ),
        joined_upto(operation, fields, upto).filter(at_level(0)) == Seq::<JoinedRowView>::empty(),
    decreases upto,
{
    if upto == 0 {
        reveal(Seq::filter);
        assert(fields.take(0) =~= Seq::<FieldEntry>::empty());
        assert(joined_upto(operation, fields, 0) =~= Seq::<JoinedRowView>::empty());
    } else {
        let j = upto - 1;
        let n = value_texts(fields[j].value).len();
        let before = joined_upto(operation, fields, j as nat);
        let own = field_joined(operation, fields, j, n);
        lemma_joined_upto_step(operation, fields, upto);
        lemma_joined_level(operation, fields, k, j as nat);
        lemma_field_level(operation, fields, j, n, k + 1);
        lemma_field_level(operation, fields, j, n, 0);
        Seq::filter_distributes_over_add(before, own, at_level(k + 1));
        Seq::filter_distributes_over_add(before, own, at_level(0));
        let b = bucket_rows(operation, fields, k, j as nat);
        if n > k {
            assert(b + seq![row_at(operation, fields, j, k)] =~= b.push(
                row_at(operation, fields, j, k),
            ));
        } else {
            assert(b + Seq::<JoinedRowView>::empty() =~= b);
        }
        assert(Seq::<JoinedRowView>::empty() + Seq::<JoinedRowView>::empty()
            =~= Seq::<JoinedRowView>::empty());
    }
}

/// The rows as far as position `k` are those of the positions before it
/// and then the rows of `bucket_rows`.
pub proof fn lemma_prefix_bucket(
    operation: OperationRowView,
    fields: Seq<FieldEntry>,
    k: nat,
    upto: nat,
)
    requires
        upto <= fields.len(),
    ensures
        prefix_rows(operation, fields, k, upto) == prefix_rows(operation, fields, k, 0)
            + bucket_rows(operation, fields, k, upto),
    decreases upto,
{
    let start = prefix_rows(operation, fields, k, 0);
    if upto == 0 {
        assert(start + Seq::<JoinedRowView>::empty() =~= start);
    } else {
        lemma_prefix_bucket(operation, fields, k, (upto - 1) as nat);
        let b = bucket_rows(operation, fields, k, (upto - 1) as nat);
        if value_texts(fields[upto - 1].value).len() > k {
            let row = row_at(operation, fields, upto - 1, k);
            assert((start + b).push(row) =~= start + b.push(row));
        }
    }
}

/// Ordering the joined rows of all fields by list position gives the rows
/// of `prefix_rows`.
pub proof fn lemma_rows_below_prefix(operation: OperationRowView, fields: Seq<FieldEntry>, k: nat)
    ensures
        rows_below(joined_upto(operation, fields, fields.len()), k + 2) == prefix_rows(
            operation,
            fields,
            k,
            fields.len(),
        ),
    decreases k,
{
    let all = joined_upto(operation, fields, fields.len());
    let empty = Seq::<JoinedRowView>::empty();
    lemma_joined_level(operation, fields, k, fields.len());
    lemma_prefix_bucket(operation, fields, k, fields.len());
    if k == 0 {
        assert(rows_below(all, 0) == empty);
        assert(rows_below(all, 1) == rows_below(all, 0) + all.filter(at_level(0)));
        assert(rows_below(all, 1) =~= empty);
        assert(rows_below(all, 2) == rows_below(all, 1) + all.filter(at_level(1)));
    } else {
        lemma_rows_below_prefix(operation, fields, (k - 1) as nat);
        assert(rows_below(all, k + 2) == rows_below(all, (k + 1) as nat) + all.filter(
            at_level((k + 1) as nat),
        ));
    }
}

/// With at least one field, the first row in the order by list position is
/// the first row of the first field.
pub proof fn lemma_prefix_first(
    operation: OperationRowView,
    fields: Seq<FieldEntry>,
    k: nat,
    upto: nat,
)
    requires
        fields.len() >= 1,
        upto <= fields.len(),
        k >= 1 || upto >= 1,
    ensures
        prefix_rows(operation, fields, k, upto).len() >= 1,
        prefix_rows(operation, fields, k, upto)[0] == row_at(operation, fields, 0, 0),
    decreases k, upto,
{
    if upto == 0 {
        lemma_prefix_first(operation, fields, (k - 1) as nat, fields.len());
    } else if upto == 1 && k == 0 {
        lemma_value_texts_len(fields[0].value);
        assert(prefix_rows(operation, fields, 0, 0) =~= Seq::<JoinedRowView>::empty());
    } else {
        lemma_prefix_first(operation, fields, k, (upto - 1) as nat);
    }
}

/// The stored operation with the given id, author, document and operation.
pub open spec fn stored(
    id: Seq<char>,
    public_key: Seq<char>,
    document_id: Seq<char>,
    operation: OperationView,
) -> StoredOperation {
    StoredOperation { id, public_key, document_id, operation }
}

/// The ids of the entry are hash texts and its operation is well-formed.
pub open spec fn is_stored(entry: StoredOperation) -> bool {
    &&& is_hash_text(entry.id)
    &&& is_hash_text(entry.document_id)
    &&& is_operation(entry.operation)
}

/// The row of a stored operation in the table of operations.
pub open spec fn operation_row_of(entry: StoredOperation) -> OperationRowView {
    row_of_operation(entry.id, entry.public_key, entry.operation, entry.document_id)
}

/// The rows of a stored operation in the table of operation fields.
pub open spec fn field_rows_of(entry: StoredOperation) -> Seq<FieldRowView> {
    rows_of_fields(entry.id, entry.operation.fields)
}

/// The rows that the join yields for one stored operation, ordered by list
/// position.
pub open spec fn joined_rows_of(entry: StoredOperation) -> Seq<JoinedRowView> {
    sorted_by_list_index(join_fields(operation_row_of(entry), field_rows_of(entry)))
}

/// The rows of an operation hold as many rows as its values have texts, so
/// there are none exactly where there is no field.
pub proof fn lemma_rows_of_fields_len(id: Seq<char>, fields: Seq<FieldEntry>)
    ensures
        fields.len() == 0 <==> rows_of_fields(id, fields).len() == 0,
    decreases fields.len(),
{
    if fields.len() > 0 {
        lemma_value_texts_len(fields.last().value);
    }
}

/// Reading gives back what was written: the rows of a stored operation,
/// joined and ordered by list position, are put together into that very
/// operation, with every value of every list at its position.
pub proof fn lemma_rows_round_trip(entry: StoredOperation)
    requires
        is_stored(entry),
    ensures
        operation_of_rows(joined_rows_of(entry)) == Some(Some(entry)),
{
    let operation = operation_row_of(entry);
    let fields = entry.operation.fields;
    let table = field_rows_of(entry);
    let joined = join_fields(operation, table);
    let sorted = joined_rows_of(entry);
    lemma_action_text_round_trip(entry.operation.action);
    match entry.operation.previous {
        Some(previous) => {
            lemma_view_id_text_round_trip(previous);
        },
        None => {},
    }
    lemma_rows_of_fields_len(entry.id, fields);
    if fields.len() == 0 {
        reveal(Seq::filter);
        let bare = joined[0];
        assert(joined.drop_last() =~= Seq::<JoinedRowView>::empty());
        assert(joined.len() == 1 && row_level(joined.last()) == 0);
        assert(level_bound(joined.drop_last()) == 0);
        assert(level_bound(joined) == 1);
        assert(joined.filter(at_level(0)) =~= seq![bare]);
        assert(rows_below(joined, 0) == Seq::<JoinedRowView>::empty());
        assert(sorted =~= seq![bare]);
        assert(sorted.drop_last() =~= Seq::<JoinedRowView>::empty());
        assert(fields_of_rows(sorted.drop_last()) == Some(Seq::<FieldEntry>::empty()));
        assert(fields =~= Seq::<FieldEntry>::empty());
    } else {
        assert(fields.take(fields.len() as int) =~= fields);
        assert(joined =~= joined_upto(operation, fields, fields.len()));
        let k = level_bound(joined);
        lemma_rows_below_beyond(joined, k + 2);
        lemma_rows_below_prefix(operation, fields, k);
        lemma_prefix_fields(operation, fields, k, fields.len());
        lemma_prefix_first(operation, fields, k, fields.len());
        assert(partial_fields(fields, k, fields.len()) =~= fields) by {
            assert forall|j: int| 0 <= j < fields.len() implies #[trigger] partial_fields(
                fields,
                k,
                fields.len(),
            )[j] == fields[j] by {
                lemma_whole_at_bound(operation, fields, j);
                lemma_truncated_whole(fields[j].value, k + 1);
            }
        }
    }
}

/// The bound of the levels of the joined rows of all fields is above the
/// number of rows of each field.
pub proof fn lemma_whole_at_bound(operation: OperationRowView, fields: Seq<FieldEntry>, j: int)
    requires
        0 <= j < fields.len(),
    ensures
        value_texts(fields[j].value).len() < level_bound(
            joined_upto(operation, fields, fields.len()),
        ),
{
    let all = joined_upto(operation, fields, fields.len());
    let n = value_texts(fields[j].value).len();
    lemma_value_texts_len(fields[j].value);
    lemma_joined_level(operation, fields, (n - 1) as nat, fields.len());
    lemma_bucket_holds(operation, fields, (n - 1) as nat, fields.len(), j);
    let row = row_at(operation, fields, j, (n - 1) as nat);
    let level_rows = all.filter(at_level(n));
    assert(level_rows.contains(row));
    let i = choose|i: int| 0 <= i < level_rows.len() && level_rows[i] == row;
    all.lemma_filter_contains_rev(at_level(n), row);
    let p = choose|p: int| 0 <= p < all.len() && all[p] == row;
    lemma_level_bound(all, p);
}

/// The rows at position `k` hold the row of every field that has one.
pub proof fn lemma_bucket_holds(
    operation: OperationRowView,
    fields: Seq<FieldEntry>,
    k: nat,
    upto: nat,
    j: int,
)
    requires
        0 <= j < upto <= fields.len(),
        value_texts(fields[j].value).len() > k,
    ensures
        bucket_rows(operation, fields, k, upto).contains(row_at(operation, fields, j, k)),
    decreases upto,
{
    let rows = bucket_rows(operation, fields, k, upto);
    let before = bucket_rows(operation, fields, k, (upto - 1) as nat);
    if j == upto - 1 {
        assert(rows[rows.len() - 1] == row_at(operation, fields, j, k));
    } else {
        lemma_bucket_holds(operation, fields, k, (upto - 1) as nat, j);
        let i = choose|i: int| 0 <= i < before.len() && before[i] == row_at(operation, fields, j, k);
        assert(rows[i] == row_at(operation, fields, j, k));
    }
}

} // verus!
