//! The query model: what a request asks of the documents of one schema,
//! independent of the wire format it came in and of the storage it runs on.

use vstd::prelude::*;
use crate::cursor::{PaginationCursor, PaginationCursorView};
use crate::operation::{OperationValue, Value};
use crate::text::same_text;

verus! {

/// The page size that is used where a request names none, or names zero.
pub const DEFAULT_PAGE_SIZE: u64 = 200;

/// A field that every document has, whatever its schema.
#[derive(Debug, Clone, Copy, PartialEq, Eq, Structural)]
pub enum MetaField {
    Owner,
    DocumentId,
    DocumentViewId,
}

/// A field that a query filters, orders or selects by.
#[derive(Debug, PartialEq, Eq)]
pub enum Field {
    /// A reserved field of the document itself.
    Meta(MetaField),
    /// A field that the schema declares, by name.
    Field(String),
}

/// A field, with the name as plain text.
pub enum FieldView {
    Meta(MetaField),
    Named(Seq<char>),
}

impl View for Field {
    type V = FieldView;

    open spec fn view(&self) -> FieldView {
        match self {
            Field::Meta(meta) => FieldView::Meta(*meta),
            Field::Field(name) => FieldView::Named(name@),
        }
    }
}

impl Clone for Field {
    fn clone(&self) -> (r: Self)
        ensures
            r@ == self@,
    {
        match self {
            Field::Meta(meta) => Field::Meta(*meta),
            Field::Field(name) => Field::Field(name.clone()),
        }
    }
}

impl Field {
    /// The schema field of the given name.
    pub fn new(name: &str) -> (field: Field)
        ensures
            field@ == FieldView::Named(name@),
    {
        Field::Field(name.to_owned())
    }

    /// Whether two fields are the same.
    pub fn same(&self, other: &Field) -> (r: bool)
        ensures
            r == (self@ == other@),
    {
        match (self, other) {
            (Field::Meta(a), Field::Meta(b)) => *a == *b,
            (Field::Field(a), Field::Field(b)) => same_text(a.as_str(), b.as_str()),
            _ => false,
        }
    }
}

/// In which direction the results are ordered.
#[derive(Debug, Clone, Copy, PartialEq, Eq, Structural)]
pub enum Direction {
    Ascending,
    Descending,
}

/// How a filter compares a field with its value.
#[derive(Debug, Clone, Copy, PartialEq, Eq, Structural)]
pub enum Operator {
    Eq,
    NotEq,
    Gt,
    Gte,
    Lt,
    Lte,
    Contains,
    NotContains,
}

/// One condition of a filter.
#[derive(Debug, PartialEq, Eq)]
pub struct FilterSetting {
    pub field: Field,
    pub operator: Operator,
    pub value: OperationValue,
}

/// One condition of a filter, as plain values.
pub struct FilterSettingView {
    pub field: FieldView,
    pub operator: Operator,
    pub value: Value,
}

impl View for FilterSetting {
    type V = FilterSettingView;

    open spec fn view(&self) -> FilterSettingView {
        FilterSettingView { field: self.field@, operator: self.operator, value: self.value@ }
    }
}

/// The conditions that a document has to meet, all of them, in the order in
/// which they were added.
#[derive(Debug, PartialEq, Eq)]
pub struct Filter {
    settings: Vec<FilterSetting>,
}

impl View for Filter {
    type V = Seq<FilterSettingView>;

    closed spec fn view(&self) -> Seq<FilterSettingView> {
        self.settings@.map_values(|s: FilterSetting| s@)
    }
}

impl Filter {
    /// The filter that every document passes.
    pub fn new() -> (filter: Filter)
        ensures
            filter@ == Seq::<FilterSettingView>::empty(),
    {
        let filter = Filter { settings: Vec::new() };
        assert(filter@ =~= Seq::<FilterSettingView>::empty());
        filter
    }

    /// Adds a condition with the given operator.
    pub fn add_setting(&mut self, field: &Field, operator: Operator, value: &OperationValue)
        ensures
            final(self)@ == old(self)@.push(
                FilterSettingView { field: field@, operator, value: value@ },
            ),
    {
        let setting = FilterSetting { field: field.clone(), operator, value: value.clone() };
        self.settings.push(setting);
        assert(self@ =~= old(self)@.push(
            FilterSettingView { field: field@, operator, value: value@ },
        ));
    }

    /// The field has to equal the value.
    pub fn add(&mut self, field: &Field, value: &OperationValue)
        ensures
            final(self)@ == old(self)@.push(
                FilterSettingView { field: field@, operator: Operator::Eq, value: value@ },
            ),
    {
        self.add_setting(field, Operator::Eq, value)
    }

    /// The field has to differ from the value.
    pub fn add_not(&mut self, field: &Field, value: &OperationValue)
        ensures
            final(self)@ == old(self)@.push(
                FilterSettingView { field: field@, operator: Operator::NotEq, value: value@ },
            ),
    {
        self.add_setting(field, Operator::NotEq, value)
    }

    /// The field has to be greater than the value.
    pub fn add_gt(&mut self, field: &Field, value: &OperationValue)
        ensures
            final(self)@ == old(self)@.push(
                FilterSettingView { field: field@, operator: Operator::Gt, value: value@ },
            ),
    {
        self.add_setting(field, Operator::Gt, value)
    }

    /// The field has to be greater than the value, or equal to it.
    pub fn add_gte(&mut self, field: &Field, value: &OperationValue)
        ensures
            final(self)@ == old(self)@.push(
                FilterSettingView { field: field@, operator: Operator::Gte, value: value@ },
            ),
    {
        self.add_setting(field, Operator::Gte, value)
    }

    /// The field has to be less than the value.
    pub fn add_lt(&mut self, field: &Field, value: &OperationValue)
        ensures
            final(self)@ == old(self)@.push(
                FilterSettingView { field: field@, operator: Operator::Lt, value: value@ },
            ),
    {
        self.add_setting(field, Operator::Lt, value)
    }

    /// The field has to be less than the value, or equal to it.
    pub fn add_lte(&mut self, field: &Field, value: &OperationValue)
        ensures
            final(self)@ == old(self)@.push(
                FilterSettingView { field: field@, operator: Operator::Lte, value: value@ },
            ),
    {
        self.add_setting(field, Operator::Lte, value)
    }

    /// The field, a text, has to contain the given text.
    pub fn add_contains(&mut self, field: &Field, text: &str)
        ensures
            final(self)@ == old(self)@.push(
                FilterSettingView {
                    field: field@,
                    operator: Operator::Contains,
                    value: Value::Text(text@),
                },
            ),
    {
        let value = OperationValue::String(text.to_owned());
        self.add_setting(field, Operator::Contains, &value)
    }

    /// The field, a text, must not contain the given text.
    pub fn add_not_contains(&mut self, field: &Field, text: &str)
        ensures
            final(self)@ == old(self)@.push(
                FilterSettingView {
                    field: field@,
                    operator: Operator::NotContains,
                    value: Value::Text(text@),
                },
            ),
    {
        let value = OperationValue::String(text.to_owned());
        self.add_setting(field, Operator::NotContains, &value)
    }

    /// How many conditions the filter holds.
    pub fn len(&self) -> (n: usize)
        ensures
            n == self@.len(),
    {
        self.settings.len()
    }

    /// The condition at the given position.
    pub fn get(&self, k: usize) -> (setting: Option<&FilterSetting>)
        ensures
            setting is Some <==> k < self@.len(),
            setting matches Some(s) ==> s@ == self@[k as int],
    {
        if k < self.settings.len() {
            Some(&self.settings[k])
        } else {
            None
        }
    }
}

/// By which field, and in which direction, the results are ordered.
#[derive(Debug, PartialEq, Eq)]
pub struct Order {
    /// The field to order by; without one, the document id orders.
    pub field: Option<Field>,
    pub direction: Direction,
}

/// An order, as plain values.
pub struct OrderView {
    pub field: Option<FieldView>,
    pub direction: Direction,
}

impl View for Order {
    type V = OrderView;

    open spec fn view(&self) -> OrderView {
        OrderView {
            field: match self.field {
                Some(field) => Some(field@),
                None => None,
            },
            direction: self.direction,
        }
    }
}

/// The field that an order sorts by: the one it names, and the document id
/// where it names none.
pub open spec fn ordering_field(order: OrderView) -> FieldView {
    match order.field {
        Some(field) => field,
        None => FieldView::Meta(MetaField::DocumentId),
    }
}

impl Order {
    /// The order of a request that names none: ascending, by document id.
    pub fn new() -> (order: Order)
        ensures
            order@ == (OrderView { field: None, direction: Direction::Ascending }),
    {
        Order { field: None, direction: Direction::Ascending }
    }

    /// The field that the results are sorted by. It is never missing, so
    /// that ties are broken by the document id and no row is met twice, or
    /// skipped, from one page to the next.
    pub fn effective_field(&self) -> (field: Field)
        ensures
            field@ == ordering_field(self@),
    {
        match &self.field {
            Some(field) => field.clone(),
            None => Field::Meta(MetaField::DocumentId),
        }
    }
}

/// How many results a page holds, and after which row it starts.
#[derive(Debug, PartialEq, Eq)]
pub struct Pagination {
    first: u64,
    after: Option<PaginationCursor>,
}

/// A pagination, as plain values.
pub struct PaginationView {
    pub first: u64,
    pub after: Option<PaginationCursorView>,
}

impl View for Pagination {
    type V = PaginationView;

    closed spec fn view(&self) -> PaginationView {
        PaginationView {
            first: self.first,
            after: match self.after {
                Some(cursor) => Some(cursor@),
                None => None,
            },
        }
    }
}

/// The page size that a request gets: what it asks for, and the default
/// where it asks for nothing or for zero.
pub open spec fn page_size(first: Option<u64>) -> u64 {
    match first {
        Some(n) => if n == 0 {
            DEFAULT_PAGE_SIZE
        } else {
            n
        },
        None => DEFAULT_PAGE_SIZE,
    }
}

impl Pagination {
    #[verifier::type_invariant]
    closed spec fn well_formed(&self) -> bool {
        self.first > 0
    }

    /// A page of the size asked for, after the given cursor.
    pub fn new(first: Option<u64>, after: Option<PaginationCursor>) -> (pagination: Pagination)
        ensures
            pagination@.first == page_size(first),
            pagination@.after == match after {
                Some(cursor) => Some(cursor@),
                None => None,
            },
    {
        let size = match first {
            Some(n) => if n == 0 {
                DEFAULT_PAGE_SIZE
            } else {
                n
            },
            None => DEFAULT_PAGE_SIZE,
        };
        Pagination { first: size, after }
    }

    /// The size of a page: never zero.
    pub fn first(&self) -> (n: u64)
        ensures
            n == self@.first,
            n > 0,
    {
        proof {
            use_type_invariant(self);
        }
        self.first
    }

    /// The cursor after which the page starts, if any.
    pub fn after(&self) -> (cursor: Option<&PaginationCursor>)
        ensures
            match cursor {
                Some(c) => self@.after == Some(c@),
                None => self@.after is None,
            },
    {
        self.after.as_ref()
    }
}

/// The fields that a query returns, each once.
#[derive(Debug, PartialEq, Eq)]
pub struct Select {
    fields: Vec<Field>,
}

impl View for Select {
    type V = Seq<FieldView>;

    closed spec fn view(&self) -> Seq<FieldView> {
        self.fields@.map_values(|f: Field| f@)
    }
}

/// A selection with one more field, unless it holds the field already.
pub open spec fn with_field(fields: Seq<FieldView>, field: FieldView) -> Seq<FieldView> {
    if fields.contains(field) {
        fields
    } else {
        fields.push(field)
    }
}

impl Select {
    /// The selection of no field.
    pub fn new() -> (select: Select)
        ensures
            select@ == Seq::<FieldView>::empty(),
    {
        let select = Select { fields: Vec::new() };
        assert(select@ =~= Seq::<FieldView>::empty());
        select
    }

    /// Whether the field is selected.
    pub fn contains(&self, field: &Field) -> (r: bool)
        ensures
            r == self@.contains(field@),
    {
        let mut i: usize = 0;
        while i < self.fields.len()
            invariant
                i <= self.fields.len(),
                forall|j: int| 0 <= j < i ==> self@[j] != field@,
            decreases self.fields.len() - i,
        {
            if self.fields[i].same(field) {
                assert(self@[i as int] == field@);
                return true;
            }
            i += 1;
        }
        false
    }

    /// Selects the field, if it is not selected yet.
    pub fn add(&mut self, field: &Field)
        ensures
            final(self)@ == with_field(old(self)@, field@),
    {
        if !self.contains(field) {
            self.fields.push(field.clone());
            assert(self@ =~= old(self)@.push(field@));
        }
    }

    /// How many fields are selected.
    pub fn len(&self) -> (n: usize)
        ensures
            n == self@.len(),
    {
        self.fields.len()
    }

    /// The selected field at the given position.
    pub fn get(&self, k: usize) -> (field: Option<&Field>)
        ensures
            field is Some <==> k < self@.len(),
            field matches Some(f) ==> f@ == self@[k as int],
    {
        if k < self.fields.len() {
            Some(&self.fields[k])
        } else {
            None
        }
    }
}

/// What a request asks for: the one contract between the adapters that
/// read requests and whatever runs them.
#[derive(Debug, PartialEq, Eq)]
pub struct Query {
    pub pagination: Pagination,
    pub order: Order,
    pub filter: Filter,
    pub select: Select,
}

/// A query, as plain values.
pub struct QueryView {
    pub pagination: PaginationView,
    pub order: OrderView,
    pub filter: Seq<FilterSettingView>,
    pub select: Seq<FieldView>,
}

impl View for Query {
    type V = QueryView;

    open spec fn view(&self) -> QueryView {
        QueryView {
            pagination: self.pagination@,
            order: self.order@,
            filter: self.filter@,
            select: self.select@,
        }
    }
}

/// Why a request is no query. The fault is always the client's.
#[derive(Debug, PartialEq, Eq)]
pub enum QueryError {
    /// A malformed cursor, a value of the wrong type, an id that is none.
    InvalidArgument(String),
}

impl View for QueryError {
    type V = Seq<char>;

    /// The diagnostic message.
    open spec fn view(&self) -> Seq<char> {
        match self {
            QueryError::InvalidArgument(message) => message@,
        }
    }
}

impl QueryError {
    /// The diagnostic message of the error.
    pub fn message(&self) -> (text: &str)
        ensures
            text@ == self@,
    {
        match self {
            QueryError::InvalidArgument(m) => m.as_str(),
        }
    }
}

} // verus!
