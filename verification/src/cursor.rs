//! Cursors: the position token of a single field row, and the token that a
//! page of query results is resumed from.

use vstd::prelude::*;
use vstd::utf8::encode_utf8;
use crate::decimal::{decimal_text, is_digit, lemma_decimal_round_trip, u64_to_text};
use crate::hash::{digest_of, digest_text, hash_error_message, is_hash_text, HASH_TEXT_LEN};
use crate::hex_text::{decode_hex, is_hex_text, is_lower_hex};
use crate::ids::{is_view_id, DocumentViewId, HashError, OperationId, ID_SEPARATOR};
use crate::text::{
    free_of, join_texts, lemma_join_concat, lemma_split_join, lemma_split_nonempty, push_char,
    split_on, split_text, texts,
};

verus! {

/// Number of characters of an operation cursor.
pub const CURSOR_TEXT_LEN: usize = 64;

/// The text that is hashed for a cursor: the list position in decimal, the
/// field name and the operation id, one after the other.
pub open spec fn cursor_preimage(list_index: nat, field_name: Seq<char>, operation_id: Seq<char>) -> Seq<
    char,
> {
    decimal_text(list_index) + field_name + operation_id
}

/// The cursor of a field row: the digest of its preimage without the four
/// characters that name the hash algorithm.
pub open spec fn cursor_text(list_index: nat, field_name: Seq<char>, operation_id: Seq<char>) -> Seq<
    char,
> {
    digest_text(encode_utf8(cursor_preimage(list_index, field_name, operation_id))).skip(4)
}

/// Sixty-four hexadecimal digits.
pub open spec fn is_cursor_text(text: Seq<char>) -> bool {
    is_hex_text(text) && text.len() == CURSOR_TEXT_LEN
}

/// A row of the table of document view fields: which value of which field
/// of which operation a view shows.
#[derive(Debug, PartialEq, Eq)]
pub struct DocumentViewFieldRow {
    pub document_id: String,
    pub document_view_id: String,
    pub operation_id: String,
    pub name: String,
    pub list_index: usize,
    pub field_type: String,
    pub value: Option<String>,
}

/// A position token for one field row of one operation.
#[derive(Debug, PartialEq, Eq)]
pub struct OperationCursor {
    text: String,
}

impl View for OperationCursor {
    type V = Seq<char>;

    closed spec fn view(&self) -> Seq<char> {
        self.text@
    }
}

impl Clone for OperationCursor {
    fn clone(&self) -> (r: Self)
        ensures
            r@ == self@,
    {
        proof {
            use_type_invariant(self);
        }
        OperationCursor { text: self.text.clone() }
    }
}

impl OperationCursor {
    #[verifier::type_invariant]
    closed spec fn well_formed(&self) -> bool {
        is_cursor_text(self.text@)
    }

    /// The cursor of the field row at `list_index` of the field
    /// `field_name` of the operation `operation_id`.
    pub fn new(list_index: usize, field_name: &str, operation_id: &OperationId) -> (cursor: Self)
        ensures
            cursor@ == cursor_text(list_index as nat, field_name@, operation_id@),
            is_cursor_text(cursor@),
            is_lower_hex(cursor@),
    {
        let mut message = u64_to_text(list_index as u64);
        message.append(field_name);
        message.append(operation_id.as_str());
        let digest = digest_of(message.as_str().as_bytes());
        let tail = digest.as_str().substring_char(4, HASH_TEXT_LEN);
        assert(digest@.subrange(4, HASH_TEXT_LEN as int) =~= digest@.skip(4));
        OperationCursor { text: tail.to_owned() }
    }

    /// The cursor of a field row of a document view, from the position,
    /// the name and the operation id that the row holds. Fails where the
    /// operation id of the row is no hash text.
    pub fn from_row(row: &DocumentViewFieldRow) -> (r: Result<OperationCursor, HashError>)
        ensures
            r is Ok <==> is_hash_text(row.operation_id@),
            r matches Ok(cursor) ==> cursor@ == cursor_text(
                row.list_index as nat,
                row.name@,
                row.operation_id@,
            ),
            r matches Err(e) ==> e.message@ == hash_error_message(row.operation_id@),
    {
        match OperationId::new(row.operation_id.as_str()) {
            Ok(operation_id) => Ok(
                OperationCursor::new(row.list_index, row.name.as_str(), &operation_id),
            ),
            Err(e) => Err(e),
        }
    }

    /// Wraps a text that is a cursor.
    pub fn from_text(text: &str) -> (r: Option<OperationCursor>)
        ensures
            r is Some <==> is_cursor_text(text@),
            r matches Some(cursor) ==> cursor@ == text@,
    {
        match decode_hex(text) {
            Ok(bytes) => {
                if bytes.len() == 32 {
                    Some(OperationCursor { text: text.to_owned() })
                } else {
                    None
                }
            },
            Err(_) => None,
        }
    }

    /// The cursor as text: sixty-four hexadecimal digits.
    pub fn as_str(&self) -> (text: &str)
        ensures
            text@ == self@,
            is_cursor_text(text@),
    {
        proof {
            use_type_invariant(self);
        }
        self.text.as_str()
    }

    /// The cursor as an owned string.
    pub fn to_text(&self) -> (text: String)
        ensures
            text@ == self@,
            text@.len() == CURSOR_TEXT_LEN,
    {
        proof {
            use_type_invariant(self);
        }
        self.text.clone()
    }

    /// Whether two cursors are the same.
    pub fn same(&self, other: &OperationCursor) -> (r: bool)
        ensures
            r == (self@ == other@),
    {
        self.text == other.text
    }
}

/// Two cursors made from the same position, name and operation are the same.
pub proof fn law_cursor_deterministic(
    a: OperationCursor,
    b: OperationCursor,
    list_index: nat,
    field_name: Seq<char>,
    operation_id: Seq<char>,
)
    requires
        a@ == cursor_text(list_index, field_name, operation_id),
        b@ == cursor_text(list_index, field_name, operation_id),
    ensures
        a@ == b@,
{
}

/// Where field names do not start with a digit, two different triples of
/// position, name and operation id are hashed from different bytes.
pub proof fn law_cursor_preimage_injective(
    index_a: nat,
    name_a: Seq<char>,
    id_a: Seq<char>,
    index_b: nat,
    name_b: Seq<char>,
    id_b: Seq<char>,
)
    requires
        is_hash_text(id_a),
        is_hash_text(id_b),
        name_a.len() == 0 || !is_digit(name_a[0]),
        name_b.len() == 0 || !is_digit(name_b[0]),
        encode_utf8(cursor_preimage(index_a, name_a, id_a)) == encode_utf8(
            cursor_preimage(index_b, name_b, id_b),
        ),
    ensures
        index_a == index_b,
        name_a == name_b,
        id_a == id_b,
{
    let pa = cursor_preimage(index_a, name_a, id_a);
    let pb = cursor_preimage(index_b, name_b, id_b);
    vstd::utf8::encode_utf8_decode_utf8(pa);
    vstd::utf8::encode_utf8_decode_utf8(pb);
    assert(pa == pb);
    let da = decimal_text(index_a);
    let db = decimal_text(index_b);
    lemma_decimal_round_trip(index_a);
    lemma_decimal_round_trip(index_b);
    let ha = da + name_a;
    let hb = db + name_b;
    assert(pa.len() == ha.len() + 68);
    assert(pb.len() == hb.len() + 68);
    assert(ha =~= pa.take(ha.len() as int));
    assert(hb =~= pb.take(hb.len() as int));
    assert(id_a =~= pa.skip(ha.len() as int));
    assert(id_b =~= pb.skip(hb.len() as int));
    assert(ha == hb);
    if da.len() < db.len() {
        assert(ha[da.len() as int] == name_a[0]);
        assert(hb[da.len() as int] == db[da.len() as int]);
        assert(is_digit(db[da.len() as int]));
        assert(false);
    }
    if db.len() < da.len() {
        assert(hb[db.len() as int] == name_b[0]);
        assert(ha[db.len() as int] == da[db.len() as int]);
        assert(is_digit(da[db.len() as int]));
        assert(false);
    }
    assert(da =~= ha.take(da.len() as int));
    assert(db =~= hb.take(db.len() as int));
    assert(name_a =~= ha.skip(da.len() as int));
    assert(name_b =~= hb.skip(db.len() as int));
}

/// Why a token is no pagination cursor.
#[derive(Debug, Clone, Copy, PartialEq, Eq, Structural)]
pub enum CursorError {
    /// The token has two parts: neither one nor three or more.
    PartCount,
    /// The first part is no operation cursor.
    OperationCursor,
    /// The second part is no operation cursor.
    RootOperationCursor,
    /// The parts after the second are no document view id.
    RootViewId,
}

impl CursorError {
    /// The diagnostic message of the error.
    pub fn message(&self) -> (text: String)
        ensures
            text@ == match *self {
                CursorError::PartCount => "Invalid amount of cursor parts"@,
                CursorError::OperationCursor => "Invalid operation cursor"@,
                CursorError::RootOperationCursor => "Invalid root operation cursor"@,
                CursorError::RootViewId => "Invalid root document view id"@,
            },
    {
        match self {
            CursorError::PartCount => "Invalid amount of cursor parts".to_owned(),
            CursorError::OperationCursor => "Invalid operation cursor".to_owned(),
            CursorError::RootOperationCursor => "Invalid root operation cursor".to_owned(),
            CursorError::RootViewId => "Invalid root document view id".to_owned(),
        }
    }
}

/// Where a row hangs in the document that a query started from: needed when
/// one document occurs several times in a list of relations.
#[derive(Debug, PartialEq, Eq)]
pub struct RootCursor {
    /// The cursor of the row in the root document.
    pub operation_cursor: OperationCursor,
    /// The view of the root document.
    pub view_id: DocumentViewId,
}

/// The token that the next page of a query is resumed from.
#[derive(Debug, PartialEq, Eq)]
pub struct PaginationCursor {
    /// The position of the current row.
    pub operation_cursor: OperationCursor,
    /// The position in the root document, for rows reached over a relation.
    pub root: Option<RootCursor>,
}

/// What a pagination cursor holds, as plain texts.
pub struct PaginationCursorView {
    pub operation_cursor: Seq<char>,
    pub root: Option<(Seq<char>, Seq<Seq<char>>)>,
}

impl View for PaginationCursor {
    type V = PaginationCursorView;

    open spec fn view(&self) -> PaginationCursorView {
        PaginationCursorView {
            operation_cursor: self.operation_cursor@,
            root: match self.root {
                Some(root) => Some((root.operation_cursor@, root.view_id@)),
                None => None,
            },
        }
    }
}

/// The texts that make up the token of a cursor, in order.
pub open spec fn cursor_parts(cursor: PaginationCursorView) -> Seq<Seq<char>> {
    match cursor.root {
        Some((root_cursor, tips)) => seq![cursor.operation_cursor, root_cursor] + tips,
        None => seq![cursor.operation_cursor],
    }
}

/// The token of a cursor: its parts with `_` between them.
pub open spec fn token_text(cursor: PaginationCursorView) -> Seq<char> {
    join_texts(cursor_parts(cursor), ID_SEPARATOR)
}

/// The cursor holds cursor texts and, if any, a view id.
pub open spec fn is_pagination_cursor(cursor: PaginationCursorView) -> bool {
    &&& is_cursor_text(cursor.operation_cursor)
    &&& cursor.root matches Some((root_cursor, tips)) ==> is_cursor_text(root_cursor)
        && is_view_id(tips)
}

/// The token is one operation cursor, or two followed by a view id.
pub open spec fn is_cursor_token(token: Seq<char>) -> bool {
    let parts = split_text(token, ID_SEPARATOR);
    &&& parts.len() != 2
    &&& is_cursor_text(parts[0])
    &&& parts.len() >= 3 ==> is_cursor_text(parts[1]) && is_view_id(parts.skip(2))
}

/// What is wrong with a token that is no cursor token: the first of the
/// checks, in the order of the variants, that it fails.
pub open spec fn token_error(token: Seq<char>) -> CursorError {
    let parts = split_text(token, ID_SEPARATOR);
    if parts.len() == 2 {
        CursorError::PartCount
    } else if !is_cursor_text(parts[0]) {
        CursorError::OperationCursor
    } else if !is_cursor_text(parts[1]) {
        CursorError::RootOperationCursor
    } else {
        CursorError::RootViewId
    }
}

/// The cursor that a cursor token stands for.
pub open spec fn decoded_token(token: Seq<char>) -> PaginationCursorView {
    let parts = split_text(token, ID_SEPARATOR);
    PaginationCursorView {
        operation_cursor: parts[0],
        root: if parts.len() >= 3 {
            Some((parts[1], parts.skip(2)))
        } else {
            None
        },
    }
}

/// Decoding the token of a cursor gives the cursor back.
pub proof fn law_pagination_cursor_round_trip(cursor: PaginationCursorView)
    requires
        is_pagination_cursor(cursor),
    ensures
        is_cursor_token(token_text(cursor)),
        decoded_token(token_text(cursor)) == cursor,
{
    let parts = cursor_parts(cursor);
    assert forall|k: int| 0 <= k < parts.len() implies free_of(#[trigger] parts[k], ID_SEPARATOR) by {
        match cursor.root {
            Some((root_cursor, tips)) => {
                if k >= 2 {
                    assert(parts[k] == tips[k - 2]);
                    assert(is_hash_text(tips[k - 2]));
                }
            },
            None => {},
        }
    }
    lemma_split_join(parts, ID_SEPARATOR);
    match cursor.root {
        Some((root_cursor, tips)) => {
            assert(parts.skip(2) =~= tips);
        },
        None => {},
    }
}

impl PaginationCursor {
    /// The cursor of a row of a document that was queried directly.
    pub fn new(operation_cursor: OperationCursor) -> (cursor: PaginationCursor)
        ensures
            cursor@.operation_cursor == operation_cursor@,
            cursor@.root is None,
    {
        PaginationCursor { operation_cursor, root: None }
    }

    /// The cursor of a row of a document that was reached over a relation
    /// of a root document.
    pub fn with_root(
        operation_cursor: OperationCursor,
        root_operation_cursor: OperationCursor,
        root_view_id: DocumentViewId,
    ) -> (cursor: PaginationCursor)
        ensures
            cursor@.operation_cursor == operation_cursor@,
            cursor@.root == Some((root_operation_cursor@, root_view_id@)),
    {
        PaginationCursor {
            operation_cursor,
            root: Some(RootCursor { operation_cursor: root_operation_cursor, view_id: root_view_id }),
        }
    }

    /// Writes the cursor as a token.
    pub fn encode(&self) -> (token: String)
        ensures
            token@ == token_text(self@),
            is_pagination_cursor(self@),
            is_cursor_token(token@),
    {
        let mut token = self.operation_cursor.as_str().to_owned();
        let ghost first = self.operation_cursor@;
        match &self.root {
            Some(root) => {
                let root_text = root.operation_cursor.as_str();
                let view_text = root.view_id.to_text();
                push_char(&mut token, ID_SEPARATOR);
                token.append(root_text);
                push_char(&mut token, ID_SEPARATOR);
                token.append(view_text.as_str());
                proof {
                    let head = seq![first, root_text@];
                    let tips = root.view_id@;
                    assert(head.drop_last() =~= seq![first]);
                    assert(seq![first].len() == 1 && seq![first][0] == first);
                    assert(join_texts(seq![first], ID_SEPARATOR) == first);
                    assert(head.last() == root_text@);
                    assert(join_texts(head, ID_SEPARATOR) == first + seq![ID_SEPARATOR]
                        + root_text@);
                    lemma_join_concat(head, tips, ID_SEPARATOR);
                    assert(token@ =~= join_texts(head + tips, ID_SEPARATOR));
                }
            },
            None => {},
        }
        proof {
            law_pagination_cursor_round_trip(self@);
        }
        token
    }

    /// Reads a token. Fails on a token of two parts, on a part that is no
    /// cursor, and on a view id that is malformed.
    pub fn decode(token: &str) -> (r: Result<PaginationCursor, CursorError>)
        ensures
            r is Ok <==> is_cursor_token(token@),
            r matches Ok(cursor) ==> cursor@ == decoded_token(token@),
            r matches Err(e) ==> e == token_error(token@),
    {
        let parts = split_on(token, ID_SEPARATOR);
        let ghost all = split_text(token@, ID_SEPARATOR);
        proof {
            lemma_split_nonempty(token@, ID_SEPARATOR);
            assert(all[0] == parts@[0]@);
        }
        if parts.len() == 2 {
            return Err(CursorError::PartCount);
        }
        let operation_cursor = match OperationCursor::from_text(parts[0].as_str()) {
            Some(cursor) => cursor,
            None => {
                return Err(CursorError::OperationCursor);
            },
        };
        if parts.len() == 1 {
            return Ok(PaginationCursor { operation_cursor, root: None });
        }
        assert(all[1] == parts@[1]@);
        let root_operation_cursor = match OperationCursor::from_text(parts[1].as_str()) {
            Some(cursor) => cursor,
            None => {
                return Err(CursorError::RootOperationCursor);
            },
        };
        let mut rest: Vec<String> = Vec::new();
        let mut i: usize = 2;
        while i < parts.len()
            invariant
                2 <= i <= parts.len(),
                rest.len() == i - 2,
                forall|j: int| 0 <= j < i - 2 ==> rest@[j]@ == parts@[j + 2]@,
            decreases parts.len() - i,
        {
            rest.push(parts[i].clone());
            i += 1;
        }
        assert(texts(rest@) =~= all.skip(2));
        match DocumentViewId::checked(rest) {
            Ok(view_id) => Ok(
                PaginationCursor {
                    operation_cursor,
                    root: Some(RootCursor { operation_cursor: root_operation_cursor, view_id }),
                },
            ),
            Err(_) => Err(CursorError::RootViewId),
        }
    }
}

} // verus!
