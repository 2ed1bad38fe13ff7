//! Identifiers of operations, documents, document views, schemas and authors.

use vstd::prelude::*;
use crate::hash::{check_hash_text, digest_of, digest_text, hash_error_message, is_hash_text};
use crate::hex_text::is_lower_hex;
use crate::text::{
    copy_texts, free_of, join_on, join_texts, lemma_split_join, same_texts, split_on, split_text,
    text_before, text_lt, texts,
};

verus! {

/// Why a text is no hash: the message of the check.
#[derive(Debug, PartialEq, Eq)]
pub struct HashError {
    pub message: String,
}

/// Why some texts are no view id.
#[derive(Debug, PartialEq, Eq)]
pub enum IdError {
    /// A part is no hash text; the message says why.
    InvalidHash(String),
    /// Two neighbouring operation ids of a view id are not in ascending order.
    Unsorted,
    /// A view id without any operation id.
    Empty,
}

/// The character between the operation ids of a view id in its text form.
pub const ID_SEPARATOR: char = '_';

/// The id of an operation: the hash of the entry that carries it.
#[derive(Debug, PartialEq, Eq, Hash)]
pub struct OperationId {
    text: String,
}

impl View for OperationId {
    type V = Seq<char>;

    closed spec fn view(&self) -> Seq<char> {
        self.text@
    }
}

impl Clone for OperationId {
    fn clone(&self) -> (r: Self)
        ensures
            r@ == self@,
    {
        proof {
            use_type_invariant(self);
        }
        OperationId { text: self.text.clone() }
    }
}

impl OperationId {
    #[verifier::type_invariant]
    closed spec fn well_formed(&self) -> bool {
        is_hash_text(self.text@)
    }

    /// Checks a text and wraps it.
    pub fn new(text: &str) -> (r: Result<OperationId, HashError>)
        ensures
            r is Ok <==> is_hash_text(text@),
            r matches Ok(id) ==> id@ == text@,
            r matches Err(e) ==> e.message@ == hash_error_message(text@),
    {
        match check_hash_text(text) {
            Ok(()) => Ok(OperationId { text: text.to_owned() }),
            Err(message) => Err(HashError { message }),
        }
    }

    /// The id that hashing the given bytes yields.
    pub fn from_bytes(bytes: &[u8]) -> (id: OperationId)
        ensures
            id@ == digest_text(bytes@),
            is_lower_hex(id@),
    {
        OperationId { text: digest_of(bytes) }
    }

    /// The id as text: always a hash text.
    pub fn as_str(&self) -> (text: &str)
        ensures
            text@ == self@,
            is_hash_text(text@),
    {
        proof {
            use_type_invariant(self);
        }
        self.text.as_str()
    }

    /// Whether two ids are the same.
    pub fn same(&self, other: &OperationId) -> (r: bool)
        ensures
            r == (self@ == other@),
    {
        self.text == other.text
    }
}

/// The id of a document: the id of the operation that created it.
#[derive(Debug, PartialEq, Eq, Hash)]
pub struct DocumentId {
    text: String,
}

impl View for DocumentId {
    type V = Seq<char>;

    closed spec fn view(&self) -> Seq<char> {
        self.text@
    }
}

impl Clone for DocumentId {
    fn clone(&self) -> (r: Self)
        ensures
            r@ == self@,
    {
        proof {
            use_type_invariant(self);
        }
        DocumentId { text: self.text.clone() }
    }
}

impl DocumentId {
    #[verifier::type_invariant]
    closed spec fn well_formed(&self) -> bool {
        is_hash_text(self.text@)
    }

    /// Checks a text and wraps it.
    pub fn new(text: &str) -> (r: Result<DocumentId, HashError>)
        ensures
            r is Ok <==> is_hash_text(text@),
            r matches Ok(id) ==> id@ == text@,
            r matches Err(e) ==> e.message@ == hash_error_message(text@),
    {
        match check_hash_text(text) {
            Ok(()) => Ok(DocumentId { text: text.to_owned() }),
            Err(message) => Err(HashError { message }),
        }
    }

    /// The id of the document that the given operation created.
    pub fn from_operation_id(id: &OperationId) -> (document_id: DocumentId)
        ensures
            document_id@ == id@,
    {
        DocumentId { text: id.as_str().to_owned() }
    }

    /// The id as text: always a hash text.
    pub fn as_str(&self) -> (text: &str)
        ensures
            text@ == self@,
            is_hash_text(text@),
    {
        proof {
            use_type_invariant(self);
        }
        self.text.as_str()
    }

    /// Whether two ids are the same.
    pub fn same(&self, other: &DocumentId) -> (r: bool)
        ensures
            r == (self@ == other@),
    {
        self.text == other.text
    }
}

/// The operation ids at position `k` and after it stand in ascending order.
pub open spec fn ascending_at(tips: Seq<Seq<char>>, k: int) -> bool {
    text_lt(tips[k], tips[k + 1])
}

/// What makes a sequence of texts a view id: at least one hash text, each
/// before the next in dictionary order.
pub open spec fn is_view_id(tips: Seq<Seq<char>>) -> bool {
    &&& tips.len() >= 1
    &&& forall|k: int| 0 <= k < tips.len() ==> is_hash_text(#[trigger] tips[k])
    &&& forall|k: int| 0 <= k < tips.len() - 1 ==> #[trigger] ascending_at(tips, k)
}

/// A hash text holds no separator.
pub proof fn lemma_hash_text_free_of_separator(text: Seq<char>)
    requires
        is_hash_text(text),
    ensures
        free_of(text, ID_SEPARATOR),
{
}

/// The text form of a view id splits back into its operation ids.
pub proof fn lemma_view_id_text_round_trip(tips: Seq<Seq<char>>)
    requires
        is_view_id(tips),
    ensures
        split_text(join_texts(tips, ID_SEPARATOR), ID_SEPARATOR) == tips,
{
    assert forall|k: int| 0 <= k < tips.len() implies free_of(#[trigger] tips[k], ID_SEPARATOR) by {
        lemma_hash_text_free_of_separator(tips[k]);
    }
    lemma_split_join(tips, ID_SEPARATOR);
}

/// The id of a document view: the operation ids at the tips of the
/// document's graph when the view was taken, in ascending order.
#[derive(Debug, PartialEq, Eq, Hash)]
pub struct DocumentViewId {
    tips: Vec<String>,
}

impl View for DocumentViewId {
    type V = Seq<Seq<char>>;

    closed spec fn view(&self) -> Seq<Seq<char>> {
        texts(self.tips@)
    }
}

impl Clone for DocumentViewId {
    fn clone(&self) -> (r: Self)
        ensures
            r@ == self@,
    {
        proof {
            use_type_invariant(self);
        }
        DocumentViewId { tips: copy_texts(&self.tips) }
    }
}

impl DocumentViewId {
    #[verifier::type_invariant]
    closed spec fn well_formed(&self) -> bool {
        is_view_id(texts(self.tips@))
    }

    /// Checks the parts of a view id: the first part that is no hash text
    /// is reported, and else the first pair out of order.
    pub(crate) fn checked(parts: Vec<String>) -> (r: Result<DocumentViewId, IdError>)
        requires
            parts.len() >= 1,
        ensures
            r is Ok <==> is_view_id(texts(parts@)),
            r matches Ok(id) ==> id@ == texts(parts@),
            r matches Err(IdError::InvalidHash(message)) ==> exists|k: int|
                0 <= k < parts.len() && !is_hash_text(#[trigger] texts(parts@)[k]) && message@
                    == hash_error_message(texts(parts@)[k]) && forall|j: int|
                    0 <= j < k ==> is_hash_text(#[trigger] texts(parts@)[j]),
            r matches Err(IdError::Unsorted) ==> forall|k: int|
                0 <= k < parts.len() ==> is_hash_text(#[trigger] texts(parts@)[k]),
            r matches Err(e) ==> !(e is Empty),
    {
        let ghost tips = texts(parts@);
        let mut i: usize = 0;
        while i < parts.len()
            invariant
                i <= parts.len(),
                tips == texts(parts@),
                forall|j: int| 0 <= j < i ==> is_hash_text(#[trigger] tips[j]),
            decreases parts.len() - i,
        {
            match check_hash_text(parts[i].as_str()) {
                Ok(()) => {},
                Err(message) => {
                    assert(!is_hash_text(tips[i as int]));
                    return Err(IdError::InvalidHash(message));
                },
            }
            i += 1;
        }
        let mut k: usize = 0;
        while k + 1 < parts.len()
            invariant
                k < parts.len(),
                tips == texts(parts@),
                forall|j: int| 0 <= j < parts.len() ==> is_hash_text(#[trigger] tips[j]),
                forall|j: int| 0 <= j < k ==> #[trigger] ascending_at(tips, j),
            decreases parts.len() - k,
        {
            if !text_before(parts[k].as_str(), parts[k + 1].as_str()) {
                assert(!ascending_at(tips, k as int));
                return Err(IdError::Unsorted);
            }
            k += 1;
        }
        Ok(DocumentViewId { tips: parts })
    }

    /// The view id with the given tips, which must stand in ascending order.
    pub fn from_operation_ids(ids: &Vec<OperationId>) -> (r: Result<DocumentViewId, IdError>)
        ensures
            r is Ok <==> is_view_id(ids@.map_values(|id: OperationId| id@)),
            r matches Ok(id) ==> id@ == ids@.map_values(|id: OperationId| id@),
            r matches Err(e) ==> (e is Empty <==> ids.len() == 0) && (e is Empty || e is Unsorted),
    {
        let ghost tips = ids@.map_values(|id: OperationId| id@);
        if ids.len() == 0 {
            return Err(IdError::Empty);
        }
        let mut parts: Vec<String> = Vec::new();
        let mut i: usize = 0;
        while i < ids.len()
            invariant
                i <= ids.len(),
                tips == ids@.map_values(|id: OperationId| id@),
                parts.len() == i,
                forall|j: int| 0 <= j < i ==> parts@[j]@ == ids@[j]@,
                forall|j: int| 0 <= j < i ==> is_hash_text(#[trigger] tips[j]),
            decreases ids.len() - i,
        {
            parts.push(ids[i].as_str().to_owned());
            i += 1;
        }
        assert(texts(parts@) =~= tips);
        match Self::checked(parts) {
            Ok(id) => Ok(id),
            Err(_) => Err(IdError::Unsorted),
        }
    }

    /// The view id of a document with a single operation at its tip.
    pub fn single(id: &OperationId) -> (view_id: DocumentViewId)
        ensures
            view_id@ == seq![id@],
    {
        let mut tips: Vec<String> = Vec::new();
        tips.push(id.as_str().to_owned());
        assert(texts(tips@) =~= seq![id@]);
        DocumentViewId { tips }
    }

    /// Reads the text form: operation ids with `_` between them.
    pub fn from_text(text: &str) -> (r: Result<DocumentViewId, IdError>)
        ensures
            r is Ok <==> is_view_id(split_text(text@, ID_SEPARATOR)),
            r matches Ok(id) ==> id@ == split_text(text@, ID_SEPARATOR),
            r matches Err(IdError::InvalidHash(message)) ==> exists|k: int|
                0 <= k < split_text(text@, ID_SEPARATOR).len() && !is_hash_text(
                    #[trigger] split_text(text@, ID_SEPARATOR)[k],
                ) && message@ == hash_error_message(split_text(text@, ID_SEPARATOR)[k])
                    && forall|j: int|
                    0 <= j < k ==> is_hash_text(#[trigger] split_text(text@, ID_SEPARATOR)[j]),
            r matches Err(IdError::Unsorted) ==> forall|k: int|
                0 <= k < split_text(text@, ID_SEPARATOR).len() ==> is_hash_text(
                    #[trigger] split_text(text@, ID_SEPARATOR)[k],
                ),
            r matches Err(e) ==> !(e is Empty),
    {
        let parts = split_on(text, ID_SEPARATOR);
        proof {
            crate::text::lemma_split_nonempty(text@, ID_SEPARATOR);
        }
        Self::checked(parts)
    }

    /// Writes the text form: operation ids with `_` between them.
    pub fn to_text(&self) -> (text: String)
        ensures
            text@ == join_texts(self@, ID_SEPARATOR),
            is_view_id(self@),
    {
        proof {
            use_type_invariant(self);
        }
        join_on(&self.tips, ID_SEPARATOR)
    }

    /// How many operation ids the view id holds: at least one.
    pub fn len(&self) -> (n: usize)
        ensures
            n == self@.len(),
            n >= 1,
    {
        proof {
            use_type_invariant(self);
        }
        self.tips.len()
    }

    /// The operation id at the given position.
    pub fn tip(&self, k: usize) -> (id: OperationId)
        requires
            k < self@.len(),
        ensures
            id@ == self@[k as int],
    {
        proof {
            use_type_invariant(self);
            assert(is_hash_text(texts(self.tips@)[k as int]));
        }
        OperationId { text: self.tips[k].clone() }
    }

    /// Whether two view ids hold the same operation ids.
    pub fn same(&self, other: &DocumentViewId) -> (r: bool)
        ensures
            r == (self@ == other@),
    {
        same_texts(&self.tips, &other.tips)
    }
}

/// The id of a schema, as the text that names it.
#[derive(Debug, PartialEq, Eq, Hash)]
pub struct SchemaId {
    text: String,
}

impl View for SchemaId {
    type V = Seq<char>;

    closed spec fn view(&self) -> Seq<char> {
        self.text@
    }
}

impl Clone for SchemaId {
    fn clone(&self) -> (r: Self)
        ensures
            r@ == self@,
    {
        SchemaId { text: self.text.clone() }
    }
}

impl SchemaId {
    /// Wraps the text of a schema id.
    pub fn new(text: &str) -> (id: SchemaId)
        ensures
            id@ == text@,
    {
        SchemaId { text: text.to_owned() }
    }

    /// The id as text.
    pub fn as_str(&self) -> (text: &str)
        ensures
            text@ == self@,
    {
        self.text.as_str()
    }

    /// Whether two ids are the same.
    pub fn same(&self, other: &SchemaId) -> (r: bool)
        ensures
            r == (self@ == other@),
    {
        self.text == other.text
    }
}

/// The public key of an author, as hexadecimal text.
#[derive(Debug, PartialEq, Eq, Hash)]
pub struct PublicKey {
    text: String,
}

impl View for PublicKey {
    type V = Seq<char>;

    closed spec fn view(&self) -> Seq<char> {
        self.text@
    }
}

impl Clone for PublicKey {
    fn clone(&self) -> (r: Self)
        ensures
            r@ == self@,
    {
        PublicKey { text: self.text.clone() }
    }
}

impl PublicKey {
    /// Wraps the text of a public key.
    pub fn new(text: &str) -> (key: PublicKey)
        ensures
            key@ == text@,
    {
        PublicKey { text: text.to_owned() }
    }

    /// The key as text.
    pub fn as_str(&self) -> (text: &str)
        ensures
            text@ == self@,
    {
        self.text.as_str()
    }

    /// Whether two keys are the same.
    pub fn same(&self, other: &PublicKey) -> (r: bool)
        ensures
            r == (self@ == other@),
    {
        self.text == other.text
    }
}

} // verus!
