//! The document repository: what a node does with a request to publish an
//! entry and its operation, before and after the publishing itself.

use vstd::prelude::*;
use crate::hash::digest_text;
use crate::hex_text::{decode_hex, hex_decode, hex_error_message, is_hex_text};
use crate::ids::OperationId;

verus! {

/// A request to publish: an entry and its operation, both as hexadecimal
/// text.
#[derive(Debug, PartialEq, Eq)]
pub struct PublishRequest {
    pub entry: String,
    pub operation: String,
}

/// A request to publish, with the bytes that its texts spell and the id of
/// the operation, which is the hash of the entry.
#[derive(Debug, PartialEq, Eq)]
pub struct DecodedRequest {
    pub entry_bytes: Vec<u8>,
    pub operation_bytes: Vec<u8>,
    pub operation_id: OperationId,
}

/// Where the next entry of the log goes, once this one is published.
#[derive(Debug, PartialEq, Eq)]
pub struct Published {
    pub backlink: Option<String>,
    pub skiplink: Option<String>,
    pub seq_num: u64,
    pub log_id: u64,
}

/// The answer to a request to publish. A link that is missing is the empty
/// text.
#[derive(Debug, PartialEq, Eq)]
pub struct NextArgs {
    pub log_id: u64,
    pub seq_num: u64,
    pub backlink: String,
    pub skiplink: String,
}

/// Why a request failed: the message says.
#[derive(Debug, PartialEq, Eq)]
pub struct RpcError {
    pub message: String,
}

/// What the services of a node tell each other.
#[derive(Debug, PartialEq, Eq)]
pub enum ServiceMessage {
    /// An operation with this id has been published.
    NewOperation(OperationId),
}

/// The ids of the operations that a vector of messages announces.
pub open spec fn announced(messages: Seq<ServiceMessage>) -> Seq<Seq<char>> {
    messages.map_values(
        |m: ServiceMessage|
            match m {
                ServiceMessage::NewOperation(id) => id@,
            },
    )
}

/// The text of a link: the link, or the empty text where there is none.
pub open spec fn link_text(link: Option<String>) -> Seq<char> {
    match link {
        Some(text) => text@,
        None => Seq::empty(),
    }
}

/// The message of the failure of a request whose schema is not known.
pub open spec fn schema_missing_message() -> Seq<char> {
    "Schema not found"@
}

/// Takes requests to publish, and keeps the messages that announce what
/// was published until they are sent to the other services. That nobody
/// listens when they are sent is no error.
#[derive(Debug, PartialEq, Eq)]
pub struct DocumentRepository {
    outbox: Vec<ServiceMessage>,
}

impl View for DocumentRepository {
    type V = Seq<Seq<char>>;

    /// The ids of the operations that are yet to be announced.
    closed spec fn view(&self) -> Seq<Seq<char>> {
        announced(self.outbox@)
    }
}

impl DocumentRepository {
    /// A repository with nothing to announce.
    pub fn new() -> (repository: DocumentRepository)
        ensures
            repository@ == Seq::<Seq<char>>::empty(),
    {
        let repository = DocumentRepository { outbox: Vec::new() };
        assert(repository@ =~= Seq::<Seq<char>>::empty());
        repository
    }

    /// Reads a request: the bytes of the entry and of the operation, and
    /// the id of the operation. Fails where the entry, or else the
    /// operation, is no hexadecimal text, with the message of the decoder.
    pub fn decode(request: &PublishRequest) -> (r: Result<DecodedRequest, RpcError>)
        ensures
            r is Ok <==> is_hex_text(request.entry@) && is_hex_text(request.operation@),
            r matches Ok(decoded) ==> decoded.entry_bytes@ == hex_decode(request.entry@)
                && decoded.operation_bytes@ == hex_decode(request.operation@)
                && decoded.operation_id@ == digest_text(hex_decode(request.entry@)),
            r matches Err(e) ==> e.message@ == if !is_hex_text(request.entry@) {
                hex_error_message(request.entry@)
            } else {
                hex_error_message(request.operation@)
            },
    {
        let entry_bytes = match decode_hex(request.entry.as_str()) {
            Ok(bytes) => bytes,
            Err(message) => {
                return Err(RpcError { message });
            },
        };
        let operation_bytes = match decode_hex(request.operation.as_str()) {
            Ok(bytes) => bytes,
            Err(message) => {
                return Err(RpcError { message });
            },
        };
        let operation_id = OperationId::from_bytes(entry_bytes.as_slice());
        Ok(DecodedRequest { entry_bytes, operation_bytes, operation_id })
    }

    /// Whether a request can go on once the schema of its operation was
    /// looked up: it can where the schema was found, and fails where it was
    /// not.
    pub fn schema_checked(found: bool) -> (r: Result<(), RpcError>)
        ensures
            r is Ok <==> found,
            r matches Err(e) ==> e.message@ == schema_missing_message(),
    {
        if found {
            Ok(())
        } else {
            Err(RpcError { message: "Schema not found".to_owned() })
        }
    }

    /// Ends a request to publish. Where the entry was published, the
    /// operation is put down to be announced, and the answer says where
    /// the next entry goes. Where it was not, the request fails with the
    /// message of the failure, and nothing is announced.
    pub fn publish(&mut self, decoded: &DecodedRequest, outcome: Result<Published, String>) -> (r:
        Result<NextArgs, RpcError>)
        ensures
            match outcome {
                Ok(published) => r matches Ok(next) && next.log_id == published.log_id
                    && next.seq_num == published.seq_num && next.backlink@ == link_text(
                    published.backlink,
                ) && next.skiplink@ == link_text(published.skiplink) && final(self)@ == old(
                    self,
                )@.push(decoded.operation_id@),
                Err(message) => r matches Err(e) && e.message@ == message@ && final(self)@ == old(
                    self,
                )@,
            },
    {
        match outcome {
            Ok(published) => {
                self.outbox.push(ServiceMessage::NewOperation(decoded.operation_id.clone()));
                assert(self@ =~= old(self)@.push(decoded.operation_id@));
                Ok(
                    NextArgs {
                        log_id: published.log_id,
                        seq_num: published.seq_num,
                        backlink: match published.backlink {
                            Some(hash) => hash,
                            None => String::new(),
                        },
                        skiplink: match published.skiplink {
                            Some(hash) => hash,
                            None => String::new(),
                        },
                    },
                )
            },
            Err(message) => Err(RpcError { message }),
        }
    }

    /// Hands out the messages that are to be sent, in the order in which
    /// the operations were published, and keeps none.
    pub fn take_messages(&mut self) -> (messages: Vec<ServiceMessage>)
        ensures
            announced(messages@) == old(self)@,
            final(self)@ == Seq::<Seq<char>>::empty(),
    {
        let mut messages: Vec<ServiceMessage> = Vec::new();
        messages.append(&mut self.outbox);
        assert(announced(messages@) =~= old(self)@);
        assert(self@ =~= Seq::<Seq<char>>::empty());
        messages
    }
}

} // verus!
