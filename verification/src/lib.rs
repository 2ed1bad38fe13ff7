//! Operation store, cursor codec, query model and document materializer of a
//! node that keeps an append-only log of operations on structured documents.

pub mod assemble;
pub mod cursor;
pub mod decimal;
pub mod document_repository;
pub mod guards;
pub mod hash;
pub mod hex_text;
pub mod ids;
pub mod join;
pub mod laws;
pub mod materializer;
pub mod operation;
pub mod query;
pub mod request;
pub mod round_trip;
pub mod rows;
pub mod scan;
pub mod store;
pub mod text;
