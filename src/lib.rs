//! Core of a personal semantic desktop search engine: the catalog that ties
//! document paths to vector ids, the chunking and persistence rules of the
//! indexer, the crawler's decisions, the retriever's candidate selection and
//! the reply format of the query socket.

pub mod catalog;
pub mod crawler;
pub mod error;
pub mod indexer;
pub mod parsers;
pub mod record;
pub mod reply;
pub mod retriever;
pub mod settings;
pub mod text;
