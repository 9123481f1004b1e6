//! An indexed quad storage engine.
//!
//! RDF quads `(subject, predicate, object, graph_name)` are encoded to
//! self-delimiting byte strings and mirrored across redundant sort orders so
//! that any pattern of bound positions can be answered by one ordered prefix
//! scan of a sled keyspace.  String payloads wider than a small inline budget
//! live once in a content-addressed interner keyspace.

pub mod small_string;

pub mod numeric_encoder;

pub mod binary_encoder;

pub mod error;

pub mod backend;

pub mod storage;

pub mod transaction;

pub mod update;
