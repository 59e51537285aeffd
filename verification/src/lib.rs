//! The core of a meeting recorder: a private search index over meeting files, the reading of a
//! microphone, the watching of a graph snapshot's inputs, and small diagnostics.
//!
//! What the operating system, a session or a shell has to be asked for comes in as plain values;
//! what is decided from it stands here.

pub mod text;
pub mod paths;
pub mod path_laws;
pub mod errors;

pub mod projection;
pub mod queries;
pub mod sanitize;
pub mod meeting;
pub mod text_laws;
pub mod meeting_laws;
pub mod corpus;
pub mod search_index;
pub mod sync;
pub mod sync_laws;
pub mod index_laws;
pub mod direct;
pub mod corpus_laws;
pub mod restricted;
pub mod search_laws;
pub mod query_laws;
pub mod live_laws;

pub mod lineage;
pub mod lineage_laws;
pub mod chunk_writer;
pub mod signal;
pub mod observations;
pub mod selection;
pub mod worker;
pub mod microphone_laws;

pub mod journal;
pub mod descriptors;
pub mod journal_laws;
pub mod timing;
pub mod install;
pub mod install_laws;
