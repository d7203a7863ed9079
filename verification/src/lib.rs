//! A verified knowledge store.
use vstd::prelude::*;

pub mod backup;
pub mod brief;
pub mod cells;
pub mod clock;
pub mod communities;
pub mod consolidation;
pub mod context;
pub mod daemon;
pub mod declarations;
pub mod digest;
pub mod documents;
pub mod error;
pub mod explain;
pub mod export;
pub mod extraction;
pub mod history;
pub mod http;
pub mod index_ops;
pub mod json;
pub mod knowledge;
pub mod laws;
pub mod ledger;
pub mod lifecycle;
pub mod llm;
pub mod meta;
pub mod migration;
pub mod ops;
pub mod parse;
pub mod parting;
pub mod payloads;
pub mod project;
pub mod prompts;
pub mod protocol;
pub mod quarantine;
pub mod query;
pub mod rebuild;
pub mod redaction;
pub mod registry;
pub mod reproject;
pub mod requests;
pub mod resources;
pub mod resting;
pub mod rows;
pub mod sampling;
pub mod schema;
pub mod security;
pub mod server;
pub mod session;
pub mod tables;
pub mod text;
pub mod time;
pub mod timeline;
pub mod tokenizer;
pub mod tools;
