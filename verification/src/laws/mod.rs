//! What the operations of the store are for, said of the rows and fields that they
//! read, return and change.
pub mod access;
pub mod brief;
pub mod consolidation;
pub mod documents;
pub mod indexes;
pub mod knowledge;
pub mod ledger;
pub mod projection;
pub mod query;
pub mod recall;
pub mod reading;
pub mod redaction;
pub mod prompts;
pub mod replay;
pub mod requests;
pub mod search;
pub mod timeline;
pub mod wire;
