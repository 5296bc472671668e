//! Batch forwarder core for installation audit logs.
//!
//! The library holds the verified logic of the pipeline: decoding the
//! compact record-id timestamps, resolving coded references through lookup
//! tables, classifying error events, serializing records to JSON, building
//! the delivery failure report, and parsing the source configuration lines.
//! File, database and network access stay outside, in the surrounding
//! application, which hands plain values in and out.

pub mod catalog;
pub mod codec;
pub mod delivery;
pub mod options;
pub mod records;
pub mod resolver;
pub mod text;
