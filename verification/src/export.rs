//! Serialization of an environment into the binary proof format.

pub mod bytes;
pub mod cmd;
pub mod reorder;
pub mod unify;
pub mod proof_stream;
pub mod body;
pub mod stmt;
pub mod container;
pub mod exporter;
pub mod layout;
pub mod reader;
pub mod unify_reader;
