//! Verified core of a graph-based agent execution framework: graph
//! construction and topology validation, trigger tables, checkpoint
//! namespaces, interrupt bookkeeping, error classification, model provider
//! requests and replies, and the decisions of streaming runs.
pub mod text;
pub mod json;
pub mod error;
pub mod edge;
pub mod graph;
pub mod checkpoint;
pub mod interrupt;
pub mod command;
pub mod chat;
pub mod func;
pub mod client;
pub mod llm;
pub mod node;
pub mod response;
pub mod stream;
pub mod request;
pub mod cache;
pub mod hashing;
pub mod config;
