//! Core of a safekeeper: a durable acceptor of write-ahead-log ranges that
//! elects one writer per term, persists the log in segment files and serves
//! the committed prefix to replicas.

pub mod wire;
pub mod records;
pub mod control;
pub mod ingest;
pub mod tenant;
pub mod xlog;
pub mod command;
pub mod egress;
