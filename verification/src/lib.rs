//! A Raft consensus core and a RESP key-value store.
pub mod frame;
pub mod parse;
pub mod db;
pub mod command;
pub mod client;
pub mod tracker;
pub mod rpc;
pub mod node;
pub mod raft;
pub mod parser;
