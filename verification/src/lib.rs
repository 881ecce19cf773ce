//! Verified core of `recap`: a command-run recorder whose history lives in a
//! JSON-lines index with one log file per run, and which answers queries
//! about that history on the command line and over MCP (JSON-RPC).

pub mod text;
pub mod storage;
pub mod run;
pub mod mcp;
pub mod cli;
