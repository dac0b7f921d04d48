//! The logic of a command line client for LLM services that speak the OpenAI protocols:
//! arguments, conversations, requests, streamed replies, output, cache and the protocol
//! between server and client.
pub mod args;
pub mod bridge;
pub mod cache;
pub mod client;
pub mod constraints;
pub mod conversation;
pub mod ipc;
pub mod json;
pub mod output;
pub mod providers;
pub mod run;
pub mod server;
pub mod sink;
pub mod stats;
pub mod text;
pub mod tools;
