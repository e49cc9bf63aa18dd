//! Client-side core of a line-delimited JSON-RPC editor protocol: a JSON
//! codec, message framing and classification, a pending-request table with
//! id allocation, the decision logic of the background reader loop, and the
//! operation dispatcher that turns inbound notifications into outbound ones.

pub mod json;
pub mod message;
pub mod transport;
pub mod client;
pub mod file_tree;
pub mod app_state;
pub mod word_count;
pub mod config;
