//! Incremental decoding of server-sent-event completion streams, with the
//! plain data types of the fine-tuning, moderation and assistant endpoints.
pub mod frame;
pub mod event;
pub mod json;
pub mod chunk;
pub mod pipeline;
pub mod stream;
pub mod client;
pub mod resources;
