//! The decisions of a service for language models: how conversations are cached and taken up
//! again, how rounds of requests are put together and spread over devices, how models are
//! read and laid out in memory, and how chats are shown and answered.
pub mod chat;
pub mod engine;
pub mod exec;
pub mod group;
pub mod kv_cache;
pub mod model;
pub mod mono;
pub mod output_head;
pub mod service;
pub mod service_;
pub mod session;
pub mod tensor;
pub mod text;
