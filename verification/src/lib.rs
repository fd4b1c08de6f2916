//! The logic of a client for the hermesmq message queue.

pub mod backoff;
pub mod call;
pub mod client;
pub mod cluster;
pub mod error;
pub mod exchange;
pub mod frame;
pub mod pipeline;
pub mod replies;
pub mod subscription;
pub mod text;
pub mod wire;
