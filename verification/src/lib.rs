//! SprayCC: the verified core of a distributed build wrapper.

pub mod client;
pub mod clock;
pub mod config;
pub mod exec;
pub mod history;
pub mod ipc;
pub mod queue;
pub mod server;
pub mod server_laws;
pub mod server_model;
pub mod task;
pub mod text;
