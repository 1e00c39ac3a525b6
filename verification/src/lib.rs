//! Decisions of a per-process transparent proxy.
pub mod text;
pub mod base64;
pub mod address;
pub mod model;
pub mod rules;
pub mod handshake;
pub mod traffic;
pub mod owner;
pub mod engine;
pub mod event;
pub mod packet;
pub mod connections;
pub mod relay;
pub mod database;
pub mod store;
pub mod commands;
pub mod probe;
