//! Verified core of the greeter service: configuration parsing, the in-memory
//! greetings store with its id generator, the request logic of the gRPC
//! greeter, and the bookkeeping of per-request gRPC metrics.
//!
//! Networking, locking, logging and metric emission live in the `app/` crate.

pub mod config;
pub mod db;
pub mod grpc;
pub mod http;
