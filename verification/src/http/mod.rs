//! Answers of the HTTP endpoints that need no service state.

pub mod health;
