//! An in-memory key/value store with expiring entries, channels to publish
//! on and subscribe to, and jobs that run on a schedule, served over a wire
//! protocol of framed messages.
//!
//! This crate holds what the server decides and computes. It does no input
//! or output and reads no clock: bytes, instants and the outcome of each wait
//! are handed in by the program around it.
pub mod commands;
pub mod connection;
pub mod database;
pub mod error;
pub mod frame;
pub mod handler;
pub mod jobs;
pub mod number;
pub mod parse;
pub mod text;
pub mod wire;
