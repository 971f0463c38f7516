//! Connector lets an authorized controller run commands, apply patches and
//! drive the desktop of machines that reach a gateway over outbound links.
//!
//! This crate holds the rules of both ends: patch parsing and planning,
//! desktop batches, image checks, credentials, OAuth decisions and pages.
pub mod apply_patch;
pub mod bytes;
pub mod client;
pub mod clock;
pub mod computer;
pub mod config;
pub mod crypto;
pub mod db;
pub mod execution;
pub mod failure;
pub mod gateway;
pub mod mcp;
pub mod screenshot;
pub mod table;
pub mod text;
