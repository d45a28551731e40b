//! Xenon: a W3C WebDriver reverse-proxy and session multiplexer.
//!
//! This crate holds the verified session-lifecycle engine: capability
//! matching, port arbitration, service pooling, session bookkeeping and
//! federated node bookkeeping. The HTTP plumbing around it lives in the
//! accompanying application crate.

pub mod browser;
pub mod config;
pub mod error;
pub mod laws;
pub mod nodes;
pub mod portmanager;
pub mod response;
pub mod router;
pub mod seqtools;
pub mod service;
pub mod session;
pub mod state;
pub mod strutil;
