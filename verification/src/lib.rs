//! Quota tracking for a local Codex installation.

pub mod app_server;
pub mod binary64;
pub mod clock;
pub mod json;
pub mod paths;
pub mod quota;
pub mod service;
pub mod session;
pub mod storage;
pub mod text;
pub mod window;
