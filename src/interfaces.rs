//! The configuration, query and streaming boundary.
pub mod config;
pub mod http_api;
pub mod stream;

pub use self::config::{Config, TargetCfg};
pub use self::stream::{StreamSession, StreamUnit};
