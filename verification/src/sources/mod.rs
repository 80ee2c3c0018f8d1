//! The sources of servers, by key, and which of them are used.
pub mod servers_sources;

pub use crate::application::servers_source::SourceKey;
