//! A value that is there, on its way, or missing.
pub use crate::application::promised_value::PromisedValue;
