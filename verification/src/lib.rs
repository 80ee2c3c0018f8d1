use vstd::prelude::*;

pub mod keys;
pub mod ordered_map;
pub mod time;
pub mod text;
pub mod application;
pub mod directories;
pub mod sources;
pub mod source_filter;
pub mod announces;
pub mod advanced_filter;
pub mod promised_value;
pub mod servers_provider;
pub mod states;
pub mod startup;

verus! {
} // verus!
