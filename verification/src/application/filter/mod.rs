//! The criteria by which the servers list is filtered and sorted.
pub use crate::application::filter_dictionary;

pub mod country_filter;
pub mod filter_servers;
pub mod game_mode_filter;
pub mod map_filter;
pub mod ping_filter;
pub mod player_filter;
pub mod properties_filter;
pub mod provider_filter;
pub mod sort_servers;
pub mod stable_sort;
pub mod text_filter;

use vstd::prelude::*;

verus! {

/// The value a missing switch takes when settings are read.
pub fn default_true() -> (r: bool)
    ensures
        r,
{
    true
}

} // verus!
