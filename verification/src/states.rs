//! The screens of the launcher's first window.
use vstd::prelude::*;

verus! {

#[derive(Debug, Clone, PartialEq, Eq)]
pub enum States {
    ShowServers,
    EditFavoriteServers,
    Settings,
    Reloading,
    Error { message: String },
}

} // verus!
