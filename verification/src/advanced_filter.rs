//! The filter on players and pings that the settings keep.
use vstd::prelude::*;
use crate::application::server::Server;

verus! {

/// The value a missing `with_valid_ping` takes when settings are read.
pub fn default_as_true() -> (r: bool)
    ensures
        r,
{
    true
}

#[derive(Clone, Debug, Default)]
pub struct AdvancedServerFilter {
    pub minimum_players_count: u8,
    pub with_valid_ping: bool,
}

impl AdvancedServerFilter {
    /// A server needs enough players, and an answer to the ping when asked for.
    pub fn accept_server(&self, server: &Server) -> (r: bool)
        ensures
            r == (server.current_players_count >= self.minimum_players_count && (!self.with_valid_ping
                || !(server.ping is Absent))),
    {
        server.current_players_count >= self.minimum_players_count && (!self.with_valid_ping
            || !server.ping.is_none())
    }
}

} // verus!
