//! Filtering servers by their players and free slots.
use vstd::prelude::*;
use crate::application::server::{Server, spec_free_slots};

verus! {

pub struct PlayerFilter {
    pub enabled: bool,
    pub minimum_players: u8,
    pub maximum_players: u8,
    pub minimum_free_slots: u8,
    pub maximum_free_slots: u8,
}

impl PlayerFilter {
    /// A disabled filter accepts every server; else the server needs at least
    /// `minimum_players` players and `minimum_free_slots` free slots.
    pub open spec fn spec_accept(&self, server: &Server) -> bool {
        !self.enabled || (server.current_players_count >= self.minimum_players && spec_free_slots(
            server.max_players_count,
            server.current_players_count,
        ) >= self.minimum_free_slots)
    }

    pub fn accept(&self, server: &Server) -> (r: bool)
        ensures
            r == self.spec_accept(server),
    {
        if !self.enabled {
            return true
        }
        server.current_players_count >= self.minimum_players && server.free_slots()
            >= self.minimum_free_slots
    }
}

/// An enabled player filter rejects a server with fewer players than the
/// minimum, or fewer free slots (the slots minus the players, none when the
/// players exceed them) than the minimum, and accepts the others; a disabled
/// one accepts every server.
pub proof fn lemma_player_filter(f: PlayerFilter, server: Server)
    ensures
        !f.enabled ==> f.spec_accept(&server),
        f.enabled && server.current_players_count < f.minimum_players ==> !f.spec_accept(&server),
        ({
            let free: int = if server.max_players_count >= server.current_players_count {
                server.max_players_count - server.current_players_count
            } else {
                0
            };
            &&& f.enabled && free < f.minimum_free_slots ==> !f.spec_accept(&server)
            &&& f.enabled && server.current_players_count >= f.minimum_players && free >= f.minimum_free_slots
                ==> f.spec_accept(&server)
        }),
{
}

/// Lowering the minimums keeps every server that was accepted.
pub proof fn lemma_player_filter_lower_minimums(f: PlayerFilter, g: PlayerFilter, server: Server)
    requires
        g.enabled == f.enabled,
        g.minimum_players <= f.minimum_players,
        g.minimum_free_slots <= f.minimum_free_slots,
        f.spec_accept(&server),
    ensures
        g.spec_accept(&server),
{
}

impl Default for PlayerFilter {
    fn default() -> (f: PlayerFilter)
        ensures
            !f.enabled,
            f.minimum_players == 0,
            f.maximum_players == 0,
            f.minimum_free_slots == 0,
            f.maximum_free_slots == 0,
    {
        PlayerFilter {
            enabled: false,
            minimum_players: 0,
            maximum_players: 0,
            minimum_free_slots: 0,
            maximum_free_slots: 0,
        }
    }
}

} // verus!
