//! Filtering servers by the game modes they run.
use vstd::prelude::*;
use crate::application::filter_dictionary::FilterDictionary;
use crate::application::game_mode::GameModeId;
use crate::application::server::Server;
use crate::ordered_map::OrderedKey;

verus! {

pub struct GameModeFilter {
    pub dictionary: FilterDictionary<GameModeId>,
    pub enabled: bool,
}

impl GameModeFilter {
    pub open spec fn wf(&self) -> bool {
        self.dictionary.wf()
    }

    /// A disabled filter accepts every server; else one of the server's game
    /// modes must be checked.
    pub open spec fn spec_accept(&self, server: &Server) -> bool {
        !self.enabled || exists|i: int|
            0 <= i < server.game_modes@.len() && self.dictionary.spec_is_checked(
                #[trigger] server.game_modes@[i].key_model(),
            )
    }

    pub fn accept(&self, server: &Server) -> (r: bool)
        requires
            self.wf(),
        ensures
            r == self.spec_accept(server),
    {
        if !self.enabled {
            return true;
        }
        let mut i: usize = 0;
        while i < server.game_modes.len()
            invariant
                self.wf(),
                i <= server.game_modes@.len(),
                forall|k: int| 0 <= k < i ==> !self.dictionary.spec_is_checked(
                    #[trigger] server.game_modes@[k].key_model(),
                ),
            decreases server.game_modes@.len() - i,
        {
            if self.dictionary.is_checked(&server.game_modes[i]) {
                return true;
            }
            i = i + 1;
        }
        false
    }
}

impl Default for GameModeFilter {
    /// No game mode known, disabled.
    fn default() -> (f: GameModeFilter)
        ensures
            f.wf(),
            f.dictionary.checks() == Map::<Seq<u32>, bool>::empty(),
            !f.enabled,
    {
        GameModeFilter { dictionary: FilterDictionary::new(), enabled: false }
    }
}

} // verus!
