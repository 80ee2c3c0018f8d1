//! Filtering servers by game mode, with the modes known so far.
use vstd::prelude::*;
use crate::application::filter_dictionary::FilterDictionary;
use crate::application::game_mode::{GameModeId, GameModeRecord, record_key};
use crate::application::server::Server;
use crate::keys::key_lt;
use crate::ordered_map::OrderedKey;

verus! {

pub struct GameModeFilter {
    game_modes: FilterDictionary<GameModeId>,
    enabled: bool,
}

impl GameModeFilter {
    pub closed spec fn wf(&self) -> bool {
        self.game_modes.wf()
    }

    /// The modes' enabled states, by identifier model.
    pub closed spec fn modes(&self) -> Map<Seq<u32>, bool> {
        self.game_modes.checks()
    }

    /// The known modes, in ascending order, with their states.
    pub closed spec fn mode_seq(&self) -> Seq<GameModeId> {
        self.game_modes.key_seq()
    }

    pub closed spec fn state_seq(&self) -> Seq<bool> {
        self.game_modes.check_seq()
    }

    pub closed spec fn spec_enabled(&self) -> bool {
        self.enabled
    }

    pub open spec fn spec_is_mode_enabled(&self, m: Seq<u32>) -> bool {
        self.modes().dom().contains(m) && self.modes()[m]
    }

    /// A disabled filter accepts every server; else one of the server's game
    /// modes must be enabled.
    pub open spec fn spec_accept(&self, server: &Server) -> bool {
        !self.spec_enabled() || exists|i: int|
            0 <= i < server.game_modes@.len() && self.spec_is_mode_enabled(
                #[trigger] server.game_modes@[i].key_model(),
            )
    }

    pub fn new() -> (f: GameModeFilter)
        ensures
            f.wf(),
            f.modes() == Map::<Seq<u32>, bool>::empty(),
            !f.spec_enabled(),
    {
        GameModeFilter { game_modes: FilterDictionary::new(), enabled: false }
    }

    pub fn set_enabled(&mut self, enabled: bool)
        requires
            old(self).wf(),
        ensures
            final(self).wf(),
            final(self).spec_enabled() == enabled,
            final(self).modes() == old(self).modes(),
    {
        self.enabled = enabled;
    }

    pub fn is_enabled(&self) -> (r: bool)
        ensures
            r == self.spec_enabled(),
    {
        self.enabled
    }

    /// Sets the state of a known mode; an unknown mode stays unknown.
    pub fn set_mode_enabled(&mut self, id: &GameModeId, enabled: bool)
        requires
            old(self).wf(),
        ensures
            final(self).wf(),
            final(self).modes() == if old(self).modes().dom().contains(id.key_model()) {
                old(self).modes().insert(id.key_model(), enabled)
            } else {
                old(self).modes()
            },
            final(self).spec_enabled() == old(self).spec_enabled(),
    {
        self.game_modes.set_checked(id, enabled);
    }

    /// Enables `enable_id` and disables every other known mode.
    pub fn enable_only(&mut self, enable_id: &GameModeId)
        requires
            old(self).wf(),
        ensures
            final(self).wf(),
            final(self).modes().dom() == old(self).modes().dom(),
            forall|m: Seq<u32>| #[trigger] final(self).modes().dom().contains(m) ==> final(self).modes()[m]
                == (m == enable_id.key_model()),
            final(self).spec_enabled() == old(self).spec_enabled(),
    {
        self.game_modes.check_only(enable_id);
    }

    /// Disables `enable_id` and enables every other known mode.
    pub fn enable_all_excepted(&mut self, enable_id: &GameModeId)
        requires
            old(self).wf(),
        ensures
            final(self).wf(),
            final(self).modes().dom() == old(self).modes().dom(),
            forall|m: Seq<u32>| #[trigger] final(self).modes().dom().contains(m) ==> final(self).modes()[m]
                == (m != enable_id.key_model()),
            final(self).spec_enabled() == old(self).spec_enabled(),
    {
        self.game_modes.uncheck_only(enable_id);
    }

    pub fn is_mode_enabled(&self, id: &GameModeId) -> (r: bool)
        requires
            self.wf(),
        ensures
            r == self.spec_is_mode_enabled(id.key_model()),
    {
        self.game_modes.is_checked(id)
    }

    /// The known modes with their states, in ascending order.
    pub fn game_modes(&self) -> (r: Vec<(&GameModeId, bool)>)
        requires
            self.wf(),
        ensures
            r@.len() == self.mode_seq().len(),
            forall|i: int| 0 <= i < r@.len() ==> *(#[trigger] r@[i]).0 == self.mode_seq()[i] && r@[i].1
                == self.state_seq()[i],
            forall|i: int| 0 <= i < r@.len() ==> (#[trigger] r@[i]).1 == self.spec_is_mode_enabled(
                r@[i].0.key_model(),
            ) && self.modes().dom().contains(r@[i].0.key_model()),
            forall|i: int, j: int| 0 <= i < j < r@.len() ==> key_lt(
                (#[trigger] r@[i]).0.key_model(),
                (#[trigger] r@[j]).0.key_model(),
            ),
            forall|m: Seq<u32>| #[trigger] self.modes().dom().contains(m) ==> exists|i: int|
                0 <= i < r@.len() && r@[i].0.key_model() == m,
    {
        self.game_modes.iter()
    }

    /// Learns the modes in `game_modes`: a new mode is enabled, a known one keeps its state.
    pub fn reset(&mut self, game_modes: &[GameModeRecord])
        requires
            old(self).wf(),
        ensures
            final(self).wf(),
            forall|m: Seq<u32>| #[trigger] final(self).modes().dom().contains(m) <==> (old(
                self,
            ).modes().dom().contains(m) || exists|i: int|
                0 <= i < game_modes@.len() && record_key(#[trigger] game_modes@[i]) == m),
            forall|m: Seq<u32>| #[trigger] final(self).modes().dom().contains(m) ==> final(self).modes()[m]
                == if old(self).modes().dom().contains(m) {
                old(self).modes()[m]
            } else {
                true
            },
            final(self).spec_enabled() == old(self).spec_enabled(),
    {
        let mut i: usize = 0;
        while i < game_modes.len()
            invariant
                i <= game_modes@.len(),
                self.wf(),
                forall|m: Seq<u32>| #[trigger] self.modes().dom().contains(m) <==> (old(
                    self,
                ).modes().dom().contains(m) || exists|k: int|
                    0 <= k < i && record_key(#[trigger] game_modes@[k]) == m),
                forall|m: Seq<u32>| #[trigger] self.modes().dom().contains(m) ==> self.modes()[m]
                    == if old(self).modes().dom().contains(m) {
                    old(self).modes()[m]
                } else {
                    true
                },
                self.spec_enabled() == old(self).spec_enabled(),
            decreases game_modes@.len() - i,
        {
            let id = GameModeId::new(game_modes[i].id.as_str());
            let ghost m_i = id.key_model();
            assert(m_i == record_key(game_modes@[i as int]));
            let ghost before = self.modes();
            self.game_modes.add(id);
            assert forall|m: Seq<u32>| #[trigger] self.modes().dom().contains(m) implies self.modes()[m]
                == if old(self).modes().dom().contains(m) {
                old(self).modes()[m]
            } else {
                true
            } by {
                if before.dom().contains(m) {
                    assert(self.modes()[m] == before[m]);
                } else {
                    assert(m == m_i);
                    assert(!old(self).modes().dom().contains(m));
                }
            }
            assert forall|m: Seq<u32>| #[trigger] self.modes().dom().contains(m) <==> (old(
                self,
            ).modes().dom().contains(m) || exists|k: int|
                0 <= k < i + 1 && record_key(#[trigger] game_modes@[k]) == m) by {
                if m == m_i {
                    assert(record_key(game_modes@[i as int]) == m);
                }
            }
            i = i + 1;
        }
    }

    pub fn accept(&self, server: &Server) -> (r: bool)
        requires
            self.wf(),
        ensures
            r == self.spec_accept(server),
    {
        if !self.enabled {
            return true;
        }
        let mut i: usize = 0;
        while i < server.game_modes.len()
            invariant
                self.wf(),
                i <= server.game_modes@.len(),
                forall|k: int| 0 <= k < i ==> !self.spec_is_mode_enabled(
                    #[trigger] server.game_modes@[k].key_model(),
                ),
            decreases server.game_modes@.len() - i,
        {
            if self.game_modes.is_checked(&server.game_modes[i]) {
                return true;
            }
            i = i + 1;
        }
        false
    }
}

impl Default for GameModeFilter {
    fn default() -> (f: GameModeFilter)
        ensures
            f.wf(),
            f.modes() == Map::<Seq<u32>, bool>::empty(),
            !f.spec_enabled(),
    {
        GameModeFilter::new()
    }
}

} // verus!
