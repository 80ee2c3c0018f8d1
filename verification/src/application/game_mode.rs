//! Game modes: their identifiers and the descriptions the server list shows.
use vstd::prelude::*;
use crate::keys::{text_codes, text_model};
use crate::ordered_map::{OrderedKey, OrderedMap};
use crate::text::copy_text;

verus! {

#[derive(Debug, Hash, Ord, PartialOrd, Eq, PartialEq)]
pub struct GameModeId(String);

impl View for GameModeId {
    type V = Seq<char>;

    closed spec fn view(&self) -> Seq<char> {
        self.0@
    }
}

impl Clone for GameModeId {
    fn clone(&self) -> (r: Self)
        ensures
            r == *self,
    {
        GameModeId(self.0.clone())
    }
}

impl GameModeId {
    pub fn new(id: &str) -> (g: GameModeId)
        ensures
            g@ == id@,
    {
        GameModeId(copy_text(id))
    }

    pub fn as_str(&self) -> (s: &str)
        ensures
            s@ == self@,
    {
        self.0.as_str()
    }

    /// The identifier, as `Display` writes it.
    pub fn to_string(&self) -> (s: String)
        ensures
            s@ == self@,
    {
        self.0.clone()
    }
}

impl OrderedKey for GameModeId {
    open spec fn key_model(&self) -> Seq<u32> {
        text_model(self@)
    }

    fn key_code(&self) -> (r: Vec<u32>) {
        text_codes(self.0.as_str())
    }
}

/// A game mode as the servers' data source describes it; a color is red, green, blue.
#[derive(Debug)]
pub struct GameModeRecord {
    pub id: String,
    pub title: String,
    pub description: String,
    pub color: Option<(u8, u8, u8)>,
}

impl Clone for GameModeRecord {
    fn clone(&self) -> (r: Self)
        ensures
            r == *self,
    {
        GameModeRecord {
            id: self.id.clone(),
            title: self.title.clone(),
            description: self.description.clone(),
            color: self.color,
        }
    }
}

#[derive(Debug)]
pub struct GameMode {
    pub id: String,
    pub title: String,
    pub description: String,
    pub color: Option<(u8, u8, u8)>,
}

impl GameMode {
    pub open spec fn of_record(r: GameModeRecord) -> GameMode {
        GameMode { id: r.id, title: r.title, description: r.description, color: r.color }
    }

    pub fn from_record(r: GameModeRecord) -> (g: GameMode)
        ensures
            g == GameMode::of_record(r),
    {
        GameMode { id: r.id, title: r.title, description: r.description, color: r.color }
    }
}

pub open spec fn record_key(r: GameModeRecord) -> Seq<u32> {
    text_model(r.id@)
}

/// The game modes known, by identifier.
pub struct GameModes {
    game_modes_info: OrderedMap<GameModeId, GameMode>,
}

/// Reading `modes` in order into a map, the entry for `m` is the last mode with that identifier.
pub open spec fn last_mode_with(modes: Seq<GameModeRecord>, m: Seq<u32>, i: int) -> bool {
    &&& 0 <= i < modes.len()
    &&& record_key(modes[i]) == m
    &&& forall|j: int| i < j < modes.len() ==> record_key(#[trigger] modes[j]) != m
}

impl GameModes {
    pub closed spec fn wf(&self) -> bool {
        self.game_modes_info.wf()
    }

    /// Game modes by identifier model.
    pub closed spec fn modes_map(&self) -> Map<Seq<u32>, GameMode> {
        self.game_modes_info.to_map()
    }

    pub fn new() -> (r: GameModes)
        ensures
            r.wf(),
            r.modes_map() == Map::<Seq<u32>, GameMode>::empty(),
    {
        GameModes { game_modes_info: OrderedMap::new() }
    }

    /// Replaces the known game modes by `modes`; of modes sharing an identifier, the last one stays.
    pub fn reset(&mut self, modes: &[GameModeRecord])
        ensures
            final(self).wf(),
            forall|m: Seq<u32>| #[trigger] final(self).modes_map().dom().contains(m) <==> exists|i: int|
                0 <= i < modes@.len() && record_key(#[trigger] modes@[i]) == m,
            forall|i: int| #[trigger] last_mode_with(modes@, record_key(modes@[i]), i)
                ==> final(self).modes_map()[record_key(modes@[i])] == GameMode::of_record(modes@[i]),
    {
        let mut map: OrderedMap<GameModeId, GameMode> = OrderedMap::new();
        let mut i: usize = 0;
        while i < modes.len()
            invariant
                i <= modes@.len(),
                map.wf(),
                forall|m: Seq<u32>| #[trigger] map.to_map().dom().contains(m) <==> exists|k: int|
                    0 <= k < i && record_key(#[trigger] modes@[k]) == m,
                forall|k: int|
                    0 <= k < i && #[trigger] last_mode_with(modes@.take(i as int), record_key(modes@[k]), k)
                    ==> map.to_map()[record_key(modes@[k])] == GameMode::of_record(modes@[k]),
            decreases modes@.len() - i,
        {
            let record = modes[i].clone();
            let id = GameModeId::new(record.id.as_str());
            let ghost m = record_key(modes@[i as int]);
            let ghost before = map.to_map();
            map.insert(id, GameMode::from_record(record));
            proof {
                assert forall|x: Seq<u32>| #[trigger] map.to_map().dom().contains(x) <==> exists|k: int|
                    0 <= k < i + 1 && record_key(#[trigger] modes@[k]) == x by {
                    if x == m {
                        assert(record_key(modes@[i as int]) == x);
                    }
                    if exists|k: int| 0 <= k < i + 1 && record_key(#[trigger] modes@[k]) == x {
                        let k = choose|k: int| 0 <= k < i + 1 && record_key(#[trigger] modes@[k]) == x;
                        if k < i {
                            assert(before.dom().contains(x));
                        }
                    }
                }
                assert forall|k: int|
                    0 <= k < i + 1 && #[trigger] last_mode_with(modes@.take(i + 1), record_key(modes@[k]), k)
                    implies map.to_map()[record_key(modes@[k])] == GameMode::of_record(modes@[k]) by {
                    let x = record_key(modes@[k]);
                    if k < i {
                        assert(modes@.take(i + 1)[i as int] == modes@[i as int]);
                        assert(x != m);
                        assert forall|j: int| k < j < i implies record_key(
                            #[trigger] modes@.take(i as int)[j],
                        ) != x by {
                            assert(modes@.take(i + 1)[j] == modes@[j]);
                        }
                        assert(last_mode_with(modes@.take(i as int), x, k));
                    }
                }
            }
            i = i + 1;
        }
        proof {
            assert(modes@.take(i as int) =~= modes@);
        }
        self.game_modes_info = map;
    }

    pub fn get(&self, id: &GameModeId) -> (r: Option<&GameMode>)
        requires
            self.wf(),
        ensures
            r is Some <==> self.modes_map().dom().contains(id.key_model()),
            r matches Some(g) ==> *g == self.modes_map()[id.key_model()],
    {
        self.game_modes_info.get(id)
    }
}

} // verus!
