//! How many servers fall under each filter choice.
use vstd::prelude::*;
use crate::application::country::Country;
use crate::application::game_mode::GameModeId;
use crate::application::map::MapName;
use crate::application::server::Property;
use crate::application::teamwork_launcher::TeamworkLauncher;
use crate::ordered_map::{OrderedKey, OrderedMap};

verus! {

pub struct ServersCounts {
    pub bookmarks: usize,
    pub timeouts: usize,
    pub countries: OrderedMap<Country, usize>,
    pub game_modes: OrderedMap<GameModeId, usize>,
    pub properties: OrderedMap<Property, usize>,
    pub maps: OrderedMap<MapName, usize>,
    pub providers: OrderedMap<String, usize>,
}

/// How many of `values` have the key model `m`.
pub open spec fn occurrences<K: OrderedKey>(values: Seq<K>, m: Seq<u32>) -> nat
    decreases values.len(),
{
    if values.len() == 0 {
        0
    } else {
        occurrences(values.drop_last(), m) + if values.last().key_model() == m {
            1nat
        } else {
            0nat
        }
    }
}

pub proof fn lemma_occurrences_bound<K: OrderedKey>(values: Seq<K>, m: Seq<u32>)
    ensures
        occurrences(values, m) <= values.len(),
        occurrences(values, m) > 0 <==> exists|i: int| 0 <= i < values.len() && #[trigger] values[i].key_model() == m,
    decreases values.len(),
{
    if values.len() > 0 {
        lemma_occurrences_bound(values.drop_last(), m);
        if exists|i: int| 0 <= i < values.len() && #[trigger] values[i].key_model() == m {
            let i = choose|i: int| 0 <= i < values.len() && #[trigger] values[i].key_model() == m;
            if i < values.len() - 1 {
                assert(values.drop_last()[i] == values[i]);
            }
        }
        if exists|i: int| 0 <= i < values.drop_last().len() && #[trigger] values.drop_last()[i].key_model() == m {
            let i = choose|i: int| 0 <= i < values.drop_last().len() && #[trigger] values.drop_last()[i].key_model() == m;
            assert(values[i] == values.drop_last()[i]);
        }
    }
}

/// `count` holds, for each key of `values`, how many times it occurs.
pub open spec fn counts_of<K: OrderedKey>(count: OrderedMap<K, usize>, values: Seq<K>) -> bool {
    &&& count.wf()
    &&& forall|m: Seq<u32>| #[trigger] count.to_map().dom().contains(m) <==> occurrences(values, m) > 0
    &&& forall|m: Seq<u32>| #[trigger] count.to_map().dom().contains(m) ==> count.to_map()[m]
        == occurrences(values, m)
}

impl ServersCounts {
    pub open spec fn wf(&self) -> bool {
        &&& self.countries.wf()
        &&& self.game_modes.wf()
        &&& self.properties.wf()
        &&& self.maps.wf()
        &&& self.providers.wf()
    }

    pub open spec fn is_empty_counts(&self) -> bool {
        &&& self.bookmarks == 0
        &&& self.timeouts == 0
        &&& self.countries.to_map() == Map::<Seq<u32>, usize>::empty()
        &&& self.game_modes.to_map() == Map::<Seq<u32>, usize>::empty()
        &&& self.properties.to_map() == Map::<Seq<u32>, usize>::empty()
        &&& self.maps.to_map() == Map::<Seq<u32>, usize>::empty()
        &&& self.providers.to_map() == Map::<Seq<u32>, usize>::empty()
    }

    pub fn new() -> (c: ServersCounts)
        ensures
            c.wf(),
            c.is_empty_counts(),
    {
        ServersCounts {
            bookmarks: 0,
            timeouts: 0,
            countries: OrderedMap::new(),
            game_modes: OrderedMap::new(),
            properties: OrderedMap::new(),
            maps: OrderedMap::new(),
            providers: OrderedMap::new(),
        }
    }

    pub fn reset(&mut self)
        ensures
            final(self).wf(),
            final(self).is_empty_counts(),
    {
        *self = ServersCounts::new();
    }

    /// Counts one more server in `country`.
    pub fn add_country(&mut self, country: Country)
        requires
            old(self).wf(),
            old(self).countries.to_map().dom().contains(country.key_model()) ==> old(
                self,
            ).countries.to_map()[country.key_model()] < usize::MAX,
        ensures
            final(self).wf(),
            final(self).countries.to_map() == old(self).countries.to_map().insert(
                country.key_model(),
                if old(self).countries.to_map().dom().contains(country.key_model()) {
                    (old(self).countries.to_map()[country.key_model()] + 1) as usize
                } else {
                    1usize
                },
            ),
            final(self).bookmarks == old(self).bookmarks,
            final(self).timeouts == old(self).timeouts,
            final(self).game_modes == old(self).game_modes,
            final(self).properties == old(self).properties,
            final(self).maps == old(self).maps,
            final(self).providers == old(self).providers,
    {
        TeamworkLauncher::increment_count(&mut self.countries, country);
    }
}

impl Default for ServersCounts {
    fn default() -> (c: ServersCounts)
        ensures
            c.wf(),
            c.is_empty_counts(),
    {
        ServersCounts::new()
    }
}

} // verus!
