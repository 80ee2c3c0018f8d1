//! The sources whose servers are shown, each with its name.
use vstd::prelude::*;
use crate::application::server::Server;
use crate::application::servers_source::SourceKey;
use crate::keys::key_lt;
use crate::ordered_map::{OrderedKey, OrderedMap};
use crate::sources::servers_sources::{
    SourceEntry, checked_keys, entries_of, offer_sources, set_checked, sources_offered, table_view,
};

verus! {

pub struct SourceFilter {
    sources: OrderedMap<SourceKey, SourceEntry>,
}

impl SourceFilter {
    pub closed spec fn wf(&self) -> bool {
        self.sources.wf()
    }

    /// The sources by key model: name and whether checked.
    pub closed spec fn table(&self) -> Map<Seq<u32>, (Seq<char>, bool)> {
        table_view(self.sources)
    }

    /// The keys, in ascending order.
    pub closed spec fn key_seq(&self) -> Seq<SourceKey> {
        self.sources.key_seq()
    }

    pub fn new() -> (f: SourceFilter)
        ensures
            f.wf(),
            f.table() == Map::<Seq<u32>, (Seq<char>, bool)>::empty(),
    {
        let f = SourceFilter { sources: OrderedMap::new() };
        assert(f.table() =~= Map::<Seq<u32>, (Seq<char>, bool)>::empty());
        f
    }

    /// A server is accepted when its source is known and checked.
    pub fn accept_server(&self, server: &Server) -> (r: bool)
        requires
            self.wf(),
        ensures
            r == match server.source_key {
                Some(key) => self.table().dom().contains(key.key_model()) && self.table()[key.key_model()].1,
                None => false,
            },
    {
        match &server.source_key {
            Some(key) => match self.sources.get(key) {
                Some(entry) => entry.enabled,
                None => false,
            },
            None => false,
        }
    }

    /// Learns the sources offered: a known one takes its new name and keeps
    /// its state, a new one is checked; the others stay.
    pub fn set_available_sources(&mut self, all_source_keys: Vec<(String, SourceKey)>)
        requires
            old(self).wf(),
        ensures
            final(self).wf(),
            sources_offered(old(self).table(), final(self).table(), all_source_keys@, true),
    {
        offer_sources(&mut self.sources, &all_source_keys);
    }

    /// The keys of the checked sources, in ascending order.
    pub fn checked_sources(&self) -> (r: Vec<&SourceKey>)
        requires
            self.wf(),
        ensures
            forall|i: int| 0 <= i < r@.len() ==> #[trigger] self.table().dom().contains(r@[i].key_model())
                && self.table()[r@[i].key_model()].1,
            forall|m: Seq<u32>| #[trigger] self.table().dom().contains(m) && self.table()[m].1 ==> exists|i: int|
                0 <= i < r@.len() && r@[i].key_model() == m,
            forall|i: int, j: int| 0 <= i < j < r@.len() ==> key_lt(
                (#[trigger] r@[i]).key_model(),
                (#[trigger] r@[j]).key_model(),
            ),
    {
        let r = checked_keys(&self.sources);
        assert forall|i: int| 0 <= i < r@.len() implies #[trigger] self.table().dom().contains(r@[i].key_model())
            && self.table()[r@[i].key_model()].1 by {
            assert(table_view(self.sources).dom().contains(r@[i].key_model()));
        }
        r
    }

    /// Each source: name, key and whether it is checked, in ascending key order.
    pub fn sources(&self) -> (r: Vec<(String, SourceKey, bool)>)
        requires
            self.wf(),
        ensures
            r@.len() == self.key_seq().len(),
            forall|i: int| 0 <= i < r@.len() ==> (#[trigger] r@[i]).1 == self.key_seq()[i] && self.table()[r@[i].1.key_model()]
                == (r@[i].0@, r@[i].2),
    {
        entries_of(&self.sources)
    }

    /// Checks a known source, or unchecks it; an unknown key changes nothing.
    pub fn check_source(&mut self, key: &SourceKey, checked: bool)
        requires
            old(self).wf(),
        ensures
            final(self).wf(),
            final(self).table() == if old(self).table().dom().contains(key.key_model()) {
                old(self).table().insert(key.key_model(), (old(self).table()[key.key_model()].0, checked))
            } else {
                old(self).table()
            },
    {
        set_checked(&mut self.sources, key, checked);
    }
}

impl Default for SourceFilter {
    fn default() -> (f: SourceFilter)
        ensures
            f.wf(),
            f.table() == Map::<Seq<u32>, (Seq<char>, bool)>::empty(),
    {
        SourceFilter::new()
    }
}

} // verus!
