//! The sources of servers that can be used, each with its name and whether it is used.
use vstd::prelude::*;
use crate::application::server::Server;
use crate::application::servers_source::SourceKey;
use crate::keys::key_lt;
use crate::ordered_map::{OrderedKey, OrderedMap};
use crate::text::copy_text;

verus! {

/// A source's name, and whether it is used.
pub struct SourceEntry {
    pub enabled: bool,
    pub name: String,
}

/// The name and key of each source the provider knows, in its order.
pub open spec fn offered_keys(offered: Seq<(String, SourceKey)>) -> Set<Seq<u32>> {
    Set::new(|m: Seq<u32>| exists|i: int| 0 <= i < offered.len() && #[trigger] offered[i].1.key_model() == m)
}

/// Entry `i` is the last one offered with the key model `m`.
pub open spec fn last_offered(offered: Seq<(String, SourceKey)>, m: Seq<u32>, i: int) -> bool {
    &&& 0 <= i < offered.len()
    &&& offered[i].1.key_model() == m
    &&& forall|j: int| i < j < offered.len() ==> (#[trigger] offered[j]).1.key_model() != m
}

/// The sources table by key model: name and state.
pub open spec fn table_view(table: OrderedMap<SourceKey, SourceEntry>) -> Map<Seq<u32>, (Seq<char>, bool)> {
    Map::new(
        |m: Seq<u32>| table.to_map().dom().contains(m),
        |m: Seq<u32>| (table.to_map()[m].name@, table.to_map()[m].enabled),
    )
}

pub struct ServersSources {
    sources: OrderedMap<SourceKey, SourceEntry>,
}

/// After offering sources: each offered key holds the last name offered for it
/// and keeps its state, a new one being used; `kept` says whether the sources
/// not offered stay.
pub open spec fn sources_offered(
    before: Map<Seq<u32>, (Seq<char>, bool)>,
    after: Map<Seq<u32>, (Seq<char>, bool)>,
    offered: Seq<(String, SourceKey)>,
    kept: bool,
) -> bool {
    &&& forall|m: Seq<u32>| #[trigger] after.dom().contains(m) <==> (offered_keys(offered).contains(m) || kept
        && before.dom().contains(m))
    &&& forall|i: int| #[trigger] last_offered(offered, offered[i].1.key_model(), i) ==> after[offered[i].1.key_model()] == (
        offered[i].0@,
        if before.dom().contains(offered[i].1.key_model()) {
            before[offered[i].1.key_model()].1
        } else {
            true
        },
    )
    &&& forall|m: Seq<u32>| kept && before.dom().contains(m) && !offered_keys(offered).contains(m) ==> #[trigger] after[m]
        == before[m]
}

/// Offers the sources in turn to a table: a known key takes the new name, a
/// new key is added as used, and the keys not offered stay.
pub fn offer_sources(table: &mut OrderedMap<SourceKey, SourceEntry>, offered: &Vec<(String, SourceKey)>)
    requires
        old(table).wf(),
    ensures
        final(table).wf(),
        sources_offered(table_view(*old(table)), table_view(*final(table)), offered@, true),
{
    let ghost start = table_view(*table);
    let mut i: usize = 0;
    while i < offered.len()
        invariant
            table.wf(),
            i <= offered@.len(),
            start == table_view(*old(table)),
            forall|m: Seq<u32>| #[trigger] table_view(*table).dom().contains(m) <==> (offered_keys(offered@.take(i as int)).contains(m)
                || start.dom().contains(m)),
            forall|m: Seq<u32>| #[trigger] table_view(*table).dom().contains(m) ==> table_view(*table)[m].1 == if start.dom().contains(m) {
                start[m].1
            } else {
                true
            },
            forall|k: int| #[trigger] last_offered(offered@.take(i as int), offered@[k].1.key_model(), k) ==> table_view(
                *table,
            )[offered@[k].1.key_model()].0 == offered@[k].0@,
            forall|m: Seq<u32>| start.dom().contains(m) && !offered_keys(offered@.take(i as int)).contains(m)
                ==> #[trigger] table_view(*table)[m] == start[m],
        decreases offered@.len() - i,
    {
        let (name, key) = &offered[i];
        let ghost m = key.key_model();
        let ghost before = table_view(*table);
        let enabled = match table.get(key) {
            Some(entry) => {
                assert(table.to_map().dom().contains(m));
                assert(*entry == table.to_map()[m]);
                assert(before.dom().contains(m));
                assert(entry.enabled == before[m].1);
                entry.enabled
            },
            None => {
                assert(!before.dom().contains(m));
                assert(!start.dom().contains(m));
                true
            },
        };
        let entry = SourceEntry { enabled, name: copy_text(name.as_str()) };
        table.insert(key.clone(), entry);
        proof {
            assert(table_view(*table) =~= before.insert(m, (offered@[i as int].0@, enabled)));
            assert(offered@.take(i + 1)[i as int] == offered@[i as int]);
            assert forall|x: Seq<u32>| offered_keys(offered@.take(i + 1)).contains(x) <==> (offered_keys(
                offered@.take(i as int),
            ).contains(x) || x == m) by {
                if offered_keys(offered@.take(i + 1)).contains(x) {
                    let j = choose|j: int| 0 <= j < i + 1 && #[trigger] offered@.take(i + 1)[j].1.key_model() == x;
                    if j < i {
                        assert(offered@.take(i as int)[j] == offered@.take(i + 1)[j]);
                    }
                }
                if offered_keys(offered@.take(i as int)).contains(x) {
                    let j = choose|j: int| 0 <= j < i && #[trigger] offered@.take(i as int)[j].1.key_model() == x;
                    assert(offered@.take(i + 1)[j] == offered@.take(i as int)[j]);
                }
            }
            assert forall|k: int| #[trigger] last_offered(offered@.take(i + 1), offered@[k].1.key_model(), k) implies table_view(
                *table,
            )[offered@[k].1.key_model()].0 == offered@[k].0@ by {
                if k < i {
                    assert(offered@.take(i + 1)[i as int].1.key_model() != offered@[k].1.key_model());
                    assert(last_offered(offered@.take(i as int), offered@[k].1.key_model(), k));
                }
            }
        }
        i = i + 1;
    }
    proof {
        assert(offered@.take(i as int) =~= offered@);
        assert forall|k: int| #[trigger] last_offered(offered@, offered@[k].1.key_model(), k) implies table_view(
            *table,
        )[offered@[k].1.key_model()] == (
            offered@[k].0@,
            if start.dom().contains(offered@[k].1.key_model()) {
                start[offered@[k].1.key_model()].1
            } else {
                true
            },
        ) by {
            assert(offered_keys(offered@).contains(offered@[k].1.key_model()));
            assert(offered_keys(offered@.take(i as int)).contains(offered@[k].1.key_model()));
            assert(table_view(*table).dom().contains(offered@[k].1.key_model()));
            assert(last_offered(offered@.take(i as int), offered@[k].1.key_model(), k));
        }
    }
}

impl ServersSources {
    pub closed spec fn wf(&self) -> bool {
        self.sources.wf()
    }

    /// The sources by key model: name and whether used.
    pub closed spec fn table(&self) -> Map<Seq<u32>, (Seq<char>, bool)> {
        table_view(self.sources)
    }

    /// The keys, in ascending order.
    pub closed spec fn key_seq(&self) -> Seq<SourceKey> {
        self.sources.key_seq()
    }

    pub fn new() -> (s: ServersSources)
        ensures
            s.wf(),
            s.table() == Map::<Seq<u32>, (Seq<char>, bool)>::empty(),
    {
        let s = ServersSources { sources: OrderedMap::new() };
        assert(s.table() =~= Map::<Seq<u32>, (Seq<char>, bool)>::empty());
        s
    }

    /// A server is accepted when its source is known and used.
    pub fn accept_server(&self, server: &Server) -> (r: bool)
        requires
            self.wf(),
        ensures
            r == match server.source_key {
                Some(key) => self.table().dom().contains(key.key_model()) && self.table()[key.key_model()].1,
                None => false,
            },
    {
        match &server.source_key {
            Some(key) => match self.sources.get(key) {
                Some(entry) => entry.enabled,
                None => false,
            },
            None => false,
        }
    }

    /// The sources are those offered: a known one takes its new name and keeps
    /// its state, a new one is used, and one not offered any more is removed.
    pub fn set_available_sources(&mut self, all_source_keys: Vec<(String, SourceKey)>)
        requires
            old(self).wf(),
        ensures
            final(self).wf(),
            sources_offered(old(self).table(), final(self).table(), all_source_keys@, false),
    {
        let mut table: OrderedMap<SourceKey, SourceEntry> = OrderedMap::new();
        assert(table_view(table) =~= Map::<Seq<u32>, (Seq<char>, bool)>::empty());
        let ghost old_table = self.table();
        offer_known_sources(&mut table, &self.sources, &all_source_keys);
        self.sources = table;
    }

    /// The keys of the sources used, in ascending order.
    pub fn checked_sources(&self) -> (r: Vec<&SourceKey>)
        requires
            self.wf(),
        ensures
            forall|i: int| 0 <= i < r@.len() ==> #[trigger] self.table().dom().contains(r@[i].key_model())
                && self.table()[r@[i].key_model()].1,
            forall|m: Seq<u32>| #[trigger] self.table().dom().contains(m) && self.table()[m].1 ==> exists|i: int|
                0 <= i < r@.len() && r@[i].key_model() == m,
            forall|i: int, j: int| 0 <= i < j < r@.len() ==> key_lt(
                (#[trigger] r@[i]).key_model(),
                (#[trigger] r@[j]).key_model(),
            ),
    {
        let r = checked_keys(&self.sources);
        assert forall|i: int| 0 <= i < r@.len() implies #[trigger] self.table().dom().contains(r@[i].key_model())
            && self.table()[r@[i].key_model()].1 by {
            assert(table_view(self.sources).dom().contains(r@[i].key_model()));
        }
        r
    }

    /// Each source: name, key and whether it is used, in ascending key order.
    pub fn sources(&self) -> (r: Vec<(String, SourceKey, bool)>)
        requires
            self.wf(),
        ensures
            r@.len() == self.key_seq().len(),
            forall|i: int| 0 <= i < r@.len() ==> (#[trigger] r@[i]).1 == self.key_seq()[i] && self.table()[r@[i].1.key_model()]
                == (r@[i].0@, r@[i].2),
    {
        entries_of(&self.sources)
    }

    /// Uses a known source, or stops using it; an unknown key changes nothing.
    pub fn check_source(&mut self, key: &SourceKey, checked: bool)
        requires
            old(self).wf(),
        ensures
            final(self).wf(),
            final(self).table() == if old(self).table().dom().contains(key.key_model()) {
                old(self).table().insert(key.key_model(), (old(self).table()[key.key_model()].0, checked))
            } else {
                old(self).table()
            },
    {
        set_checked(&mut self.sources, key, checked);
    }
}

impl Default for ServersSources {
    fn default() -> (s: ServersSources)
        ensures
            s.wf(),
            s.table() == Map::<Seq<u32>, (Seq<char>, bool)>::empty(),
    {
        ServersSources::new()
    }
}

/// Offers the sources to an empty table, with the states known in `known`.
fn offer_known_sources(
    table: &mut OrderedMap<SourceKey, SourceEntry>,
    known: &OrderedMap<SourceKey, SourceEntry>,
    offered: &Vec<(String, SourceKey)>,
)
    requires
        old(table).wf(),
        known.wf(),
        table_view(*old(table)) == Map::<Seq<u32>, (Seq<char>, bool)>::empty(),
    ensures
        final(table).wf(),
        sources_offered(table_view(*known), table_view(*final(table)), offered@, false),
{
    let mut i: usize = 0;
    while i < offered.len()
        invariant
            table.wf(),
            known.wf(),
            i <= offered@.len(),
            forall|m: Seq<u32>| #[trigger] table_view(*table).dom().contains(m) <==> offered_keys(offered@.take(i as int)).contains(m),
            forall|m: Seq<u32>| #[trigger] table_view(*table).dom().contains(m) ==> table_view(*table)[m].1 == if table_view(*known).dom().contains(m) {
                table_view(*known)[m].1
            } else {
                true
            },
            forall|k: int| #[trigger] last_offered(offered@.take(i as int), offered@[k].1.key_model(), k) ==> table_view(
                *table,
            )[offered@[k].1.key_model()].0 == offered@[k].0@,
        decreases offered@.len() - i,
    {
        let (name, key) = &offered[i];
        let ghost m = key.key_model();
        let ghost before = table_view(*table);
        let enabled = match known.get(key) {
            Some(entry) => entry.enabled,
            None => true,
        };
        let entry = SourceEntry { enabled, name: copy_text(name.as_str()) };
        table.insert(key.clone(), entry);
        proof {
            assert(table_view(*table) =~= before.insert(m, (offered@[i as int].0@, enabled)));
            assert(offered@.take(i + 1)[i as int] == offered@[i as int]);
            assert forall|x: Seq<u32>| offered_keys(offered@.take(i + 1)).contains(x) <==> (offered_keys(
                offered@.take(i as int),
            ).contains(x) || x == m) by {
                if offered_keys(offered@.take(i + 1)).contains(x) {
                    let j = choose|j: int| 0 <= j < i + 1 && #[trigger] offered@.take(i + 1)[j].1.key_model() == x;
                    if j < i {
                        assert(offered@.take(i as int)[j] == offered@.take(i + 1)[j]);
                    }
                }
                if offered_keys(offered@.take(i as int)).contains(x) {
                    let j = choose|j: int| 0 <= j < i && #[trigger] offered@.take(i as int)[j].1.key_model() == x;
                    assert(offered@.take(i + 1)[j] == offered@.take(i as int)[j]);
                }
            }
            assert forall|k: int| #[trigger] last_offered(offered@.take(i + 1), offered@[k].1.key_model(), k) implies table_view(
                *table,
            )[offered@[k].1.key_model()].0 == offered@[k].0@ by {
                if k < i {
                    assert(offered@.take(i + 1)[i as int].1.key_model() != offered@[k].1.key_model());
                    assert(last_offered(offered@.take(i as int), offered@[k].1.key_model(), k));
                }
            }
        }
        i = i + 1;
    }
    proof {
        assert(offered@.take(i as int) =~= offered@);
        assert forall|k: int| #[trigger] last_offered(offered@, offered@[k].1.key_model(), k) implies table_view(
            *table,
        )[offered@[k].1.key_model()] == (
            offered@[k].0@,
            if table_view(*known).dom().contains(offered@[k].1.key_model()) {
                table_view(*known)[offered@[k].1.key_model()].1
            } else {
                true
            },
        ) by {
            assert(offered_keys(offered@).contains(offered@[k].1.key_model()));
            assert(offered_keys(offered@.take(i as int)).contains(offered@[k].1.key_model()));
            assert(table_view(*table).dom().contains(offered@[k].1.key_model()));
            assert(last_offered(offered@.take(i as int), offered@[k].1.key_model(), k));
        }
    }
}

/// The keys of the used sources, in ascending order.
pub fn checked_keys(table: &OrderedMap<SourceKey, SourceEntry>) -> (r: Vec<&SourceKey>)
    requires
        table.wf(),
    ensures
        forall|i: int| 0 <= i < r@.len() ==> #[trigger] table_view(*table).dom().contains(r@[i].key_model())
            && table_view(*table)[r@[i].key_model()].1,
        forall|m: Seq<u32>| #[trigger] table_view(*table).dom().contains(m) && table_view(*table)[m].1 ==> exists|i: int|
            0 <= i < r@.len() && r@[i].key_model() == m,
        forall|i: int, j: int| 0 <= i < j < r@.len() ==> key_lt(
            (#[trigger] r@[i]).key_model(),
            (#[trigger] r@[j]).key_model(),
        ),
{
    let mut r: Vec<&SourceKey> = Vec::new();
    let mut i: usize = 0;
    while i < table.len()
        invariant
            table.wf(),
            i <= table.key_seq().len(),
            forall|k: int| 0 <= k < r@.len() ==> #[trigger] table_view(*table).dom().contains(r@[k].key_model())
                && table_view(*table)[r@[k].key_model()].1,
            forall|j: int| 0 <= j < i && (#[trigger] table.value_seq()[j]).enabled ==> exists|k: int|
                0 <= k < r@.len() && r@[k].key_model() == table.models()[j],
            forall|a: int, b: int| 0 <= a < b < r@.len() ==> key_lt(
                (#[trigger] r@[a]).key_model(),
                (#[trigger] r@[b]).key_model(),
            ),
            forall|k: int, j: int| 0 <= k < r@.len() && i <= j < table.key_seq().len() ==> key_lt(
                (#[trigger] r@[k]).key_model(),
                #[trigger] table.models()[j],
            ),
        decreases table.key_seq().len() - i,
    {
        proof {
            table.lemma_index(i as int);
        }
        let ghost before = r@;
        if table.value_at(i).enabled {
            r.push(table.key_at(i));
            assert(r@[r@.len() - 1].key_model() == table.models()[i as int]);
        }
        assert forall|k: int| 0 <= k < r@.len() implies #[trigger] table_view(*table).dom().contains(r@[k].key_model())
            && table_view(*table)[r@[k].key_model()].1 by {
            if k < before.len() {
                assert(r@[k] == before[k]);
            } else {
                assert(r@[k] == table.key_seq()[i as int]);
                assert(table.models()[i as int] == table.key_seq()[i as int].key_model());
                assert(table.to_map()[table.models()[i as int]] == table.value_seq()[i as int]);
            }
        }
        assert forall|a: int, b: int| 0 <= a < b < r@.len() implies key_lt(
            (#[trigger] r@[a]).key_model(),
            (#[trigger] r@[b]).key_model(),
        ) by {
            assert(r@[a] == before[a] || a == before.len());
            if b >= before.len() {
                assert(r@[b] == table.key_seq()[i as int]);
                assert(table.models()[i as int] == table.key_seq()[i as int].key_model());
                assert(r@[a] == before[a]);
            } else {
                assert(r@[a] == before[a] && r@[b] == before[b]);
            }
        }
        assert forall|k: int, j: int| 0 <= k < r@.len() && i + 1 <= j < table.key_seq().len() implies key_lt(
            (#[trigger] r@[k]).key_model(),
            #[trigger] table.models()[j],
        ) by {
            if k < before.len() {
                assert(r@[k] == before[k]);
            } else {
                assert(r@[k] == table.key_seq()[i as int]);
                assert(table.models()[i as int] == table.key_seq()[i as int].key_model());
                assert(key_lt(table.models()[i as int], table.models()[j]));
            }
        }
        assert forall|j: int| 0 <= j < i + 1 && (#[trigger] table.value_seq()[j]).enabled implies exists|k: int|
            0 <= k < r@.len() && r@[k].key_model() == table.models()[j] by {
            if j < i {
                let k = choose|k: int| 0 <= k < before.len() && before[k].key_model() == table.models()[j];
                assert(r@[k] == before[k]);
            } else {
                assert(r@[r@.len() - 1].key_model() == table.models()[j]);
            }
        }
        i = i + 1;
    }
    proof {
        assert forall|m: Seq<u32>| #[trigger] table_view(*table).dom().contains(m) && table_view(*table)[m].1 implies exists|k: int|
            0 <= k < r@.len() && r@[k].key_model() == m by {
            let j = table.models().index_of(m);
            table.lemma_index(j);
            assert(table.value_seq()[j].enabled);
        }
    }
    r
}

/// Each entry: name, key and state, in ascending key order.
pub fn entries_of(table: &OrderedMap<SourceKey, SourceEntry>) -> (r: Vec<(String, SourceKey, bool)>)
    requires
        table.wf(),
    ensures
        r@.len() == table.key_seq().len(),
        forall|i: int| 0 <= i < r@.len() ==> (#[trigger] r@[i]).1 == table.key_seq()[i] && table_view(*table)[r@[i].1.key_model()]
            == (r@[i].0@, r@[i].2),
{
    let mut r: Vec<(String, SourceKey, bool)> = Vec::new();
    let mut i: usize = 0;
    while i < table.len()
        invariant
            table.wf(),
            i <= table.key_seq().len(),
            r@.len() == i,
            forall|k: int| 0 <= k < i ==> (#[trigger] r@[k]).1 == table.key_seq()[k] && table_view(*table)[r@[k].1.key_model()]
                == (r@[k].0@, r@[k].2),
        decreases table.key_seq().len() - i,
    {
        proof {
            table.lemma_index(i as int);
        }
        let entry = table.value_at(i);
        r.push((copy_text(entry.name.as_str()), table.key_at(i).clone(), entry.enabled));
        i = i + 1;
    }
    r
}

/// Sets the state of a known key.
pub fn set_checked(table: &mut OrderedMap<SourceKey, SourceEntry>, key: &SourceKey, checked: bool)
    requires
        old(table).wf(),
    ensures
        final(table).wf(),
        table_view(*final(table)) == if table_view(*old(table)).dom().contains(key.key_model()) {
            table_view(*old(table)).insert(key.key_model(), (table_view(*old(table))[key.key_model()].0, checked))
        } else {
            table_view(*old(table))
        },
{
    if let Some(i) = table.position(key) {
        proof {
            table.lemma_index(i as int);
        }
        let name = copy_text(table.value_at(i).name.as_str());
        table.set_value_at(i, SourceEntry { enabled: checked, name });
        assert(table_view(*table) =~= table_view(*old(table)).insert(
            key.key_model(),
            (table_view(*old(table))[key.key_model()].0, checked),
        ));
    } else {
        assert(table_view(*table) =~= table_view(*old(table)));
    }
}


/// Offering the same sources twice changes nothing the second time.
pub proof fn lemma_offer_twice(
    before: Map<Seq<u32>, (Seq<char>, bool)>,
    once: Map<Seq<u32>, (Seq<char>, bool)>,
    twice: Map<Seq<u32>, (Seq<char>, bool)>,
    offered: Seq<(String, SourceKey)>,
    kept: bool,
)
    requires
        sources_offered(before, once, offered, kept),
        sources_offered(once, twice, offered, kept),
    ensures
        twice == once,
{
    assert forall|m: Seq<u32>| #[trigger] twice.dom().contains(m) == once.dom().contains(m) by {}
    assert forall|m: Seq<u32>| twice.dom().contains(m) implies #[trigger] twice[m] == once[m] by {
        if offered_keys(offered).contains(m) {
            let i = choose|i: int| 0 <= i < offered.len() && #[trigger] offered[i].1.key_model() == m;
            let last = last_index(offered, m, i);
            assert(last_offered(offered, offered[last].1.key_model(), last));
        }
    }
    assert(twice =~= once);
}

/// The last entry offered with the key model `m`, from one that has it.
proof fn last_index(offered: Seq<(String, SourceKey)>, m: Seq<u32>, i: int) -> (last: int)
    requires
        0 <= i < offered.len(),
        offered[i].1.key_model() == m,
    ensures
        last_offered(offered, m, last),
    decreases offered.len() - i,
{
    if exists|j: int| i < j < offered.len() && (#[trigger] offered[j]).1.key_model() == m {
        let j = choose|j: int| i < j < offered.len() && (#[trigger] offered[j]).1.key_model() == m;
        last_index(offered, m, j)
    } else {
        i
    }
}

} // verus!
