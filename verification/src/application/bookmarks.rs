//! The servers the user bookmarked, and the sources they came from.
use vstd::prelude::*;
use crate::application::ip_port::IpPort;
use crate::application::servers_source::SourceKey;
use crate::ordered_map::{OrderedKey, OrderedMap};

verus! {

pub struct Bookmarks {
    bookmarks: OrderedMap<IpPort, ()>,
    source_keys: OrderedMap<SourceKey, ()>,
}

impl Bookmarks {
    pub closed spec fn wf(&self) -> bool {
        self.bookmarks.wf() && self.source_keys.wf()
    }

    /// The bookmarked servers, by address model.
    pub closed spec fn servers(&self) -> Set<Seq<u32>> {
        self.bookmarks.to_map().dom()
    }

    /// The sources of bookmarked servers, by key model.
    pub closed spec fn sources(&self) -> Set<Seq<u32>> {
        self.source_keys.to_map().dom()
    }

    pub fn new() -> (b: Bookmarks)
        ensures
            b.wf(),
            b.servers() == Set::<Seq<u32>>::empty(),
            b.sources() == Set::<Seq<u32>>::empty(),
    {
        Bookmarks { bookmarks: OrderedMap::new(), source_keys: OrderedMap::new() }
    }

    pub fn add(&mut self, ip_port: IpPort, source_key: SourceKey)
        requires
            old(self).wf(),
        ensures
            final(self).wf(),
            final(self).servers() == old(self).servers().insert(ip_port.key_model()),
            final(self).sources() == old(self).sources().insert(source_key.key_model()),
    {
        self.bookmarks.insert_if_absent(ip_port, ());
        self.source_keys.insert_if_absent(source_key, ());
    }

    pub fn remove(&mut self, ip_port: &IpPort, source_key: &SourceKey)
        requires
            old(self).wf(),
        ensures
            final(self).wf(),
            final(self).servers() == old(self).servers().remove(ip_port.key_model()),
            final(self).sources() == old(self).sources().remove(source_key.key_model()),
    {
        if let Some(i) = self.bookmarks.position(ip_port) {
            self.bookmarks.remove_at(i);
        } else {
            assert(self.servers().remove(ip_port.key_model()) =~= self.servers());
        }
        if let Some(i) = self.source_keys.position(source_key) {
            self.source_keys.remove_at(i);
        } else {
            assert(self.sources().remove(source_key.key_model()) =~= self.sources());
        }
    }

    /// Bookmarks holding the servers and sources given, as they were saved.
    pub fn restore(servers: Vec<IpPort>, sources: Vec<SourceKey>) -> (b: Bookmarks)
        ensures
            b.wf(),
            forall|m: Seq<u32>| #[trigger] b.servers().contains(m) <==> exists|i: int|
                0 <= i < servers@.len() && servers@[i].key_model() == m,
            forall|m: Seq<u32>| #[trigger] b.sources().contains(m) <==> exists|i: int|
                0 <= i < sources@.len() && sources@[i].key_model() == m,
    {
        Bookmarks { bookmarks: set_of(servers), source_keys: set_of(sources) }
    }

    /// The bookmarked servers, in ascending order.
    pub fn bookmarked_servers(&self) -> (r: Vec<&IpPort>)
        requires
            self.wf(),
        ensures
            forall|i: int| 0 <= i < r@.len() ==> self.servers().contains(#[trigger] r@[i].key_model()),
            forall|m: Seq<u32>| #[trigger] self.servers().contains(m) ==> exists|i: int|
                0 <= i < r@.len() && r@[i].key_model() == m,
    {
        keys_of(&self.bookmarks)
    }

    /// The sources of the bookmarked servers, in ascending order.
    pub fn bookmarked_sources(&self) -> (r: Vec<&SourceKey>)
        requires
            self.wf(),
        ensures
            forall|i: int| 0 <= i < r@.len() ==> self.sources().contains(#[trigger] r@[i].key_model()),
            forall|m: Seq<u32>| #[trigger] self.sources().contains(m) ==> exists|i: int|
                0 <= i < r@.len() && r@[i].key_model() == m,
    {
        keys_of(&self.source_keys)
    }

    pub fn is_bookmarked(&self, ip_port: &IpPort) -> (r: bool)
        requires
            self.wf(),
        ensures
            r == self.servers().contains(ip_port.key_model()),
    {
        self.bookmarks.position(ip_port).is_some()
    }
}

impl Default for Bookmarks {
    fn default() -> (b: Bookmarks)
        ensures
            b.wf(),
            b.servers() == Set::<Seq<u32>>::empty(),
            b.sources() == Set::<Seq<u32>>::empty(),
    {
        Bookmarks::new()
    }
}


/// A set holding the keys given.
fn set_of<K: OrderedKey>(keys: Vec<K>) -> (set: OrderedMap<K, ()>)
    ensures
        set.wf(),
        forall|m: Seq<u32>| #[trigger] set.to_map().dom().contains(m) <==> exists|i: int|
            0 <= i < keys@.len() && keys@[i].key_model() == m,
{
    let ghost given = keys@;
    let mut keys = keys;
    let total: usize = keys.len();
    assert(given.len() == total);
    let mut set: OrderedMap<K, ()> = OrderedMap::new();
    let mut done: usize = 0;
    assert(given.skip(0) =~= given);
    while keys.len() > 0
        invariant
            set.wf(),
            done <= given.len(),
            given.len() <= usize::MAX,
            keys@ == given.skip(done as int),
            forall|m: Seq<u32>| #[trigger] set.to_map().dom().contains(m) <==> exists|i: int|
                0 <= i < done && given[i].key_model() == m,
        decreases keys@.len(),
    {
        let key = keys.remove(0);
        assert(key == given[done as int]);
        let ghost km = key.key_model();
        set.insert_if_absent(key, ());
        assert forall|m: Seq<u32>| #[trigger] set.to_map().dom().contains(m) <==> exists|i: int|
            0 <= i < done + 1 && given[i].key_model() == m by {
            if m == km {
                assert(given[done as int].key_model() == m);
            }
        }
        done = done + 1;
        assert(keys@ =~= given.skip(done as int));
    }
    set
}

/// The keys of a set, in ascending order.
fn keys_of<K: OrderedKey>(set: &OrderedMap<K, ()>) -> (r: Vec<&K>)
    requires
        set.wf(),
    ensures
        forall|i: int| 0 <= i < r@.len() ==> set.to_map().dom().contains(#[trigger] r@[i].key_model()),
        forall|m: Seq<u32>| #[trigger] set.to_map().dom().contains(m) ==> exists|i: int|
            0 <= i < r@.len() && r@[i].key_model() == m,
{
    let mut r: Vec<&K> = Vec::new();
    let mut i: usize = 0;
    while i < set.len()
        invariant
            set.wf(),
            i <= set.key_seq().len(),
            r@.len() == i,
            forall|k: int| 0 <= k < i ==> #[trigger] r@[k] == set.key_seq()[k],
        decreases set.key_seq().len() - i,
    {
        r.push(set.key_at(i));
        i = i + 1;
    }
    assert forall|k: int| 0 <= k < r@.len() implies set.to_map().dom().contains(#[trigger] r@[k].key_model()) by {
        set.lemma_index(k);
        assert(set.models()[k] == set.key_seq()[k].key_model());
    }
    assert forall|m: Seq<u32>| #[trigger] set.to_map().dom().contains(m) implies exists|k: int|
        0 <= k < r@.len() && r@[k].key_model() == m by {
        let k = set.models().index_of(m);
        assert(set.models()[k] == set.key_seq()[k].key_model());
        assert(r@[k] == set.key_seq()[k]);
    }
    r
}

/// Bookmarking a server then forgetting it leaves it not bookmarked, and the
/// other servers as they were.
pub proof fn lemma_add_then_remove(servers: Set<Seq<u32>>, ip_port: Seq<u32>, other: Seq<u32>)
    ensures
        servers.insert(ip_port).contains(ip_port),
        !servers.insert(ip_port).remove(ip_port).contains(ip_port),
        other != ip_port ==> (servers.insert(ip_port).remove(ip_port).contains(other) == servers.contains(other)),
{
}

} // verus!
