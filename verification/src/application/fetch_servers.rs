//! What is done with the servers a source answers: each is marked with its
//! source, and they are handed on in chunks.
use vstd::prelude::*;
use crate::application::server::Server;
use crate::application::servers_source::SourceKey;

verus! {

/// The most servers handed on at once.
pub const SERVERS_CHUNK_SIZE: usize = 50;

/// The servers of the chunks, one chunk after the other.
pub open spec fn flatten(chunks: Seq<Vec<Server>>) -> Seq<Server>
    decreases chunks.len(),
{
    if chunks.len() == 0 {
        Seq::empty()
    } else {
        flatten(chunks.drop_last()) + chunks.last()@
    }
}

/// The chunks hold at most `SERVERS_CHUNK_SIZE` servers each, none is empty,
/// and every chunk but the last is full.
pub open spec fn well_chunked(chunks: Seq<Vec<Server>>) -> bool {
    forall|i: int| 0 <= i < chunks.len() ==> {
        &&& 0 < (#[trigger] chunks[i])@.len() <= SERVERS_CHUNK_SIZE
        &&& i < chunks.len() - 1 ==> chunks[i]@.len() == SERVERS_CHUNK_SIZE
    }
}

/// The servers of a source, each now known to come from it.
pub fn from_source(servers: Vec<Server>, key: &SourceKey) -> (r: Vec<Server>)
    ensures
        r@.len() == servers@.len(),
        forall|i: int| 0 <= i < r@.len() ==> #[trigger] r@[i] == (Server { source_key: Some(*key), ..servers@[i] }),
{
    let mut r = servers;
    let mut i: usize = 0;
    while i < r.len()
        invariant
            i <= r@.len(),
            r@.len() == servers@.len(),
            forall|k: int| 0 <= k < i ==> #[trigger] r@[k] == (Server { source_key: Some(*key), ..servers@[k] }),
            forall|k: int| i <= k < r@.len() ==> #[trigger] r@[k] == servers@[k],
        decreases r@.len() - i,
    {
        r[i].source_key = Some(key.clone());
        i = i + 1;
    }
    r
}

/// The servers in chunks of `SERVERS_CHUNK_SIZE`, in order; the last one may be
/// smaller.
pub fn in_chunks(servers: Vec<Server>) -> (chunks: Vec<Vec<Server>>)
    ensures
        flatten(chunks@) == servers@,
        well_chunked(chunks@),
{
    let ghost all = servers@;
    let mut chunks: Vec<Vec<Server>> = Vec::new();
    let mut current: Vec<Server> = Vec::new();
    for server in it: servers
        invariant
            it.seq() == all,
            flatten(chunks@) + current@ == all.take(it.index() as int),
            forall|i: int| 0 <= i < chunks@.len() ==> (#[trigger] chunks@[i])@.len() == SERVERS_CHUNK_SIZE,
            current@.len() <= SERVERS_CHUNK_SIZE,
            it.index() > 0 ==> current@.len() > 0,
    {
        let ghost k = it.index();
        if current.len() == SERVERS_CHUNK_SIZE {
            let ghost before = chunks@;
            let mut full: Vec<Server> = Vec::new();
            std::mem::swap(&mut full, &mut current);
            chunks.push(full);
            assert(chunks@.drop_last() =~= before);
            assert(flatten(chunks@) + current@ =~= all.take(k as int));
        }
        current.push(server);
        assert(all.take(k + 1) =~= all.take(k as int).push(all[k as int]));
        assert(flatten(chunks@) + current@ =~= all.take(k + 1));
    }
    assert(all.take(all.len() as int) =~= all);
    if current.len() > 0 {
        let ghost before = chunks@;
        chunks.push(current);
        assert(chunks@.drop_last() =~= before);
        assert(flatten(chunks@) =~= all);
    } else {
        assert(flatten(chunks@) =~= all);
    }
    chunks
}

} // verus!
