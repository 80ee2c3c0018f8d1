//! The order in which the sources are fetched: the source with more
//! bookmarked servers goes first.
use vstd::prelude::*;
use crate::application::bookmarks::Bookmarks;
use crate::application::server::Server;
use crate::application::servers_source::ServersSource;
use crate::ordered_map::OrderedKey;
use crate::text::text_equal;

verus! {

/// How many of the servers are bookmarked and come from the source with this key.
pub open spec fn bookmarked_from(servers: Seq<Server>, bookmarks: Bookmarks, key: Seq<char>) -> nat
    decreases servers.len(),
{
    if servers.len() == 0 {
        0
    } else {
        bookmarked_from(servers.drop_last(), bookmarks, key) + if bookmarks.servers().contains(
            servers.last().ip_port.key_model(),
        ) && (servers.last().source_key matches Some(k) && k@ == key) {
            1nat
        } else {
            0nat
        }
    }
}

/// The enabled sources among the first `n`, each as its position and its
/// count of bookmarked servers.
pub open spec fn counted_sources(sources: Seq<ServersSource>, servers: Seq<Server>, bookmarks: Bookmarks, n: int) -> Seq<
    (usize, usize),
>
    decreases n,
{
    if n <= 0 {
        Seq::empty()
    } else {
        counted_sources(sources, servers, bookmarks, n - 1) + if sources[n - 1].spec_enabled() {
            seq![((n - 1) as usize, bookmarked_from(servers, bookmarks, sources[n - 1].spec_key()@) as usize)]
        } else {
            Seq::empty()
        }
    }
}

/// `x` put into `sorted`, whose counts go down, after every entry whose count
/// is not below its own and before the others.
pub open spec fn insert_by_count<A>(sorted: Seq<(A, usize)>, x: (A, usize)) -> Seq<(A, usize)>
    decreases sorted.len(),
{
    if sorted.len() == 0 {
        seq![x]
    } else if sorted.last().1 >= x.1 {
        sorted.push(x)
    } else {
        insert_by_count(sorted.drop_last(), x).push(sorted.last())
    }
}

/// The entries in the order of their counts, greatest first; entries with
/// equal counts keep their order.
pub open spec fn by_count<A>(entries: Seq<(A, usize)>) -> Seq<(A, usize)>
    decreases entries.len(),
{
    if entries.len() == 0 {
        Seq::empty()
    } else {
        insert_by_count(by_count(entries.drop_last()), entries.last())
    }
}

/// The counts go down.
pub open spec fn counts_descend<A>(s: Seq<(A, usize)>) -> bool {
    forall|i: int, j: int| 0 <= i < j < s.len() ==> s[i].1 >= s[j].1
}

/// Inserting before the first entry with a lower count.
proof fn lemma_insert_at<A>(s: Seq<(A, usize)>, x: (A, usize), j: int)
    requires
        0 <= j <= s.len(),
        forall|k: int| j <= k < s.len() ==> #[trigger] s[k].1 < x.1,
        j > 0 ==> s[j - 1].1 >= x.1,
    ensures
        insert_by_count(s, x) == s.take(j).push(x) + s.skip(j),
    decreases s.len(),
{
    if s.len() == 0 {
        assert(s.take(j).push(x) + s.skip(j) =~= seq![x]);
    } else if j == s.len() {
        assert(s.take(j) =~= s);
        assert(s.take(j).push(x) + s.skip(j) =~= s.push(x));
    } else {
        let d = s.drop_last();
        assert(s.last().1 < x.1);
        assert forall|k: int| j <= k < d.len() implies #[trigger] d[k].1 < x.1 by {
            assert(d[k] == s[k]);
        }
        lemma_insert_at(d, x, j);
        assert(d.take(j) =~= s.take(j));
        assert((d.take(j).push(x) + d.skip(j)).push(s.last()) =~= s.take(j).push(x) + s.skip(j));
    }
}

/// Sorting keeps the counts going down.
pub proof fn lemma_by_count_descends<A>(entries: Seq<(A, usize)>)
    ensures
        counts_descend(by_count(entries)),
        by_count(entries).len() == entries.len(),
    decreases entries.len(),
{
    if entries.len() > 0 {
        let s = by_count(entries.drop_last());
        let x = entries.last();
        lemma_by_count_descends(entries.drop_last());
        let j = first_lower(s, x.1, s.len() as int);
        lemma_first_lower(s, x.1, s.len() as int);
        lemma_insert_at(s, x, j);
        let r = s.take(j).push(x) + s.skip(j);
        assert forall|a: int, b: int| 0 <= a < b < r.len() implies r[a].1 >= r[b].1 by {
            if b < j {
                assert(r[a] == s[a] && r[b] == s[b]);
            } else if b == j {
                assert(r[b] == x);
                assert(r[a] == s[a]);
                assert(s[a].1 >= s[j - 1].1);
            } else if a < j {
                assert(r[a] == s[a] && r[b] == s[b - 1]);
            } else if a == j {
                assert(r[a] == x && r[b] == s[b - 1]);
            } else {
                assert(r[a] == s[a - 1] && r[b] == s[b - 1]);
            }
        }
    }
}

/// The position of the first entry of a descending list, among the first `n`,
/// after which every entry has a count below `c`.
spec fn first_lower<A>(s: Seq<(A, usize)>, c: usize, n: int) -> int
    decreases n,
{
    if n <= 0 {
        0
    } else if s[n - 1].1 >= c {
        n
    } else {
        first_lower(s, c, n - 1)
    }
}

proof fn lemma_first_lower<A>(s: Seq<(A, usize)>, c: usize, n: int)
    requires
        0 <= n <= s.len(),
        forall|k: int| n <= k < s.len() ==> #[trigger] s[k].1 < c,
    ensures
        0 <= first_lower(s, c, n) <= n,
        forall|k: int| first_lower(s, c, n) <= k < s.len() ==> #[trigger] s[k].1 < c,
        first_lower(s, c, n) > 0 ==> s[first_lower(s, c, n) - 1].1 >= c,
    decreases n,
{
    if n > 0 && s[n - 1].1 < c {
        lemma_first_lower(s, c, n - 1);
    }
}

/// Sorting by count gives back entries that were there.
pub proof fn lemma_by_count_keeps<A>(entries: Seq<(A, usize)>)
    ensures
        by_count(entries).len() == entries.len(),
        forall|i: int| 0 <= i < by_count(entries).len() ==> entries.contains(#[trigger] by_count(entries)[i]),
    decreases entries.len(),
{
    lemma_by_count_descends(entries);
    if entries.len() > 0 {
        let d = entries.drop_last();
        let s = by_count(d);
        let x = entries.last();
        lemma_by_count_keeps(d);
        lemma_by_count_descends(d);
        let j = first_lower(s, x.1, s.len() as int);
        lemma_first_lower(s, x.1, s.len() as int);
        lemma_insert_at(s, x, j);
        let r = s.take(j).push(x) + s.skip(j);
        assert forall|i: int| 0 <= i < r.len() implies entries.contains(#[trigger] r[i]) by {
            if i < j {
                assert(r[i] == s[i]);
                let k = choose|k: int| 0 <= k < d.len() && d[k] == s[i];
                assert(entries[k] == d[k]);
            } else if i == j {
                assert(entries[entries.len() - 1] == x);
            } else {
                assert(r[i] == s[i - 1]);
                let k = choose|k: int| 0 <= k < d.len() && d[k] == s[i - 1];
                assert(entries[k] == d[k]);
            }
        }
    }
}

/// The positions of the counted sources are among the first `n`.
pub proof fn lemma_counted_positions(sources: Seq<ServersSource>, servers: Seq<Server>, bookmarks: Bookmarks, n: int)
    requires
        n <= sources.len(),
    ensures
        forall|i: int| 0 <= i < counted_sources(sources, servers, bookmarks, n).len() ==> (#[trigger] counted_sources(
            sources,
            servers,
            bookmarks,
            n,
        )[i]).0 < n,
    decreases n,
{
    if n > 0 {
        lemma_counted_positions(sources, servers, bookmarks, n - 1);
        let before = counted_sources(sources, servers, bookmarks, n - 1);
        let c = counted_sources(sources, servers, bookmarks, n);
        assert forall|i: int| 0 <= i < c.len() implies (#[trigger] c[i]).0 < n by {
            if i < before.len() {
                assert(c[i] == before[i]);
            }
        }
    }
}

/// How many of the servers are bookmarked and come from `source`.
pub fn count_bookmarked_from(servers: &Vec<Server>, bookmarks: &Bookmarks, source: &ServersSource) -> (n: usize)
    requires
        bookmarks.wf(),
    ensures
        n == bookmarked_from(servers@, *bookmarks, source.spec_key()@),
{
    let mut n: usize = 0;
    let mut i: usize = 0;
    while i < servers.len()
        invariant
            bookmarks.wf(),
            i <= servers@.len(),
            n == bookmarked_from(servers@.take(i as int), *bookmarks, source.spec_key()@),
            n <= i,
        decreases servers@.len() - i,
    {
        assert(servers@.take(i + 1).drop_last() =~= servers@.take(i as int));
        let server = &servers[i];
        let from_source = match &server.source_key {
            Some(k) => text_equal(k.as_str(), source.key().as_str()),
            None => false,
        };
        if from_source && bookmarks.is_bookmarked(&server.ip_port) {
            n = n + 1;
        }
        i = i + 1;
    }
    assert(servers@.take(i as int) =~= servers@);
    n
}

/// Puts `x` into `sorted`, after every entry whose count is not below its own.
fn insert_counted(sorted: &mut Vec<(usize, usize)>, x: (usize, usize))
    ensures
        final(sorted)@ == insert_by_count(old(sorted)@, x),
{
    let mut j: usize = sorted.len();
    while j > 0 && sorted[j - 1].1 < x.1
        invariant
            j <= sorted@.len(),
            sorted@ == old(sorted)@,
            forall|k: int| j <= k < sorted@.len() ==> #[trigger] sorted@[k].1 < x.1,
        decreases j,
    {
        j = j - 1;
    }
    proof {
        lemma_insert_at(sorted@, x, j as int);
    }
    sorted.insert(j, x);
    assert(sorted@ =~= old(sorted)@.take(j as int).push(x) + old(sorted)@.skip(j as int));
}

/// The enabled sources, each as its position and its count of bookmarked
/// servers, the greatest count first; sources with equal counts keep their order.
pub fn sources_by_bookmarks(sources: &Vec<ServersSource>, servers: &Vec<Server>, bookmarks: &Bookmarks) -> (r: Vec<
    (usize, usize),
>)
    requires
        bookmarks.wf(),
    ensures
        r@ == by_count(counted_sources(sources@, servers@, *bookmarks, sources@.len() as int)),
        counts_descend(r@),
{
    let mut counted: Vec<(usize, usize)> = Vec::new();
    let mut i: usize = 0;
    while i < sources.len()
        invariant
            bookmarks.wf(),
            i <= sources@.len(),
            counted@ == counted_sources(sources@, servers@, *bookmarks, i as int),
        decreases sources@.len() - i,
    {
        if sources[i].enabled() {
            let n = count_bookmarked_from(servers, bookmarks, &sources[i]);
            counted.push((i, n));
            assert(counted@ =~= counted_sources(sources@, servers@, *bookmarks, i + 1));
        } else {
            assert(counted@ =~= counted_sources(sources@, servers@, *bookmarks, i + 1));
        }
        i = i + 1;
    }
    let mut sorted: Vec<(usize, usize)> = Vec::new();
    let mut k: usize = 0;
    while k < counted.len()
        invariant
            k <= counted@.len(),
            sorted@ == by_count(counted@.take(k as int)),
        decreases counted@.len() - k,
    {
        assert(counted@.take(k + 1).drop_last() =~= counted@.take(k as int));
        insert_counted(&mut sorted, counted[k]);
        k = k + 1;
    }
    assert(counted@.take(k as int) =~= counted@);
    proof {
        lemma_by_count_descends(counted@);
    }
    sorted
}

} // verus!
