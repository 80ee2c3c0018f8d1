//! What the launcher gathers from a list of servers once it is fetched: the
//! values it counts, the bounds of the player filter, and the requests to make.
use vstd::prelude::*;
use crate::application::bookmarks::Bookmarks;
use crate::application::country::Country;
use crate::application::game_mode::GameModeId;
use crate::application::ip_port::Ipv4Addr;
use crate::application::map::MapName;
use crate::application::promised_value::PromisedValue;
use crate::application::server::{Property, Server};
use crate::application::servers_counts::occurrences;
use crate::ordered_map::OrderedKey;

verus! {

/// The countries of the servers that have one, in order.
pub open spec fn ready_countries(servers: Seq<Server>) -> Seq<Country>
    decreases servers.len(),
{
    if servers.len() == 0 {
        Seq::empty()
    } else {
        match servers.last().country {
            PromisedValue::Ready(c) => ready_countries(servers.drop_last()).push(c),
            _ => ready_countries(servers.drop_last()),
        }
    }
}

/// The game modes of the servers, one after the other.
pub open spec fn all_game_modes(servers: Seq<Server>) -> Seq<GameModeId>
    decreases servers.len(),
{
    if servers.len() == 0 {
        Seq::empty()
    } else {
        all_game_modes(servers.drop_last()) + servers.last().game_modes@
    }
}

/// Whether the server has the property.
pub open spec fn has_property(server: Server, p: Property) -> bool {
    match p {
        Property::Password => server.need_password,
        Property::NoRespawnTime => server.has_no_respawn_time,
        Property::Rtd => server.has_rtd,
        Property::AllTalk => server.has_all_talk,
        Property::VacSecured => server.vac_secured,
        Property::RandomCrits => server.has_random_crits,
    }
}

/// The property alone when the flag is set, else nothing.
pub open spec fn property_if(flag: bool, p: Property) -> Seq<Property> {
    if flag {
        seq![p]
    } else {
        Seq::empty()
    }
}

/// The properties a server has, each once, in the order password, no respawn
/// time, roll the dice, all talk, VAC, random crits.
pub open spec fn server_properties(server: Server) -> Seq<Property> {
    property_if(server.need_password, Property::Password) + property_if(
        server.has_no_respawn_time,
        Property::NoRespawnTime,
    ) + property_if(server.has_rtd, Property::Rtd) + property_if(server.has_all_talk, Property::AllTalk)
        + property_if(server.vac_secured, Property::VacSecured) + property_if(
        server.has_random_crits,
        Property::RandomCrits,
    )
}

/// The properties of the servers, server after server.
pub open spec fn all_properties(servers: Seq<Server>) -> Seq<Property>
    decreases servers.len(),
{
    if servers.len() == 0 {
        Seq::empty()
    } else {
        all_properties(servers.drop_last()) + server_properties(servers.last())
    }
}

/// How many of the servers have the property.
pub open spec fn servers_with(servers: Seq<Server>, p: Property) -> nat
    decreases servers.len(),
{
    if servers.len() == 0 {
        0
    } else {
        servers_with(servers.drop_last(), p) + if has_property(servers.last(), p) {
            1nat
        } else {
            0nat
        }
    }
}

proof fn lemma_occurrences_concat(a: Seq<Property>, b: Seq<Property>, m: Seq<u32>)
    ensures
        occurrences(a + b, m) == occurrences(a, m) + occurrences(b, m),
    decreases b.len(),
{
    if b.len() > 0 {
        assert((a + b).drop_last() =~= a + b.drop_last());
        lemma_occurrences_concat(a, b.drop_last(), m);
    } else {
        assert(a + b =~= a);
    }
}

proof fn lemma_property_if(flag: bool, q: Property, m: Seq<u32>)
    ensures
        occurrences(property_if(flag, q), m) == if flag && q.key_model() == m { 1nat } else { 0nat },
{
    assert(occurrences(Seq::<Property>::empty(), m) == 0);
    if flag {
        assert(property_if(flag, q).drop_last() =~= Seq::<Property>::empty());
        assert(property_if(flag, q).last() == q);
    } else {
        assert(property_if(flag, q) =~= Seq::<Property>::empty());
    }
}

/// The number of times the code `m` occurs among a server's properties: one
/// for each property it has whose code is `m`.
proof fn lemma_server_occurrences(server: Server, m: Seq<u32>)
    ensures
        occurrences(server_properties(server), m) == (if server.need_password && Property::Password.key_model() == m { 1nat } else { 0nat })
            + (if server.has_no_respawn_time && Property::NoRespawnTime.key_model() == m { 1nat } else { 0nat })
            + (if server.has_rtd && Property::Rtd.key_model() == m { 1nat } else { 0nat })
            + (if server.has_all_talk && Property::AllTalk.key_model() == m { 1nat } else { 0nat })
            + (if server.vac_secured && Property::VacSecured.key_model() == m { 1nat } else { 0nat })
            + (if server.has_random_crits && Property::RandomCrits.key_model() == m { 1nat } else { 0nat }),
{
    let p1 = property_if(server.need_password, Property::Password);
    let p2 = property_if(server.has_no_respawn_time, Property::NoRespawnTime);
    let p3 = property_if(server.has_rtd, Property::Rtd);
    let p4 = property_if(server.has_all_talk, Property::AllTalk);
    let p5 = property_if(server.vac_secured, Property::VacSecured);
    let p6 = property_if(server.has_random_crits, Property::RandomCrits);
    lemma_occurrences_concat(p1, p2, m);
    lemma_occurrences_concat(p1 + p2, p3, m);
    lemma_occurrences_concat(p1 + p2 + p3, p4, m);
    lemma_occurrences_concat(p1 + p2 + p3 + p4, p5, m);
    lemma_occurrences_concat(p1 + p2 + p3 + p4 + p5, p6, m);
    lemma_property_if(server.need_password, Property::Password, m);
    lemma_property_if(server.has_no_respawn_time, Property::NoRespawnTime, m);
    lemma_property_if(server.has_rtd, Property::Rtd, m);
    lemma_property_if(server.has_all_talk, Property::AllTalk, m);
    lemma_property_if(server.vac_secured, Property::VacSecured, m);
    lemma_property_if(server.has_random_crits, Property::RandomCrits, m);
}

/// Each property has its own code.
proof fn lemma_property_code_distinct(p: Property, q: Property)
    ensures
        p.key_model() == q.key_model() <==> p == q,
{
    if p.key_model() == q.key_model() {
        assert(p.key_model()[0] == q.key_model()[0]);
    }
}

proof fn lemma_server_has(server: Server, p: Property)
    ensures
        occurrences(server_properties(server), p.key_model()) == if has_property(server, p) { 1nat } else { 0nat },
{
    lemma_server_occurrences(server, p.key_model());
    lemma_property_code_distinct(p, Property::Password);
    lemma_property_code_distinct(p, Property::NoRespawnTime);
    lemma_property_code_distinct(p, Property::Rtd);
    lemma_property_code_distinct(p, Property::AllTalk);
    lemma_property_code_distinct(p, Property::VacSecured);
    lemma_property_code_distinct(p, Property::RandomCrits);
}

/// Counting the properties of the servers counts, for each property, the
/// servers that have it.
pub proof fn lemma_property_occurrences(servers: Seq<Server>, p: Property)
    ensures
        occurrences(all_properties(servers), p.key_model()) == servers_with(servers, p),
    decreases servers.len(),
{
    if servers.len() > 0 {
        lemma_property_occurrences(servers.drop_last(), p);
        lemma_occurrences_concat(all_properties(servers.drop_last()), server_properties(servers.last()), p.key_model());
        lemma_server_has(servers.last(), p);
    }
}

/// Property codes are those of a property.
pub proof fn lemma_property_codes(servers: Seq<Server>, m: Seq<u32>)
    requires
        occurrences(all_properties(servers), m) > 0,
    ensures
        exists|p: Property| #[trigger] p.key_model() == m,
    decreases servers.len(),
{
    if servers.len() > 0 {
        lemma_occurrences_concat(all_properties(servers.drop_last()), server_properties(servers.last()), m);
        if occurrences(all_properties(servers.drop_last()), m) > 0 {
            lemma_property_codes(servers.drop_last(), m);
        } else {
            lemma_server_occurrences(servers.last(), m);
            if Property::Password.key_model() == m {
                assert(Property::Password.key_model() == m);
            } else if Property::NoRespawnTime.key_model() == m {
                assert(Property::NoRespawnTime.key_model() == m);
            } else if Property::Rtd.key_model() == m {
                assert(Property::Rtd.key_model() == m);
            } else if Property::AllTalk.key_model() == m {
                assert(Property::AllTalk.key_model() == m);
            } else if Property::VacSecured.key_model() == m {
                assert(Property::VacSecured.key_model() == m);
            } else {
                assert(Property::RandomCrits.key_model() == m);
            }
        }
    }
}

/// How many servers did not answer the ping.
pub open spec fn timeouts(servers: Seq<Server>) -> nat
    decreases servers.len(),
{
    if servers.len() == 0 {
        0
    } else {
        timeouts(servers.drop_last()) + if servers.last().ping is Absent {
            1nat
        } else {
            0nat
        }
    }
}

/// How many servers are bookmarked.
pub open spec fn bookmarked_count(servers: Seq<Server>, bookmarks: Bookmarks) -> nat
    decreases servers.len(),
{
    if servers.len() == 0 {
        0
    } else {
        bookmarked_count(servers.drop_last(), bookmarks) + if bookmarks.servers().contains(
            servers.last().ip_port.key_model(),
        ) {
            1nat
        } else {
            0nat
        }
    }
}

/// The largest number of players on a server, zero for no server.
pub open spec fn most_players(servers: Seq<Server>) -> u8
    decreases servers.len(),
{
    if servers.len() == 0 {
        0
    } else {
        let rest = most_players(servers.drop_last());
        if rest < servers.last().current_players_count {
            servers.last().current_players_count
        } else {
            rest
        }
    }
}

/// The largest number of player slots on a server, zero for no server.
pub open spec fn most_slots(servers: Seq<Server>) -> u8
    decreases servers.len(),
{
    if servers.len() == 0 {
        0
    } else {
        let rest = most_slots(servers.drop_last());
        if rest < servers.last().max_players_count {
            servers.last().max_players_count
        } else {
            rest
        }
    }
}

/// The servers that references point to.
pub open spec fn derefs(order: Seq<&Server>) -> Seq<Server> {
    order.map_values(|s: &Server| *s)
}

/// The bookmarked servers first, then the others, each in their order.
pub open spec fn bookmarked_first(servers: Seq<Server>, bookmarks: Bookmarks) -> Seq<Server> {
    servers.filter(|s: Server| bookmarks.servers().contains(s.ip_port.key_model())) + servers.filter(
        |s: Server| !bookmarks.servers().contains(s.ip_port.key_model()),
    )
}

/// The maps whose thumbnail to ask for, in the order of the servers: each
/// map once, from the first server on it whose thumbnail is not there yet.
pub open spec fn maps_to_fetch(order: Seq<Server>) -> Seq<Seq<u32>>
    decreases order.len(),
{
    if order.len() == 0 {
        Seq::empty()
    } else {
        let earlier = maps_to_fetch(order.drop_last());
        let s = order.last();
        if earlier.contains(s.map.key_model()) || s.map_thumbnail is Ready {
            earlier
        } else {
            earlier.push(s.map.key_model())
        }
    }
}

/// The addresses of the servers, each once, in the order of the servers.
pub open spec fn unique_addresses(order: Seq<Server>) -> Seq<(u8, u8, u8, u8)>
    decreases order.len(),
{
    if order.len() == 0 {
        Seq::empty()
    } else {
        let earlier = unique_addresses(order.drop_last());
        let ip = order.last().ip_port@.0;
        if earlier.contains(ip) {
            earlier
        } else {
            earlier.push(ip)
        }
    }
}

pub proof fn lemma_bookmarked_first_len(servers: Seq<Server>, bookmarks: Bookmarks)
    ensures
        bookmarked_first(servers, bookmarks).len() == servers.len(),
    decreases servers.len(),
{
    let marked = |s: Server| bookmarks.servers().contains(s.ip_port.key_model());
    let unmarked = |s: Server| !bookmarks.servers().contains(s.ip_port.key_model());
    reveal(Seq::filter);
    if servers.len() > 0 {
        lemma_bookmarked_first_len(servers.drop_last(), bookmarks);
        assert(servers.drop_last().filter(marked).len() + servers.drop_last().filter(unmarked).len()
            == servers.drop_last().len());
    }
}

pub proof fn lemma_requests_len(order: Seq<Server>)
    ensures
        maps_to_fetch(order).len() <= order.len(),
        unique_addresses(order).len() <= order.len(),
    decreases order.len(),
{
    if order.len() > 0 {
        lemma_requests_len(order.drop_last());
    }
}

pub fn countries_of(servers: &Vec<Server>) -> (r: Vec<Country>)
    ensures
        r@ == ready_countries(servers@),
{
    let mut r: Vec<Country> = Vec::new();
    let mut i: usize = 0;
    while i < servers.len()
        invariant
            i <= servers@.len(),
            r@ == ready_countries(servers@.take(i as int)),
        decreases servers@.len() - i,
    {
        assert(servers@.take(i + 1).drop_last() =~= servers@.take(i as int));
        if let PromisedValue::Ready(c) = &servers[i].country {
            r.push(c.clone());
        }
        i = i + 1;
    }
    assert(servers@.take(i as int) =~= servers@);
    r
}

pub fn game_modes_of(servers: &Vec<Server>) -> (r: Vec<GameModeId>)
    ensures
        r@ == all_game_modes(servers@),
{
    let mut r: Vec<GameModeId> = Vec::new();
    let mut i: usize = 0;
    while i < servers.len()
        invariant
            i <= servers@.len(),
            r@ == all_game_modes(servers@.take(i as int)),
        decreases servers@.len() - i,
    {
        assert(servers@.take(i + 1).drop_last() =~= servers@.take(i as int));
        let modes = &servers[i].game_modes;
        let ghost before = r@;
        let mut k: usize = 0;
        while k < modes.len()
            invariant
                k <= modes@.len(),
                r@ == before + modes@.take(k as int),
            decreases modes@.len() - k,
        {
            r.push(modes[k].clone());
            assert(r@ =~= before + modes@.take(k + 1));
            k = k + 1;
        }
        assert(modes@.take(k as int) =~= modes@);
        i = i + 1;
    }
    assert(servers@.take(i as int) =~= servers@);
    r
}

/// The map of each server, in order.
pub fn maps_of(servers: &Vec<Server>) -> (r: Vec<MapName>)
    ensures
        r@.len() == servers@.len(),
        forall|i: int| 0 <= i < r@.len() ==> #[trigger] r@[i] == servers@[i].map,
{
    let mut r: Vec<MapName> = Vec::new();
    let mut i: usize = 0;
    while i < servers.len()
        invariant
            i <= servers@.len(),
            r@.len() == i,
            forall|k: int| 0 <= k < i ==> #[trigger] r@[k] == servers@[k].map,
        decreases servers@.len() - i,
    {
        r.push(servers[i].map.clone());
        i = i + 1;
    }
    r
}

/// The provider of each server, in order.
pub fn providers_of(servers: &Vec<Server>) -> (r: Vec<String>)
    ensures
        r@.len() == servers@.len(),
        forall|i: int| 0 <= i < r@.len() ==> #[trigger] r@[i] == servers@[i].provider,
{
    let mut r: Vec<String> = Vec::new();
    let mut i: usize = 0;
    while i < servers.len()
        invariant
            i <= servers@.len(),
            r@.len() == i,
            forall|k: int| 0 <= k < i ==> #[trigger] r@[k] == servers@[k].provider,
        decreases servers@.len() - i,
    {
        r.push(servers[i].provider.clone());
        i = i + 1;
    }
    r
}

fn push_property_if(r: &mut Vec<Property>, flag: bool, p: Property)
    ensures
        final(r)@ == old(r)@ + property_if(flag, p),
{
    if flag {
        r.push(p);
    }
    assert(final(r)@ =~= old(r)@ + property_if(flag, p));
}

/// Appends the properties the server has.
fn push_properties(r: &mut Vec<Property>, s: &Server)
    ensures
        final(r)@ == old(r)@ + server_properties(*s),
{
    let mut found: Vec<Property> = Vec::new();
    push_property_if(&mut found, s.need_password, Property::Password);
    assert(found@ =~= property_if(s.need_password, Property::Password));
    push_property_if(&mut found, s.has_no_respawn_time, Property::NoRespawnTime);
    push_property_if(&mut found, s.has_rtd, Property::Rtd);
    push_property_if(&mut found, s.has_all_talk, Property::AllTalk);
    push_property_if(&mut found, s.vac_secured, Property::VacSecured);
    push_property_if(&mut found, s.has_random_crits, Property::RandomCrits);
    assert(found@ == server_properties(*s));
    r.append(&mut found);
}

pub fn properties_of(servers: &Vec<Server>) -> (r: Vec<Property>)
    ensures
        r@ == all_properties(servers@),
{
    let mut r: Vec<Property> = Vec::new();
    let mut i: usize = 0;
    while i < servers.len()
        invariant
            i <= servers@.len(),
            r@ == all_properties(servers@.take(i as int)),
        decreases servers@.len() - i,
    {
        assert(servers@.take(i + 1).drop_last() =~= servers@.take(i as int));
        push_properties(&mut r, &servers[i]);
        i = i + 1;
    }
    assert(servers@.take(i as int) =~= servers@);
    r
}

proof fn lemma_timeouts_bound(servers: Seq<Server>)
    ensures
        timeouts(servers) <= servers.len(),
    decreases servers.len(),
{
    if servers.len() > 0 {
        lemma_timeouts_bound(servers.drop_last());
    }
}

proof fn lemma_bookmarked_bound(servers: Seq<Server>, bookmarks: Bookmarks)
    ensures
        bookmarked_count(servers, bookmarks) <= servers.len(),
    decreases servers.len(),
{
    if servers.len() > 0 {
        lemma_bookmarked_bound(servers.drop_last(), bookmarks);
    }
}

pub fn count_timeouts(servers: &Vec<Server>) -> (n: usize)
    ensures
        n == timeouts(servers@),
{
    let mut n: usize = 0;
    let mut i: usize = 0;
    while i < servers.len()
        invariant
            i <= servers@.len(),
            n == timeouts(servers@.take(i as int)),
        decreases servers@.len() - i,
    {
        assert(servers@.take(i + 1).drop_last() =~= servers@.take(i as int));
        proof {
            lemma_timeouts_bound(servers@.take(i as int));
        }
        if servers[i].ping.is_none() {
            n = n + 1;
        }
        i = i + 1;
    }
    assert(servers@.take(i as int) =~= servers@);
    n
}

pub fn count_bookmarked(servers: &Vec<Server>, bookmarks: &Bookmarks) -> (n: usize)
    requires
        bookmarks.wf(),
    ensures
        n == bookmarked_count(servers@, *bookmarks),
{
    let mut n: usize = 0;
    let mut i: usize = 0;
    while i < servers.len()
        invariant
            bookmarks.wf(),
            i <= servers@.len(),
            n == bookmarked_count(servers@.take(i as int), *bookmarks),
        decreases servers@.len() - i,
    {
        assert(servers@.take(i + 1).drop_last() =~= servers@.take(i as int));
        proof {
            lemma_bookmarked_bound(servers@.take(i as int), *bookmarks);
        }
        if bookmarks.is_bookmarked(&servers[i].ip_port) {
            n = n + 1;
        }
        i = i + 1;
    }
    assert(servers@.take(i as int) =~= servers@);
    n
}

/// The largest numbers of players and of player slots.
pub fn player_bounds(servers: &Vec<Server>) -> (r: (u8, u8))
    ensures
        r == (most_players(servers@), most_slots(servers@)),
{
    let mut players: u8 = 0;
    let mut slots: u8 = 0;
    let mut i: usize = 0;
    while i < servers.len()
        invariant
            i <= servers@.len(),
            players == most_players(servers@.take(i as int)),
            slots == most_slots(servers@.take(i as int)),
        decreases servers@.len() - i,
    {
        assert(servers@.take(i + 1).drop_last() =~= servers@.take(i as int));
        if players < servers[i].current_players_count {
            players = servers[i].current_players_count;
        }
        if slots < servers[i].max_players_count {
            slots = servers[i].max_players_count;
        }
        i = i + 1;
    }
    assert(servers@.take(i as int) =~= servers@);
    (players, slots)
}

/// The servers with the bookmarked ones first, each group in its order.
pub fn bookmarked_first_order<'a>(servers: &'a Vec<Server>, bookmarks: &Bookmarks) -> (r: Vec<&'a Server>)
    requires
        bookmarks.wf(),
    ensures
        derefs(r@) == bookmarked_first(servers@, *bookmarks),
{
    let ghost marked = |s: Server| bookmarks.servers().contains(s.ip_port.key_model());
    let ghost unmarked = |s: Server| !bookmarks.servers().contains(s.ip_port.key_model());
    let mut first: Vec<&Server> = Vec::new();
    let mut second: Vec<&Server> = Vec::new();
    let mut i: usize = 0;
    while i < servers.len()
        invariant
            bookmarks.wf(),
            i <= servers@.len(),
            derefs(first@) == servers@.take(i as int).filter(marked),
            derefs(second@) == servers@.take(i as int).filter(unmarked),
            marked == (|s: Server| bookmarks.servers().contains(s.ip_port.key_model())),
            unmarked == (|s: Server| !bookmarks.servers().contains(s.ip_port.key_model())),
        decreases servers@.len() - i,
    {
        let ghost prefix = servers@.take(i + 1);
        assert(prefix.drop_last() =~= servers@.take(i as int));
        proof {
            reveal(Seq::filter);
        }
        let ghost f = first@;
        let ghost g = second@;
        if bookmarks.is_bookmarked(&servers[i].ip_port) {
            first.push(&servers[i]);
            assert(derefs(first@) =~= derefs(f).push(servers@[i as int]));
        } else {
            second.push(&servers[i]);
            assert(derefs(second@) =~= derefs(g).push(servers@[i as int]));
        }
        i = i + 1;
    }
    assert(servers@.take(i as int) =~= servers@);
    let mut k: usize = 0;
    let ghost head = first@;
    while k < second.len()
        invariant
            k <= second@.len(),
            first@ == head + second@.take(k as int),
        decreases second@.len() - k,
    {
        first.push(second[k]);
        assert(first@ =~= head + second@.take(k + 1));
        k = k + 1;
    }
    assert(second@.take(k as int) =~= second@);
    assert(derefs(first@) =~= derefs(head) + derefs(second@));
    first
}

/// The maps whose thumbnail to ask for, in the order given.
pub fn thumbnails_to_fetch(order: &Vec<&Server>) -> (r: Vec<MapName>)
    ensures
        r@.len() == maps_to_fetch(derefs(order@)).len(),
        forall|i: int| 0 <= i < r@.len() ==> (#[trigger] r@[i]).key_model() == maps_to_fetch(derefs(order@))[i],
{
    let mut r: Vec<MapName> = Vec::new();
    let mut codes: Vec<Vec<u32>> = Vec::new();
    let mut i: usize = 0;
    while i < order.len()
        invariant
            i <= order@.len(),
            r@.len() == codes@.len(),
            r@.len() == maps_to_fetch(derefs(order@).take(i as int)).len(),
            forall|k: int| 0 <= k < r@.len() ==> (#[trigger] r@[k]).key_model() == maps_to_fetch(
                derefs(order@).take(i as int),
            )[k] && codes@[k]@ == r@[k].key_model(),
        decreases order@.len() - i,
    {
        assert(derefs(order@).take(i + 1).drop_last() =~= derefs(order@).take(i as int));
        let s: &Server = order[i];
        assert(derefs(order@).take(i + 1).last() == *s);
        let code = s.map.key_code();
        let ghost earlier = maps_to_fetch(derefs(order@).take(i as int));
        let mut seen = false;
        let mut k: usize = 0;
        assert forall|j: int| 0 <= j < codes@.len() implies #[trigger] codes@[j]@ == earlier[j] by {
            assert(r@[j].key_model() == earlier[j]);
        }
        while k < codes.len()
            invariant
                k <= codes@.len(),
                codes@.len() == earlier.len(),
                forall|j: int| 0 <= j < codes@.len() ==> #[trigger] codes@[j]@ == earlier[j],
                seen == exists|j: int| 0 <= j < k && earlier[j] == code@,
            decreases codes@.len() - k,
        {
            let same = crate::keys::codes_equal(&codes[k], &code);
            assert(codes@[k as int]@ == earlier[k as int]);
            if same {
                seen = true;
                assert(earlier[k as int] == code@);
            } else {
                assert(earlier[k as int] != code@);
            }
            assert(seen == exists|j: int| 0 <= j < k + 1 && earlier[j] == code@) by {
                if seen && !(exists|j: int| 0 <= j < k && earlier[j] == code@) {
                    assert(earlier[k as int] == code@);
                }
            }
            k = k + 1;
        }
        assert(seen == earlier.contains(code@));
        if !seen && !s.map_thumbnail.is_ready() {
            r.push(s.map.clone());
            codes.push(code);
            assert(maps_to_fetch(derefs(order@).take(i + 1)) == earlier.push(s.map.key_model()));
        }
        i = i + 1;
    }
    assert(derefs(order@).take(i as int) =~= derefs(order@));
    r
}

/// The addresses of the servers, each once, in the order given.
pub fn addresses_to_query(order: &Vec<&Server>) -> (r: Vec<Ipv4Addr>)
    ensures
        r@.len() == unique_addresses(derefs(order@)).len(),
        forall|i: int| 0 <= i < r@.len() ==> (#[trigger] r@[i])@ == unique_addresses(derefs(order@))[i],
{
    let mut r: Vec<Ipv4Addr> = Vec::new();
    let mut i: usize = 0;
    while i < order.len()
        invariant
            i <= order@.len(),
            r@.len() == unique_addresses(derefs(order@).take(i as int)).len(),
            forall|k: int| 0 <= k < r@.len() ==> (#[trigger] r@[k])@ == unique_addresses(
                derefs(order@).take(i as int),
            )[k],
        decreases order@.len() - i,
    {
        assert(derefs(order@).take(i + 1).drop_last() =~= derefs(order@).take(i as int));
        assert(derefs(order@).take(i + 1).last() == *order@[i as int]);
        let ip: Ipv4Addr = *order[i].ip_port.ip();
        let ghost earlier = unique_addresses(derefs(order@).take(i as int));
        let mut seen = false;
        let mut k: usize = 0;
        while k < r.len()
            invariant
                k <= r@.len(),
                r@.len() == earlier.len(),
                forall|j: int| 0 <= j < r@.len() ==> (#[trigger] r@[j])@ == earlier[j],
                seen == exists|j: int| 0 <= j < k && earlier[j] == ip@,
            decreases r@.len() - k,
        {
            if r[k].same_as(&ip) {
                seen = true;
            }
            k = k + 1;
        }
        assert(seen == earlier.contains(ip@));
        if !seen {
            r.push(ip);
            assert(unique_addresses(derefs(order@).take(i + 1)) == earlier.push(ip@));
        }
        i = i + 1;
    }
    assert(derefs(order@).take(i as int) =~= derefs(order@));
    r
}

} // verus!
