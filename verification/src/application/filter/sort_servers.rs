//! The order of the servers list.
use vstd::prelude::*;
use std::cmp::Ordering;
use crate::application::country::Country;
use crate::application::promised_value::PromisedValue;
use crate::application::server::{Server, spec_free_slots};
use crate::keys::{
    codes_equal, codes_less, key_lt, lemma_key_lt_asymmetric, lemma_key_lt_irreflexive,
    lemma_key_lt_total, lemma_key_lt_transitive, text_model,
};
use crate::ordered_map::OrderedKey;
use crate::text::{push_str, string_from_chars};
use crate::time::Duration;

verus! {

#[derive(Clone, Copy, Eq, PartialEq, Debug, Structural)]
pub enum SortCriterion {
    Ip,
    Name,
    Country,
    Ping,
    PlayerSlots,
    Players,
    FreePlayerSlots,
    MapName,
}

#[derive(Debug, Clone, Copy, Eq, PartialEq, Structural)]
pub enum SortDirection {
    Ascending,
    Descending,
}

impl SortCriterion {
    /// The label shown for the criterion, as `Display` writes it.
    pub fn to_string(&self) -> (s: String)
        ensures
            s@ == match *self {
                SortCriterion::Name => "Name"@,
                SortCriterion::Ip => "Ip"@,
                SortCriterion::Country => "Country"@,
                SortCriterion::Ping => "Ping"@,
                SortCriterion::PlayerSlots => "Player slots"@,
                SortCriterion::Players => "Players"@,
                SortCriterion::FreePlayerSlots => "Free slots"@,
                SortCriterion::MapName => "Map"@,
            },
    {
        let mut out: Vec<char> = Vec::new();
        match self {
            SortCriterion::Name => push_str(&mut out, "Name"),
            SortCriterion::Ip => push_str(&mut out, "Ip"),
            SortCriterion::Country => push_str(&mut out, "Country"),
            SortCriterion::Ping => push_str(&mut out, "Ping"),
            SortCriterion::PlayerSlots => push_str(&mut out, "Player slots"),
            SortCriterion::Players => push_str(&mut out, "Players"),
            SortCriterion::FreePlayerSlots => push_str(&mut out, "Free slots"),
            SortCriterion::MapName => push_str(&mut out, "Map"),
        }
        assert(out@ =~= Seq::<char>::empty() + out@);
        string_from_chars(&out)
    }
}

impl SortDirection {
    /// The label shown for the direction, as `Display` writes it.
    pub fn to_string(&self) -> (s: String)
        ensures
            s@ == match *self {
                SortDirection::Ascending => "Ascending"@,
                SortDirection::Descending => "Descending"@,
            },
    {
        let mut out: Vec<char> = Vec::new();
        match self {
            SortDirection::Ascending => push_str(&mut out, "Ascending"),
            SortDirection::Descending => push_str(&mut out, "Descending"),
        }
        assert(out@ =~= Seq::<char>::empty() + out@);
        string_from_chars(&out)
    }
}

pub open spec fn nanos_int(d: Duration) -> int {
    d@ as int
}

pub open spec fn count_int(n: u8) -> int {
    n as int
}

pub open spec fn wide_int(n: u128) -> int {
    n as int
}

pub open spec fn free_slots_int(server: Server) -> int {
    spec_free_slots(server.max_players_count, server.current_players_count) as int
}

/// Ready values come first, then the ones loading, then the missing ones.
pub open spec fn promised_rank<T>(p: PromisedValue<T>) -> int {
    match p {
        PromisedValue::Ready(_) => 0,
        PromisedValue::Loading => 1,
        PromisedValue::Absent => 2,
    }
}

pub open spec fn keys_order(a: Seq<u32>, b: Seq<u32>) -> Ordering {
    if key_lt(a, b) {
        Ordering::Less
    } else if a == b {
        Ordering::Equal
    } else {
        Ordering::Greater
    }
}

pub open spec fn ints_order(a: int, b: int) -> Ordering {
    if a < b {
        Ordering::Less
    } else if a == b {
        Ordering::Equal
    } else {
        Ordering::Greater
    }
}

/// Countries compare by rank, then by code.
pub open spec fn countries_order(a: PromisedValue<Country>, b: PromisedValue<Country>) -> Ordering {
    match (a, b) {
        (PromisedValue::Ready(x), PromisedValue::Ready(y)) => keys_order(x.key_model(), y.key_model()),
        _ => ints_order(promised_rank(a), promised_rank(b)),
    }
}

/// Pings compare by rank, then by duration.
pub open spec fn pings_order(a: PromisedValue<Duration>, b: PromisedValue<Duration>) -> Ordering {
    match (a, b) {
        (PromisedValue::Ready(x), PromisedValue::Ready(y)) => ints_order(nanos_int(x), nanos_int(y)),
        _ => ints_order(promised_rank(a), promised_rank(b)),
    }
}

/// How two servers compare for a criterion.
pub open spec fn servers_order(criterion: SortCriterion, left: Server, right: Server) -> Ordering {
    match criterion {
        SortCriterion::Name => keys_order(text_model(left.name@), text_model(right.name@)),
        SortCriterion::Ip => keys_order(left.ip_port.key_model(), right.ip_port.key_model()),
        SortCriterion::Country => countries_order(left.country, right.country),
        SortCriterion::Ping => pings_order(left.ping, right.ping),
        SortCriterion::PlayerSlots => ints_order(
            count_int(left.max_players_count),
            count_int(right.max_players_count),
        ),
        SortCriterion::Players => ints_order(
            count_int(left.current_players_count),
            count_int(right.current_players_count),
        ),
        SortCriterion::FreePlayerSlots => ints_order(free_slots_int(left), free_slots_int(right)),
        SortCriterion::MapName => keys_order(left.map.key_model(), right.map.key_model()),
    }
}

fn order_codes(a: &Vec<u32>, b: &Vec<u32>) -> (o: Ordering)
    ensures
        o == keys_order(a@, b@),
{
    if codes_less(a, b) {
        Ordering::Less
    } else if codes_equal(a, b) {
        Ordering::Equal
    } else {
        Ordering::Greater
    }
}

fn order_numbers(a: u128, b: u128) -> (o: Ordering)
    ensures
        o == ints_order(wide_int(a), wide_int(b)),
{
    if a < b {
        Ordering::Less
    } else if a == b {
        Ordering::Equal
    } else {
        Ordering::Greater
    }
}

/// Widens a small count, to compare it with `order_numbers`.
fn widen(n: u8) -> (r: u128)
    ensures
        r == n,
{
    n as u128
}

fn promised_rank_of<T>(p: &PromisedValue<T>) -> (r: u128)
    ensures
        r == promised_rank(*p),
{
    match p {
        PromisedValue::Ready(_) => 0,
        PromisedValue::Loading => 1,
        PromisedValue::Absent => 2,
    }
}

/// Compares two servers for a criterion.
pub fn sort_servers(criterion: SortCriterion, left: &Server, right: &Server) -> (o: Ordering)
    ensures
        o == servers_order(criterion, *left, *right),
{
    match criterion {
        SortCriterion::Name => order_codes(&left.name.key_code(), &right.name.key_code()),
        SortCriterion::Ip => order_codes(&left.ip_port.key_code(), &right.ip_port.key_code()),
        SortCriterion::Country => match (&left.country, &right.country) {
            (PromisedValue::Ready(x), PromisedValue::Ready(y)) => order_codes(
                &x.key_code(),
                &y.key_code(),
            ),
            _ => order_numbers(promised_rank_of(&left.country), promised_rank_of(&right.country)),
        },
        SortCriterion::Ping => match (&left.ping, &right.ping) {
            (PromisedValue::Ready(x), PromisedValue::Ready(y)) => order_numbers(
                x.as_nanos(),
                y.as_nanos(),
            ),
            _ => order_numbers(promised_rank_of(&left.ping), promised_rank_of(&right.ping)),
        },
        SortCriterion::PlayerSlots => order_numbers(
            widen(left.max_players_count),
            widen(right.max_players_count),
        ),
        SortCriterion::Players => order_numbers(
            widen(left.current_players_count),
            widen(right.current_players_count),
        ),
        SortCriterion::FreePlayerSlots => order_numbers(
            widen(left.free_slots()),
            widen(right.free_slots()),
        ),
        SortCriterion::MapName => order_codes(&left.map.key_code(), &right.map.key_code()),
    }
}

/// Two comparisons agree when they are each other's mirror image.
pub open spec fn mirrored(o: Ordering, p: Ordering) -> bool {
    match o {
        Ordering::Less => p == Ordering::Greater,
        Ordering::Equal => p == Ordering::Equal,
        Ordering::Greater => p == Ordering::Less,
    }
}

/// `o` does not put its left side after its right side.
pub open spec fn not_after(o: Ordering) -> bool {
    o != Ordering::Greater
}

proof fn lemma_keys_order(a: Seq<u32>, b: Seq<u32>, c: Seq<u32>)
    ensures
        mirrored(keys_order(a, b), keys_order(b, a)),
        keys_order(a, b) == Ordering::Less && keys_order(b, c) == Ordering::Less ==> keys_order(a, c)
            == Ordering::Less,
        not_after(keys_order(a, b)) && not_after(keys_order(b, c)) ==> not_after(keys_order(a, c)),
{
    lemma_key_lt_irreflexive(a);
    if key_lt(a, b) {
        lemma_key_lt_asymmetric(a, b);
    }
    if key_lt(b, a) {
        lemma_key_lt_asymmetric(b, a);
    }
    if a != b {
        lemma_key_lt_total(a, b);
    }
    if b != c {
        lemma_key_lt_total(b, c);
    }
    if a != c {
        lemma_key_lt_total(a, c);
    }
    if key_lt(a, b) && key_lt(b, c) {
        lemma_key_lt_transitive(a, b, c);
    }
    if key_lt(c, a) && key_lt(a, b) {
        lemma_key_lt_transitive(c, a, b);
    }
    if key_lt(b, c) && key_lt(c, a) {
        lemma_key_lt_transitive(b, c, a);
    }
}

proof fn lemma_countries_order(a: PromisedValue<Country>, b: PromisedValue<Country>, c: PromisedValue<Country>)
    ensures
        mirrored(countries_order(a, b), countries_order(b, a)),
        countries_order(a, b) == Ordering::Less && countries_order(b, c) == Ordering::Less
            ==> countries_order(a, c) == Ordering::Less,
        not_after(countries_order(a, b)) && not_after(countries_order(b, c)) ==> not_after(
            countries_order(a, c),
        ),
{
    match (a, b, c) {
        (PromisedValue::Ready(x), PromisedValue::Ready(y), PromisedValue::Ready(z)) => {
            lemma_keys_order(x.key_model(), y.key_model(), z.key_model());
        },
        (PromisedValue::Ready(x), PromisedValue::Ready(y), _) => {
            lemma_keys_order(x.key_model(), y.key_model(), y.key_model());
        },
        (_, PromisedValue::Ready(y), PromisedValue::Ready(z)) => {
            lemma_keys_order(y.key_model(), z.key_model(), z.key_model());
        },
        (PromisedValue::Ready(x), _, PromisedValue::Ready(z)) => {
            lemma_keys_order(x.key_model(), z.key_model(), z.key_model());
        },
        _ => {},
    }
}

proof fn lemma_pings_order(a: PromisedValue<Duration>, b: PromisedValue<Duration>, c: PromisedValue<Duration>)
    ensures
        mirrored(pings_order(a, b), pings_order(b, a)),
        pings_order(a, b) == Ordering::Less && pings_order(b, c) == Ordering::Less ==> pings_order(
            a,
            c,
        ) == Ordering::Less,
        not_after(pings_order(a, b)) && not_after(pings_order(b, c)) ==> not_after(
            pings_order(a, c),
        ),
{
}

/// The order of servers for a criterion is a total preorder: comparing the
/// other way round mirrors the answer, and both "before" and "not after" chain.
pub proof fn lemma_servers_order(criterion: SortCriterion, a: Server, b: Server, c: Server)
    ensures
        mirrored(servers_order(criterion, a, b), servers_order(criterion, b, a)),
        servers_order(criterion, a, b) == Ordering::Less && servers_order(criterion, b, c)
            == Ordering::Less ==> servers_order(criterion, a, c) == Ordering::Less,
        not_after(servers_order(criterion, a, b)) && not_after(servers_order(criterion, b, c))
            ==> not_after(servers_order(criterion, a, c)),
{
    match criterion {
        SortCriterion::Name => lemma_keys_order(
            text_model(a.name@),
            text_model(b.name@),
            text_model(c.name@),
        ),
        SortCriterion::Ip => lemma_keys_order(
            a.ip_port.key_model(),
            b.ip_port.key_model(),
            c.ip_port.key_model(),
        ),
        SortCriterion::Country => lemma_countries_order(a.country, b.country, c.country),
        SortCriterion::Ping => lemma_pings_order(a.ping, b.ping, c.ping),
        SortCriterion::MapName => lemma_keys_order(
            a.map.key_model(),
            b.map.key_model(),
            c.map.key_model(),
        ),
        _ => {},
    }
}

/// Counted criteria sort the smaller count first: by the player slots, the
/// players, and the free slots (the slots minus the players, none when the
/// players exceed them).
pub proof fn lemma_counts_ascending(left: Server, right: Server)
    ensures
        (left.max_players_count < right.max_players_count) <==> servers_order(
            SortCriterion::PlayerSlots,
            left,
            right,
        ) == Ordering::Less,
        (left.max_players_count == right.max_players_count) <==> servers_order(
            SortCriterion::PlayerSlots,
            left,
            right,
        ) == Ordering::Equal,
        (left.current_players_count < right.current_players_count) <==> servers_order(
            SortCriterion::Players,
            left,
            right,
        ) == Ordering::Less,
        (left.current_players_count == right.current_players_count) <==> servers_order(
            SortCriterion::Players,
            left,
            right,
        ) == Ordering::Equal,
        ({
            let free_left: int = if left.max_players_count >= left.current_players_count {
                left.max_players_count - left.current_players_count
            } else {
                0
            };
            let free_right: int = if right.max_players_count >= right.current_players_count {
                right.max_players_count - right.current_players_count
            } else {
                0
            };
            &&& (free_left < free_right) <==> servers_order(SortCriterion::FreePlayerSlots, left, right)
                == Ordering::Less
            &&& (free_left == free_right) <==> servers_order(SortCriterion::FreePlayerSlots, left, right)
                == Ordering::Equal
        }),
{
}

/// By ping, servers with a ping come first, the shorter first, then those
/// still measured, then those that did not answer.
pub proof fn lemma_ping_ascending(left: Server, right: Server)
    ensures
        left.ping matches PromisedValue::Ready(x) ==> (right.ping matches PromisedValue::Ready(y) ==> ((x@
            < y@) <==> servers_order(SortCriterion::Ping, left, right) == Ordering::Less)),
        left.ping is Ready && !(right.ping is Ready) ==> servers_order(SortCriterion::Ping, left, right)
            == Ordering::Less,
        left.ping is Loading && right.ping is Absent ==> servers_order(SortCriterion::Ping, left, right)
            == Ordering::Less,
{
}

/// By country, servers with a country come first, in the order of the codes,
/// then those still located, then those with none.
pub proof fn lemma_country_ascending(left: Server, right: Server)
    ensures
        left.country matches PromisedValue::Ready(x) ==> (right.country matches PromisedValue::Ready(y)
            ==> (key_lt(x.key_model(), y.key_model()) <==> servers_order(SortCriterion::Country, left, right)
            == Ordering::Less)),
        left.country is Ready && !(right.country is Ready) ==> servers_order(SortCriterion::Country, left, right)
            == Ordering::Less,
        left.country is Loading && right.country is Absent ==> servers_order(SortCriterion::Country, left, right)
            == Ordering::Less,
{
}

/// By name, address or map, the server whose value sorts first comes first,
/// and servers with equal values tie.
pub proof fn lemma_texts_ascending(left: Server, right: Server)
    ensures
        key_lt(text_model(left.name@), text_model(right.name@)) <==> servers_order(SortCriterion::Name, left, right)
            == Ordering::Less,
        left.name@ == right.name@ ==> servers_order(SortCriterion::Name, left, right) == Ordering::Equal,
        key_lt(left.ip_port.key_model(), right.ip_port.key_model()) <==> servers_order(SortCriterion::Ip, left, right)
            == Ordering::Less,
        left.ip_port@ == right.ip_port@ ==> servers_order(SortCriterion::Ip, left, right) == Ordering::Equal,
        key_lt(left.map.key_model(), right.map.key_model()) <==> servers_order(SortCriterion::MapName, left, right)
            == Ordering::Less,
        left.map@ == right.map@ ==> servers_order(SortCriterion::MapName, left, right) == Ordering::Equal,
{
    lemma_key_lt_irreflexive(text_model(left.name@));
    lemma_key_lt_irreflexive(left.ip_port.key_model());
    lemma_key_lt_irreflexive(left.map.key_model());
}

/// How two servers compare in the list's direction.
pub open spec fn directed_order(
    criterion: SortCriterion,
    direction: SortDirection,
    left: Server,
    right: Server,
) -> Ordering {
    match direction {
        SortDirection::Ascending => servers_order(criterion, left, right),
        SortDirection::Descending => servers_order(criterion, right, left),
    }
}

/// The directed order is a total preorder too.
pub proof fn lemma_directed_order(
    criterion: SortCriterion,
    direction: SortDirection,
    a: Server,
    b: Server,
    c: Server,
)
    ensures
        mirrored(directed_order(criterion, direction, a, b), directed_order(criterion, direction, b, a)),
        directed_order(criterion, direction, a, b) == Ordering::Less && directed_order(
            criterion,
            direction,
            b,
            c,
        ) == Ordering::Less ==> directed_order(criterion, direction, a, c) == Ordering::Less,
        not_after(directed_order(criterion, direction, a, b)) && not_after(
            directed_order(criterion, direction, b, c),
        ) ==> not_after(directed_order(criterion, direction, a, c)),
        directed_order(criterion, direction, a, b) == Ordering::Less && not_after(
            directed_order(criterion, direction, b, c),
        ) ==> directed_order(criterion, direction, a, c) == Ordering::Less,
{
    lemma_servers_order(criterion, a, b, c);
    lemma_servers_order(criterion, c, b, a);
    lemma_servers_order(criterion, b, c, a);
    lemma_servers_order(criterion, a, c, b);
    lemma_servers_order(criterion, c, a, b);
    lemma_servers_order(criterion, b, a, c);
}

/// `left` comes strictly before `right` in the list's direction.
pub open spec fn precedes(
    criterion: SortCriterion,
    direction: SortDirection,
    left: Server,
    right: Server,
) -> bool {
    directed_order(criterion, direction, left, right) == Ordering::Less
}

/// Neither comes before the other.
pub open spec fn ties(criterion: SortCriterion, direction: SortDirection, left: Server, right: Server) -> bool {
    directed_order(criterion, direction, left, right) == Ordering::Equal
}

/// Coming before is a strict weak order whose incomparable pairs are the ties.
pub proof fn lemma_precedes(
    criterion: SortCriterion,
    direction: SortDirection,
    a: Server,
    b: Server,
    c: Server,
)
    ensures
        precedes(criterion, direction, a, b) ==> !precedes(criterion, direction, b, a),
        ties(criterion, direction, a, b) <==> (!precedes(criterion, direction, a, b) && !precedes(
            criterion,
            direction,
            b,
            a,
        )),
        precedes(criterion, direction, a, b) && precedes(criterion, direction, b, c) ==> precedes(
            criterion,
            direction,
            a,
            c,
        ),
        precedes(criterion, direction, a, b) && !precedes(criterion, direction, c, b) ==> precedes(
            criterion,
            direction,
            a,
            c,
        ),
        !precedes(criterion, direction, b, a) && !precedes(criterion, direction, c, b) ==> !precedes(
            criterion,
            direction,
            c,
            a,
        ),
{
    lemma_directed_order(criterion, direction, a, b, c);
    lemma_directed_order(criterion, direction, b, a, c);
    lemma_directed_order(criterion, direction, c, b, a);
    lemma_directed_order(criterion, direction, a, c, b);
    lemma_directed_order(criterion, direction, b, c, a);
    lemma_directed_order(criterion, direction, c, a, b);
}

/// Whether `left` comes strictly before `right` in the list's direction.
pub fn comes_before(criterion: SortCriterion, direction: SortDirection, left: &Server, right: &Server) -> (r:
    bool)
    ensures
        r == precedes(criterion, direction, *left, *right),
{
    let o = match direction {
        SortDirection::Ascending => sort_servers(criterion, left, right),
        SortDirection::Descending => sort_servers(criterion, right, left),
    };
    match o {
        Ordering::Less => true,
        _ => false,
    }
}

} // verus!
