//! What the launcher knows of a server.
use vstd::prelude::*;
use crate::application::country::Country;
use crate::application::game_mode::GameModeId;
use crate::application::ip_port::IpPort;
use crate::application::map::MapName;
use crate::application::promised_value::PromisedValue;
use crate::application::servers_source::SourceKey;
use crate::ordered_map::OrderedKey;
use crate::text::copy_text;
use crate::time::Duration;

verus! {

/// Store information about a server. The thumbnail of its map, once loaded, is
/// the image file's bytes.
#[derive(Debug)]
pub struct Server {
    pub name: String,
    pub max_players_count: u8,
    pub current_players_count: u8,
    pub map: MapName,
    pub next_map: Option<MapName>,
    pub map_thumbnail: PromisedValue<Vec<u8>>,
    pub ip_port: IpPort,
    pub country: PromisedValue<Country>,
    pub ping: PromisedValue<Duration>,
    pub source_key: Option<SourceKey>,
    pub game_modes: Vec<GameModeId>,
    pub provider: String,
    pub vac_secured: bool,
    pub has_rtd: bool,
    pub has_no_respawn_time: bool,
    pub has_all_talk: bool,
    pub has_random_crits: bool,
    pub need_password: bool,
}

/// Free player slots: the maximum minus the players, or zero when over full.
pub open spec fn spec_free_slots(max_players: u8, players: u8) -> u8 {
    if max_players < players {
        0
    } else {
        (max_players - players) as u8
    }
}

impl Server {
    pub fn free_slots(&self) -> (n: u8)
        ensures
            n == spec_free_slots(self.max_players_count, self.current_players_count),
    {
        if self.max_players_count < self.current_players_count {
            return 0;
        }
        self.max_players_count - self.current_players_count
    }
}

impl Default for Server {
    fn default() -> (s: Server)
        ensures
            s.name@ == Seq::<char>::empty(),
            s.max_players_count == 0,
            s.current_players_count == 0,
            s.map@ == Seq::<char>::empty(),
            s.next_map is None,
            s.map_thumbnail is Absent,
            s.ip_port@ == ((0u8, 0u8, 0u8, 0u8), 0u16),
            s.country is Absent,
            s.ping is Absent,
            s.source_key is None,
            s.game_modes@ == Seq::<GameModeId>::empty(),
            s.provider@ == Seq::<char>::empty(),
            !s.vac_secured,
            !s.has_rtd,
            !s.has_no_respawn_time,
            !s.has_all_talk,
            !s.has_random_crits,
            !s.need_password,
    {
        Server {
            name: String::new(),
            max_players_count: 0,
            current_players_count: 0,
            map: MapName::default(),
            next_map: None,
            map_thumbnail: PromisedValue::Absent,
            ip_port: IpPort::default(),
            country: PromisedValue::Absent,
            ping: PromisedValue::Absent,
            source_key: None,
            game_modes: Vec::new(),
            provider: String::new(),
            vac_secured: false,
            has_rtd: false,
            has_no_respawn_time: false,
            has_all_talk: false,
            has_random_crits: false,
            need_password: false,
        }
    }
}

/// The properties that the servers list counts.
#[derive(Clone, Copy, Debug, PartialEq, Eq, PartialOrd, Ord, Hash, Structural)]
pub enum Property {
    Password,
    NoRespawnTime,
    Rtd,
    AllTalk,
    VacSecured,
    RandomCrits,
}

pub open spec fn property_rank(p: Property) -> u32 {
    match p {
        Property::Password => 0,
        Property::NoRespawnTime => 1,
        Property::Rtd => 2,
        Property::AllTalk => 3,
        Property::VacSecured => 4,
        Property::RandomCrits => 5,
    }
}

impl OrderedKey for Property {
    open spec fn key_model(&self) -> Seq<u32> {
        seq![property_rank(*self)]
    }

    fn key_code(&self) -> (r: Vec<u32>) {
        let rank: u32 = match self {
            Property::Password => 0,
            Property::NoRespawnTime => 1,
            Property::Rtd => 2,
            Property::AllTalk => 3,
            Property::VacSecured => 4,
            Property::RandomCrits => 5,
        };
        let mut r: Vec<u32> = Vec::new();
        r.push(rank);
        assert(r@ =~= self.key_model());
        r
    }
}

/// A server as the servers' data source describes it, its address already parsed.
#[derive(Debug)]
pub struct ServerRecord {
    pub name: String,
    pub map_name: String,
    pub map_name_next: Option<String>,
    pub players: u8,
    pub max_players: u8,
    pub ip_port: IpPort,
    pub provider: Option<String>,
    pub game_modes: Vec<String>,
    pub valve_secure: bool,
    pub has_alltalk: Option<bool>,
    pub has_rtd: Option<bool>,
    pub has_norespawntime: Option<bool>,
    pub has_randomcrits: Option<bool>,
    pub has_password: Option<bool>,
}

pub open spec fn flag_or_false(flag: Option<bool>) -> bool {
    match flag {
        Some(b) => b,
        None => false,
    }
}

/// The provider shown for a server: the one given, or `Unspecified`.
pub open spec fn provider_or_unspecified(provider: Option<String>) -> Seq<char> {
    match provider {
        Some(p) => p@,
        None => seq!['U', 'n', 's', 'p', 'e', 'c', 'i', 'f', 'i', 'e', 'd'],
    }
}

impl Server {
    /// A freshly fetched server: thumbnail, country and ping are still loading,
    /// it has no source yet, a missing provider reads `Unspecified` and a
    /// missing flag reads false.
    pub fn from_record(record: ServerRecord) -> (s: Server)
        ensures
            s.name == record.name,
            s.map@ == record.map_name@,
            match record.map_name_next {
                Some(n) => s.next_map matches Some(m) && m@ == n@,
                None => s.next_map is None,
            },
            s.map_thumbnail is Loading,
            s.current_players_count == record.players,
            s.max_players_count == record.max_players,
            s.ip_port == record.ip_port,
            s.country is Loading,
            s.ping is Loading,
            s.source_key is None,
            s.provider@ == provider_or_unspecified(record.provider),
            s.game_modes@.len() == record.game_modes@.len(),
            forall|i: int| 0 <= i < s.game_modes@.len() ==> #[trigger] s.game_modes@[i]@
                == record.game_modes@[i]@,
            s.vac_secured == record.valve_secure,
            s.has_all_talk == flag_or_false(record.has_alltalk),
            s.has_rtd == flag_or_false(record.has_rtd),
            s.has_no_respawn_time == flag_or_false(record.has_norespawntime),
            s.has_random_crits == flag_or_false(record.has_randomcrits),
            s.need_password == flag_or_false(record.has_password),
    {
        let next_map = match &record.map_name_next {
            Some(n) => Some(MapName::new(n.as_str())),
            None => None,
        };
        let provider = match &record.provider {
            Some(p) => p.clone(),
            None => {
                let mut chars: Vec<char> = Vec::new();
                crate::text::push_str(&mut chars, "Unspecified");
                proof {
                    reveal_strlit("Unspecified");
                }
                crate::text::string_from_chars(&chars)
            },
        };
        let mut game_modes: Vec<GameModeId> = Vec::new();
        let mut i: usize = 0;
        while i < record.game_modes.len()
            invariant
                i <= record.game_modes@.len(),
                game_modes@.len() == i,
                forall|k: int| 0 <= k < i ==> #[trigger] game_modes@[k]@ == record.game_modes@[k]@,
            decreases record.game_modes@.len() - i,
        {
            game_modes.push(GameModeId::new(record.game_modes[i].as_str()));
            i = i + 1;
        }
        let map = MapName::new(record.map_name.as_str());
        Server {
            name: record.name,
            max_players_count: record.max_players,
            current_players_count: record.players,
            map,
            next_map,
            map_thumbnail: PromisedValue::Loading,
            ip_port: record.ip_port,
            country: PromisedValue::Loading,
            ping: PromisedValue::Loading,
            source_key: None,
            provider,
            game_modes,
            vac_secured: record.valve_secure,
            has_all_talk: match record.has_alltalk { Some(b) => b, None => false },
            has_rtd: match record.has_rtd { Some(b) => b, None => false },
            has_no_respawn_time: match record.has_norespawntime { Some(b) => b, None => false },
            has_random_crits: match record.has_randomcrits { Some(b) => b, None => false },
            need_password: match record.has_password { Some(b) => b, None => false },
        }
    }
}

} // verus!
